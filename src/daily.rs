//! The articles of one day, newest first, as the presentation layer lists them.
use vstd::prelude::*;
use vstd::seq_lib::*;
use crate::article::{Article, ArticleView, articles_view};
use crate::clock::UtcInstant;

verus! {

/// Whether `a` is not earlier than `b`.
pub open spec fn not_before(a: UtcInstant, b: UtcInstant) -> bool {
    a.secs > b.secs || (a.secs == b.secs && a.nanos >= b.nanos)
}

/// Whether an instant lies in the closed window from second `from` to second
/// `to`, both taken at a whole second.
pub open spec fn in_window(t: UtcInstant, from: i64, to: i64) -> bool {
    from <= t.secs && (t.secs < to || (t.secs == to && t.nanos == 0))
}

/// The articles published inside the window, in their order.
pub open spec fn window_of(s: Seq<ArticleView>, from: i64, to: i64) -> Seq<ArticleView>
    decreases s.len(),
{
    if s.len() == 0 {
        Seq::empty()
    } else if in_window(s.last().published_time, from, to) {
        window_of(s.drop_last(), from, to).push(s.last())
    } else {
        window_of(s.drop_last(), from, to)
    }
}

pub open spec fn newest_first(s: Seq<ArticleView>) -> bool {
    forall|i: int, j: int| 0 <= i < j < s.len() ==> not_before(s[i].published_time, s[j].published_time)
}

fn window_contains(t: UtcInstant, from: i64, to: i64) -> (r: bool)
    ensures
        r == in_window(t, from, to),
{
    from <= t.secs && (t.secs < to || (t.secs == to && t.nanos == 0))
}

fn is_later(a: UtcInstant, b: UtcInstant) -> (r: bool)
    ensures
        r == !not_before(b, a),
{
    a.secs > b.secs || (a.secs == b.secs && a.nanos > b.nanos)
}

/// The articles published inside the window from `from` to `to` (seconds
/// since the epoch, both ends included), newest first.
pub fn articles_of_day(articles: &Vec<Article>, from: i64, to: i64) -> (r: Vec<Article>)
    ensures
        articles_view(r@).to_multiset() == window_of(articles_view(articles@), from, to).to_multiset(),
        newest_first(articles_view(r@)),
{
    broadcast use to_multiset_build, to_multiset_insert;

    let ghost all = articles_view(articles@);
    let mut out: Vec<Article> = Vec::new();
    let mut i: usize = 0;
    assert(articles_view(out@) =~= window_of(all.subrange(0, 0), from, to));
    while i < articles.len()
        invariant
            i <= articles@.len(),
            all == articles_view(articles@),
            articles_view(out@).to_multiset() == window_of(all.subrange(0, i as int), from, to).to_multiset(),
            newest_first(articles_view(out@)),
        decreases articles.len() - i,
    {
        let ghost prefix = all.subrange(0, i + 1);
        assert(prefix.drop_last() =~= all.subrange(0, i as int));
        assert(prefix.last() == articles@[i as int]@);
        let t = articles[i].published_time;
        if window_contains(t, from, to) {
            let mut pos: usize = 0;
            while pos < out.len() && !is_later(t, out[pos].published_time)
                invariant
                    pos <= out@.len(),
                    forall|k: int| 0 <= k < pos ==> not_before(out@[k].published_time, t),
                decreases out.len() - pos,
            {
                pos = pos + 1;
            }
            let ghost before = articles_view(out@);
            let a = articles[i].duplicate();
            out.insert(pos, a);
            assert(articles_view(out@) =~= before.insert(pos as int, articles@[i as int]@));
            proof {
                to_multiset_insert(before, pos as int, articles@[i as int]@);
                to_multiset_build(window_of(all.subrange(0, i as int), from, to), articles@[i as int]@);
            }
            assert forall|p: int, q: int| 0 <= p < q < out@.len() implies not_before(
                articles_view(out@)[p].published_time,
                articles_view(out@)[q].published_time,
            ) by {
                if q < pos {
                } else if p < pos && q == pos {
                } else if p < pos {
                    assert(not_before(before[p].published_time, before[q - 1].published_time));
                } else if p == pos {
                    assert(not_before(before[pos as int].published_time, before[q - 1].published_time));
                } else {
                    assert(not_before(before[p - 1].published_time, before[q - 1].published_time));
                }
            }
        } else {
            assert(window_of(prefix, from, to) == window_of(all.subrange(0, i as int), from, to));
        }
        i = i + 1;
    }
    assert(all.subrange(0, all.len() as int) =~= all);
    out
}

} // verus!
