//! The canonical article record and the publications that group articles.
use vstd::prelude::*;
use crate::clock::{UtcInstant, LocalTime, display_of, oslo_fields, to_local, format_display};

verus! {

/// One harvested news item.
#[derive(Clone, Debug)]
pub struct Article {
    pub id: String,
    pub title: String,
    pub link: String,
    pub published_time: UtcInstant,
    pub formatted_published_time: String,
    pub image: Option<String>,
}

/// The contents of an `Article` as values.
pub struct ArticleView {
    pub id: Seq<char>,
    pub title: Seq<char>,
    pub link: Seq<char>,
    pub published_time: UtcInstant,
    pub formatted_published_time: Seq<char>,
    pub image: Option<Seq<char>>,
}

pub open spec fn opt_view(o: Option<String>) -> Option<Seq<char>> {
    match o {
        Some(s) => Some(s@),
        None => None,
    }
}

impl View for Article {
    type V = ArticleView;

    open spec fn view(&self) -> ArticleView {
        ArticleView {
            id: self.id@,
            title: self.title@,
            link: self.link@,
            published_time: self.published_time,
            formatted_published_time: self.formatted_published_time@,
            image: opt_view(self.image),
        }
    }
}

/// A news source: its name, its address and, when a response is assembled,
/// the articles attached to it.
#[derive(Clone, Debug)]
pub struct Publication {
    pub name: String,
    pub url: String,
    pub articles: Vec<Article>,
}

pub open spec fn articles_view(v: Seq<Article>) -> Seq<ArticleView> {
    v.map_values(|a: Article| a@)
}

/// The display text of an instant in the display time zone, when the zone
/// table gives its calendar fields.
pub open spec fn display_time_of(t: UtcInstant) -> Option<Seq<char>> {
    match oslo_fields(t.secs as int, t.nanos as int) {
        Some(f) => Some(
            display_of(
                LocalTime {
                    year: f.0 as i32,
                    month: f.1 as u32,
                    day: f.2 as u32,
                    hour: f.3 as u32,
                    minute: f.4 as u32,
                    second: f.5 as u32,
                },
            ),
        ),
        None => None,
    }
}

/// The display text `YYYY-MM-DD HH:MM:SS` of an instant in the display time zone.
pub fn display_time(t: UtcInstant) -> (r: Option<String>)
    ensures
        opt_view(r) == display_time_of(t),
{
    match to_local(t) {
        Some(l) => {
            let s = format_display(l);
            assert(display_time_of(t) == Some(display_of(l)));
            Some(s)
        },
        None => None,
    }
}

/// The present results of `f` over `items`, in order.
pub open spec fn keep_some<T>(items: Seq<T>, f: spec_fn(T) -> Option<ArticleView>) -> Seq<ArticleView>
    decreases items.len(),
{
    if items.len() == 0 {
        Seq::empty()
    } else {
        keep_some(items.drop_last(), f) + match f(items.last()) {
            Some(a) => seq![a],
            None => Seq::empty(),
        }
    }
}

pub proof fn lemma_keep_some_concat<T>(a: Seq<T>, b: Seq<T>, f: spec_fn(T) -> Option<ArticleView>)
    ensures
        keep_some(a + b, f) == keep_some(a, f) + keep_some(b, f),
    decreases b.len(),
{
    if b.len() == 0 {
        assert(a + b =~= a);
        assert(keep_some(a, f) + keep_some(b, f) =~= keep_some(a, f));
    } else {
        lemma_keep_some_concat(a, b.drop_last(), f);
        assert((a + b).drop_last() =~= a + b.drop_last());
        assert((a + b).last() == b.last());
        let tail = match f(b.last()) {
            Some(x) => seq![x],
            None => Seq::<ArticleView>::empty(),
        };
        assert(keep_some(a, f) + keep_some(b.drop_last(), f) + tail =~= keep_some(a, f) + (
        keep_some(b.drop_last(), f) + tail));
    }
}

/// Removing an element for which `f` gives nothing leaves the results of the
/// others exactly as they were.
pub proof fn lemma_keep_some_remove<T>(items: Seq<T>, f: spec_fn(T) -> Option<ArticleView>, k: int)
    requires
        0 <= k < items.len(),
        f(items[k]) is None,
    ensures
        keep_some(items, f) == keep_some(items.remove(k), f),
{
    let a = items.subrange(0, k);
    let b = items.subrange(k + 1, items.len() as int);
    let one = seq![items[k]];
    assert(items =~= a + one + b);
    assert(items.remove(k) =~= a + b);
    lemma_keep_some_concat(a + one, b, f);
    lemma_keep_some_concat(a, one, f);
    lemma_keep_some_concat(a, b, f);
    assert(one.drop_last() =~= Seq::<T>::empty());
    assert(one.last() == items[k]);
    assert(keep_some(one.drop_last(), f) =~= Seq::<ArticleView>::empty());
    assert(keep_some(one, f) =~= Seq::<ArticleView>::empty());
    assert(keep_some(a, f) + keep_some(one, f) =~= keep_some(a, f));
}

} // verus!
