//! The syndication adapter: turns the items of a parsed feed into articles,
//! dropping each item that lacks a required field.
use vstd::prelude::*;
use crate::article::{Article, ArticleView, articles_view, keep_some, lemma_keep_some_remove, display_time, display_time_of, opt_view};
use crate::clock::{parse_feed_time, rfc2822_instant, instant_of};
use crate::media::{FeedItem, get_image_url, image_of};

verus! {

/// The article a feed item normalizes to: its link is its identity; title,
/// link and a parseable publish date are required.
pub open spec fn feed_article(item: FeedItem) -> Option<ArticleView> {
    match (item.title, item.link, item.pub_date) {
        (Some(title), Some(link), Some(date)) => match rfc2822_instant(date@) {
            Some(p) => match display_time_of(instant_of(p)) {
                Some(shown) => Some(
                    ArticleView {
                        id: link@,
                        title: title@,
                        link: link@,
                        published_time: instant_of(p),
                        formatted_published_time: shown,
                        image: image_of(item),
                    },
                ),
                None => None,
            },
            None => None,
        },
        _ => None,
    }
}

/// The articles of a batch of feed items, in document order.
pub open spec fn feed_batch(items: Seq<FeedItem>) -> Seq<ArticleView> {
    keep_some(items, |i: FeedItem| feed_article(i))
}

/// Normalizes one feed item; `None` when a required field is missing or the
/// date does not parse.
pub fn normalize_feed_item(item: &FeedItem) -> (r: Option<Article>)
    ensures
        match r {
            Some(a) => feed_article(*item) == Some(a@),
            None => feed_article(*item) is None,
        },
{
    let image = get_image_url(item);
    let title = match &item.title {
        Some(t) => t.clone(),
        None => return None,
    };
    let link = match &item.link {
        Some(l) => l.clone(),
        None => return None,
    };
    let published_time = match &item.pub_date {
        Some(d) => match parse_feed_time(d.as_str()) {
            Some(t) => t,
            None => return None,
        },
        None => return None,
    };
    let formatted_published_time = match display_time(published_time) {
        Some(s) => s,
        None => return None,
    };
    let a = Article {
        id: link.clone(),
        title,
        link,
        published_time,
        formatted_published_time,
        image,
    };
    assert(opt_view(a.image) == image_of(*item));
    Some(a)
}

/// The articles of the items of one feed document, in document order; an item
/// that lacks a title, a link or a parseable date is dropped and the others
/// are kept.
pub fn rss(items: &Vec<FeedItem>) -> (r: Vec<Article>)
    ensures
        articles_view(r@) == feed_batch(items@),
{
    let mut out: Vec<Article> = Vec::new();
    let mut i: usize = 0;
    while i < items.len()
        invariant
            i <= items@.len(),
            articles_view(out@) == feed_batch(items@.subrange(0, i as int)),
        decreases items.len() - i,
    {
        let ghost prefix = items@.subrange(0, i + 1);
        assert(prefix.drop_last() =~= items@.subrange(0, i as int));
        assert(prefix.last() == items@[i as int]);
        match normalize_feed_item(&items[i]) {
            Some(a) => {
                out.push(a);
                assert(articles_view(out@) =~= feed_batch(prefix));
            },
            None => {
                assert(articles_view(out@) =~= feed_batch(prefix));
            },
        }
        i = i + 1;
    }
    assert(items@.subrange(0, items@.len() as int) =~= items@);
    out
}

/// An item without a title, without a link, or whose date is missing or does
/// not parse never yields an article, and removing it from a batch leaves the
/// articles of its siblings exactly as they were.
pub proof fn lemma_rejected_item_dropped(items: Seq<FeedItem>, k: int)
    requires
        0 <= k < items.len(),
        items[k].title is None || items[k].link is None || items[k].pub_date is None
            || rfc2822_instant(items[k].pub_date->0@) is None,
    ensures
        feed_article(items[k]) is None,
        feed_batch(items) == feed_batch(items.remove(k)),
{
    lemma_keep_some_remove(items, |i: FeedItem| feed_article(i), k);
}

} // verus!
