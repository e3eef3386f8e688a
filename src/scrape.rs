//! The scrape-and-enrich adapter: links discovered on an index page, each
//! enriched by the property bag of a metadata lookup and checked for a
//! trustworthy identity.
use vstd::prelude::*;
use crate::article::{Article, ArticleView, articles_view, display_time, display_time_of, keep_some,
    lemma_keep_some_remove, opt_view};
use crate::clock::{parse_lookup_time, rfc3339_instant, instant_of};
use crate::text::{str_eq, starts_with};

verus! {

/// One property/value pair returned by the metadata-lookup service.
#[derive(Clone, Debug)]
pub struct OpengraphTag {
    pub property: String,
    pub content: String,
}

/// What scraper selects in an HTML document: for each element that matches
/// the selector, in document order, the value of the attribute when present;
/// `None` when the selector does not parse.
pub uninterp spec fn selected_attrs(html: Seq<char>, selector: Seq<char>, attribute: Seq<char>) -> Option<
    Seq<Option<Seq<char>>>,
>;

/// Relies on scraper's `Selector::parse`, `Html::parse_document`, `Html::select`
/// and `ElementRef`'s `value().attr`.
#[verifier::external_body]
fn select_attrs(html: &str, selector: &str, attribute: &str) -> (r: Option<Vec<Option<String>>>)
    ensures
        match r {
            Some(v) => selected_attrs(html@, selector@, attribute@) == Some(
                v@.map_values(|o: Option<String>| opt_view(o)),
            ),
            None => selected_attrs(html@, selector@, attribute@) is None,
        },
{
    let sel = scraper::Selector::parse(selector).ok()?;
    let doc = scraper::Html::parse_document(html);
    Some(doc.select(&sel).map(|e| e.value().attr(attribute).map(|a| a.to_string())).collect())
}

/// The present values, in order.
pub open spec fn present(v: Seq<Option<Seq<char>>>) -> Seq<Seq<char>>
    decreases v.len(),
{
    if v.len() == 0 {
        Seq::empty()
    } else {
        present(v.drop_last()) + match v.last() {
            Some(x) => seq![x],
            None => Seq::empty(),
        }
    }
}

/// The article links of an index page: the `href` of every anchor under a
/// bulletin-time element, in document order.
pub open spec fn feed_links(html: Seq<char>) -> Seq<Seq<char>> {
    match selected_attrs(html, ".bulletin-time a"@, "href"@) {
        Some(v) => present(v),
        None => Seq::empty(),
    }
}

/// Collects the candidate article links of an index page; a page without
/// matches gives none, and an anchor without `href` is passed over.
pub fn get_feed_links(html: &str) -> (r: Vec<String>)
    ensures
        r@.map_values(|s: String| s@) == feed_links(html@),
{
    let mut out: Vec<String> = Vec::new();
    let found = match select_attrs(html, ".bulletin-time a", "href") {
        Some(v) => v,
        None => {
            assert(out@.map_values(|s: String| s@) =~= Seq::<Seq<char>>::empty());
            return out;
        },
    };
    let ghost vs = found@.map_values(|o: Option<String>| opt_view(o));
    let mut i: usize = 0;
    while i < found.len()
        invariant
            i <= found@.len(),
            vs == found@.map_values(|o: Option<String>| opt_view(o)),
            out@.map_values(|s: String| s@) == present(vs.subrange(0, i as int)),
        decreases found.len() - i,
    {
        assert(vs.subrange(0, i + 1).drop_last() =~= vs.subrange(0, i as int));
        assert(vs.subrange(0, i + 1).last() == opt_view(found@[i as int]));
        match &found[i] {
            Some(h) => {
                out.push(h.clone());
            },
            None => {},
        }
        assert(out@.map_values(|s: String| s@) =~= present(vs.subrange(0, i + 1)));
        i = i + 1;
    }
    assert(vs.subrange(0, found@.len() as int) =~= vs);
    out
}

/// The content of the first tag with property `name`.
pub open spec fn tag_content(tags: Seq<OpengraphTag>, name: Seq<char>) -> Option<Seq<char>>
    decreases tags.len(),
{
    if tags.len() == 0 {
        None
    } else if tags[0].property@ == name {
        Some(tags[0].content@)
    } else {
        tag_content(tags.drop_first(), name)
    }
}

pub open spec fn or_empty(o: Option<Seq<char>>) -> Seq<char> {
    match o {
        Some(s) => s,
        None => Seq::empty(),
    }
}

/// The last path segment of a URL: what follows its last `/`.
pub open spec fn last_segment(s: Seq<char>) -> Seq<char>
    decreases s.len(),
{
    if s.len() == 0 {
        s
    } else if s.last() == '/' {
        Seq::empty()
    } else {
        last_segment(s.drop_last()).push(s.last())
    }
}

/// The identity shape of the scraped source: an id begins with `1.`.
pub open spec fn valid_id(id: Seq<char>) -> bool {
    "1."@.len() <= id.len() && id.subrange(0, "1."@.len() as int) == "1."@
}

/// The article a looked-up URL normalizes to: its id is the URL's last path
/// segment, which must have the identity shape; the title must be non-empty
/// and the published time must parse.
pub open spec fn og_article(url: Seq<char>, tags: Seq<OpengraphTag>) -> Option<ArticleView> {
    let title = or_empty(tag_content(tags, "og:title"@));
    let time = or_empty(tag_content(tags, "article:published_time"@));
    let id = last_segment(url);
    if title.len() == 0 || !valid_id(id) {
        None
    } else {
        match rfc3339_instant(time) {
            Some(p) => match display_time_of(instant_of(p)) {
                Some(shown) => Some(
                    ArticleView {
                        id,
                        title,
                        link: url,
                        published_time: instant_of(p),
                        formatted_published_time: shown,
                        image: tag_content(tags, "og:image"@),
                    },
                ),
                None => None,
            },
            None => None,
        }
    }
}

fn find_tag(tags: &Vec<OpengraphTag>, name: &str) -> (r: Option<String>)
    ensures
        opt_view(r) == tag_content(tags@, name@),
{
    let mut i: usize = 0;
    assert(tags@.subrange(0, tags@.len() as int) =~= tags@);
    while i < tags.len()
        invariant
            i <= tags@.len(),
            tag_content(tags@, name@) == tag_content(tags@.subrange(i as int, tags@.len() as int), name@),
        decreases tags.len() - i,
    {
        assert(tags@.subrange(i as int, tags@.len() as int).drop_first() =~= tags@.subrange(
            i + 1,
            tags@.len() as int,
        ));
        if str_eq(tags[i].property.as_str(), name) {
            return Some(tags[i].content.clone());
        }
        i = i + 1;
    }
    None
}

/// The last path segment of a URL.
pub fn id_of_url(url: &str) -> (r: String)
    ensures
        r@ == last_segment(url@),
{
    let n = url.unicode_len();
    let mut start: usize = 0;
    let mut i: usize = 0;
    while i < n
        invariant
            n == url@.len(),
            start <= i <= n,
            last_segment(url@.subrange(0, i as int)) == url@.subrange(start as int, i as int),
        decreases n - i,
    {
        assert(url@.subrange(0, i + 1).drop_last() =~= url@.subrange(0, i as int));
        if url.get_char(i) == '/' {
            start = i + 1;
        }
        i = i + 1;
        assert(last_segment(url@.subrange(0, i as int)) =~= url@.subrange(start as int, i as int));
    }
    assert(url@.subrange(0, n as int) =~= url@);
    let s = url.substring_char(start, n);
    s.to_string()
}

/// Whether an id has the identity shape of the scraped source.
pub fn is_valid_id(id: &str) -> (r: bool)
    ensures
        r == valid_id(id@),
{
    starts_with(id, "1.")
}

/// Builds the article of one looked-up URL from its metadata tags; `None`
/// when its identity, title or published time is not acceptable.
pub fn get_opengraph_data(url: &str, tags: &Vec<OpengraphTag>) -> (r: Option<Article>)
    ensures
        match r {
            Some(a) => og_article(url@, tags@) == Some(a@),
            None => og_article(url@, tags@) is None,
        },
{
    let title = match find_tag(tags, "og:title") {
        Some(t) => t,
        None => String::new(),
    };
    let time = match find_tag(tags, "article:published_time") {
        Some(t) => t,
        None => String::new(),
    };
    let image = find_tag(tags, "og:image");
    let id = id_of_url(url);
    if title.unicode_len() == 0 || !is_valid_id(id.as_str()) {
        return None;
    }
    let published_time = match parse_lookup_time(time.as_str()) {
        Some(t) => t,
        None => return None,
    };
    let formatted_published_time = match display_time(published_time) {
        Some(s) => s,
        None => return None,
    };
    Some(Article { id, title, link: url.to_string(), published_time, formatted_published_time, image })
}

/// The article of one candidate: its URL and the tags its lookup returned,
/// or nothing when the lookup failed.
pub open spec fn candidate_article(c: (String, Option<Vec<OpengraphTag>>)) -> Option<ArticleView> {
    match c.1 {
        Some(tags) => og_article(c.0@, tags@),
        None => None,
    }
}

pub open spec fn scrape_batch(cs: Seq<(String, Option<Vec<OpengraphTag>>)>) -> Seq<ArticleView> {
    keep_some(cs, |c: (String, Option<Vec<OpengraphTag>>)| candidate_article(c))
}

/// The articles of the discovered candidates, in discovery order; a candidate
/// whose lookup failed or whose article is rejected is passed over and the
/// others are kept.
pub fn nrk(candidates: &Vec<(String, Option<Vec<OpengraphTag>>)>) -> (r: Vec<Article>)
    ensures
        articles_view(r@) == scrape_batch(candidates@),
{
    let mut out: Vec<Article> = Vec::new();
    let mut i: usize = 0;
    while i < candidates.len()
        invariant
            i <= candidates@.len(),
            articles_view(out@) == scrape_batch(candidates@.subrange(0, i as int)),
        decreases candidates.len() - i,
    {
        let ghost prefix = candidates@.subrange(0, i + 1);
        assert(prefix.drop_last() =~= candidates@.subrange(0, i as int));
        assert(prefix.last() == candidates@[i as int]);
        let c = &candidates[i];
        let found = match &c.1 {
            Some(tags) => get_opengraph_data(c.0.as_str(), tags),
            None => None,
        };
        match found {
            Some(a) => {
                out.push(a);
            },
            None => {},
        }
        assert(articles_view(out@) =~= scrape_batch(prefix));
        i = i + 1;
    }
    assert(candidates@.subrange(0, candidates@.len() as int) =~= candidates@);
    out
}

/// A candidate whose URL's last segment lacks the identity shape never yields
/// an article, and removing it leaves the articles of the other candidates
/// exactly as they were.
pub proof fn lemma_invalid_identity_dropped(cs: Seq<(String, Option<Vec<OpengraphTag>>)>, k: int)
    requires
        0 <= k < cs.len(),
        !valid_id(last_segment(cs[k].0@)),
    ensures
        candidate_article(cs[k]) is None,
        scrape_batch(cs) == scrape_batch(cs.remove(k)),
{
    lemma_keep_some_remove(cs, |c: (String, Option<Vec<OpengraphTag>>)| candidate_article(c), k);
}

} // verus!
