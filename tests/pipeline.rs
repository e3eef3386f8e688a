use news_ingest::article::{Article, Publication};
use news_ingest::clock::UtcInstant;
use news_ingest::media::FeedItem;
use news_ingest::scheduler::{step, store_articles, TickAction, TickEvent, TickState};
use news_ingest::scrape::{get_feed_links, get_opengraph_data, id_of_url, is_valid_id, nrk, OpengraphTag};
use news_ingest::store::{add_article, add_publication, get_articles, init, StoreError, BBC_ID, NRK_ID};
use news_ingest::syndication::{normalize_feed_item, rss};

fn feed_item(title: Option<&str>, link: Option<&str>, date: Option<&str>) -> FeedItem {
    FeedItem {
        title: title.map(|s| s.to_string()),
        link: link.map(|s| s.to_string()),
        pub_date: date.map(|s| s.to_string()),
        extensions: vec![],
        enclosure: None,
    }
}

fn tags(pairs: &[(&str, &str)]) -> Vec<OpengraphTag> {
    pairs
        .iter()
        .map(|(p, c)| OpengraphTag { property: p.to_string(), content: c.to_string() })
        .collect()
}

fn publication(name: &str, url: &str) -> Publication {
    Publication { name: name.to_string(), url: url.to_string(), articles: vec![] }
}

fn article(id: &str) -> Article {
    Article {
        id: id.to_string(),
        title: "Title".to_string(),
        link: format!("https://example.org/{id}"),
        published_time: UtcInstant { secs: 1736928000, nanos: 0 },
        formatted_published_time: "2025-01-15 09:00:00".to_string(),
        image: None,
    }
}

const DATE: &str = "Wed, 15 Jan 2025 08:00:00 GMT";

#[test]
fn feed_item_normalizes_with_link_as_id() {
    let a = normalize_feed_item(&feed_item(Some("Hello"), Some("https://bbc/1"), Some(DATE))).unwrap();
    assert_eq!(a.id, "https://bbc/1");
    assert_eq!(a.title, "Hello");
    assert_eq!(a.link, "https://bbc/1");
    assert_eq!(a.published_time, UtcInstant { secs: 1736928000, nanos: 0 });
    assert_eq!(a.formatted_published_time, "2025-01-15 09:00:00");
    assert_eq!(a.image, None);
}

#[test]
fn feed_item_missing_field_is_rejected() {
    assert!(normalize_feed_item(&feed_item(None, Some("https://bbc/1"), Some(DATE))).is_none());
    assert!(normalize_feed_item(&feed_item(Some("t"), None, Some(DATE))).is_none());
    assert!(normalize_feed_item(&feed_item(Some("t"), Some("https://bbc/1"), None)).is_none());
    assert!(normalize_feed_item(&feed_item(Some("t"), Some("https://bbc/1"), Some("yesterday"))).is_none());
}

#[test]
fn rejected_items_do_not_abort_the_batch() {
    let items = vec![
        feed_item(None, Some("https://bbc/0"), Some(DATE)),
        feed_item(Some("a"), Some("https://bbc/1"), Some(DATE)),
        feed_item(Some("b"), None, Some(DATE)),
        feed_item(Some("c"), Some("https://bbc/3"), Some("garbage")),
        feed_item(Some("d"), Some("https://bbc/4"), Some(DATE)),
    ];
    let out = rss(&items);
    let links: Vec<&str> = out.iter().map(|a| a.link.as_str()).collect();
    assert_eq!(links, vec!["https://bbc/1", "https://bbc/4"]);
}

#[test]
fn end_to_end_feed_to_store() {
    let items = vec![
        feed_item(Some("one"), Some("https://bbc/1"), Some(DATE)),
        feed_item(Some("two"), Some("https://bbc/2"), None),
        feed_item(Some("three"), Some("https://bbc/3"), Some("Thu, 16 Jan 2025 10:15:30 +0000")),
    ];
    let out = rss(&items);
    assert_eq!(out.len(), 2);
    assert_eq!(out[0].formatted_published_time, "2025-01-15 09:00:00");
    assert_eq!(out[1].formatted_published_time, "2025-01-16 11:15:30");
    let mut store = init();
    add_publication(&mut store, BBC_ID, publication("BBC", "https://www.bbc.com/news/world"));
    for a in out {
        assert_eq!(add_article(&mut store, a, BBC_ID), Ok(()));
    }
    let mut ids: Vec<String> = get_articles(&store, BBC_ID).into_iter().map(|a| a.id).collect();
    ids.sort();
    assert_eq!(ids, vec!["https://bbc/1".to_string(), "https://bbc/3".to_string()]);
    assert!(get_articles(&store, NRK_ID).is_empty());
}

#[test]
fn same_article_twice_is_stored_once() {
    let mut store = init();
    add_publication(&mut store, NRK_ID, publication("NRK", "https://www.nrk.no/nyheter"));
    assert_eq!(add_article(&mut store, article("1.100"), NRK_ID), Ok(()));
    let mut changed = article("1.100");
    changed.title = "Other".to_string();
    assert_eq!(add_article(&mut store, changed, NRK_ID), Ok(()));
    let stored = get_articles(&store, NRK_ID);
    assert_eq!(stored.len(), 1);
    assert_eq!(stored[0].title, "Title");
}

#[test]
fn unknown_publication_is_refused() {
    let mut store = init();
    add_publication(&mut store, NRK_ID, publication("NRK", "https://www.nrk.no/nyheter"));
    assert_eq!(add_article(&mut store, article("1.5"), BBC_ID), Err(StoreError::UnknownPublication));
    assert!(get_articles(&store, BBC_ID).is_empty());
    assert!(get_articles(&store, NRK_ID).is_empty());
    assert_eq!(store_articles(&mut store, vec![article("1.6")], BBC_ID), Err(StoreError::UnknownPublication));
    assert!(store.has_publication(NRK_ID));
    assert!(!store.has_publication(BBC_ID));
}

#[test]
fn publication_registered_once() {
    let mut store = init();
    add_publication(&mut store, NRK_ID, publication("NRK", "https://www.nrk.no/nyheter"));
    add_publication(&mut store, NRK_ID, publication("Other", "https://other"));
    assert!(store.has_publication(NRK_ID));
    assert_eq!(add_article(&mut store, article("1.1"), NRK_ID), Ok(()));
}

#[test]
fn store_articles_skips_known_ids() {
    let mut store = init();
    add_publication(&mut store, NRK_ID, publication("NRK", "https://www.nrk.no/nyheter"));
    let batch = vec![article("1.1"), article("1.2"), article("1.1")];
    assert_eq!(store_articles(&mut store, batch, NRK_ID), Ok(()));
    assert_eq!(store_articles(&mut store, vec![article("1.2"), article("1.3")], NRK_ID), Ok(()));
    let ids: Vec<String> = get_articles(&store, NRK_ID).into_iter().map(|a| a.id).collect();
    assert_eq!(ids, vec!["1.1".to_string(), "1.2".to_string(), "1.3".to_string()]);
}

#[test]
fn opengraph_tags_make_an_article() {
    let t = tags(&[
        ("og:image", "https://img/x.jpg"),
        ("og:title", "Nyhet"),
        ("article:published_time", "2025-06-10T12:30:00Z"),
    ]);
    let a = get_opengraph_data("https://www.nrk.no/norge/1.17000000", &t).unwrap();
    assert_eq!(a.id, "1.17000000");
    assert_eq!(a.title, "Nyhet");
    assert_eq!(a.link, "https://www.nrk.no/norge/1.17000000");
    assert_eq!(a.published_time, UtcInstant { secs: 1749558600, nanos: 0 });
    assert_eq!(a.formatted_published_time, "2025-06-10 14:30:00");
    assert_eq!(a.image, Some("https://img/x.jpg".to_string()));
}

#[test]
fn opengraph_rejections() {
    let good = tags(&[("og:title", "Nyhet"), ("article:published_time", "2025-06-10T12:30:00Z")]);
    assert!(get_opengraph_data("https://www.nrk.no/norge/abc", &good).is_none());
    assert!(get_opengraph_data("https://www.nrk.no/norge/1", &good).is_none());
    assert!(get_opengraph_data("https://www.nrk.no/norge/", &good).is_none());
    let no_title = tags(&[("article:published_time", "2025-06-10T12:30:00Z")]);
    assert!(get_opengraph_data("https://www.nrk.no/norge/1.5", &no_title).is_none());
    let no_time = tags(&[("og:title", "Nyhet")]);
    assert!(get_opengraph_data("https://www.nrk.no/norge/1.5", &no_time).is_none());
    let bad_time = tags(&[("og:title", "Nyhet"), ("article:published_time", "soon")]);
    assert!(get_opengraph_data("https://www.nrk.no/norge/1.5", &bad_time).is_none());
}

#[test]
fn invalid_identity_excluded_others_kept() {
    let good = tags(&[("og:title", "Nyhet"), ("article:published_time", "2025-06-10T12:30:00Z")]);
    let candidates = vec![
        ("https://www.nrk.no/norge/1.1".to_string(), Some(good.clone())),
        ("https://www.nrk.no/norge/video-2".to_string(), Some(good.clone())),
        ("https://www.nrk.no/norge/1.3".to_string(), None),
        ("https://www.nrk.no/norge/1.4".to_string(), Some(good)),
    ];
    let ids: Vec<String> = nrk(&candidates).into_iter().map(|a| a.id).collect();
    assert_eq!(ids, vec!["1.1".to_string(), "1.4".to_string()]);
}

#[test]
fn identity_helpers() {
    assert_eq!(id_of_url("https://www.nrk.no/norge/1.123"), "1.123");
    assert_eq!(id_of_url("no-slash"), "no-slash");
    assert_eq!(id_of_url("https://a/b/"), "");
    assert!(is_valid_id("1.2"));
    assert!(!is_valid_id("1"));
    assert!(!is_valid_id("2.1"));
}

#[test]
fn feed_links_from_bulletin_anchors() {
    let html = r#"<html><body>
        <div class="bulletin-time"><a href="https://www.nrk.no/norge/1.1">10:00</a></div>
        <div class="other"><a href="https://www.nrk.no/norge/1.9">x</a></div>
        <div class="bulletin-time"><a>no link</a></div>
        <div class="bulletin-time"><a href="https://www.nrk.no/norge/1.2">11:00</a></div>
        </body></html>"#;
    assert_eq!(
        get_feed_links(html),
        vec!["https://www.nrk.no/norge/1.1".to_string(), "https://www.nrk.no/norge/1.2".to_string()]
    );
    assert!(get_feed_links("<html><body><p>nothing</p></body></html>").is_empty());
}

#[test]
fn ticks_of_one_source_never_overlap() {
    assert_eq!(step(TickState::Idle, TickEvent::TimerFired), (TickState::Running, TickAction::StartFetch));
    assert_eq!(step(TickState::Running, TickEvent::TimerFired), (TickState::Running, TickAction::Wait));
    assert_eq!(
        step(TickState::Running, TickEvent::FetchSucceeded),
        (TickState::Idle, TickAction::StoreArticles)
    );
    assert_eq!(step(TickState::Running, TickEvent::FetchFailed), (TickState::Idle, TickAction::SkipTick));
    assert_eq!(step(TickState::Idle, TickEvent::FetchSucceeded), (TickState::Idle, TickAction::Wait));
}
