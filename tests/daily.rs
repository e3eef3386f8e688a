use news_ingest::article::Article;
use news_ingest::clock::UtcInstant;
use news_ingest::daily::articles_of_day;

fn at(id: &str, secs: i64, nanos: u32) -> Article {
    Article {
        id: id.to_string(),
        title: id.to_string(),
        link: format!("https://example.org/{id}"),
        published_time: UtcInstant { secs, nanos },
        formatted_published_time: String::new(),
        image: None,
    }
}

#[test]
fn day_window_keeps_inside_newest_first() {
    let from = 1736895600;
    let to = from + 86400;
    let articles = vec![
        at("early", from - 1, 0),
        at("start", from, 0),
        at("noon", from + 43200, 0),
        at("noon-later", from + 43200, 5),
        at("end", to, 0),
        at("after-end", to, 1),
        at("next", to + 10, 0),
    ];
    let ids: Vec<String> = articles_of_day(&articles, from, to).into_iter().map(|a| a.id).collect();
    assert_eq!(ids, vec!["end", "noon-later", "noon", "start"]);
}

#[test]
fn empty_day_gives_empty_list() {
    assert!(articles_of_day(&vec![], 0, 86400).is_empty());
    assert!(articles_of_day(&vec![at("x", 200000, 0)], 0, 86400).is_empty());
}
