use news_ingest::article::display_time;
use news_ingest::clock::{
    format_display, parse_display, parse_feed_time, parse_lookup_time, LocalTime,
    UtcInstant,
};
use news_ingest::media::{get_image_url, Enclosure, Extension, FeedItem};

fn ext(attrs: &[(&str, &str)], children: Vec<(String, Vec<Extension>)>) -> Extension {
    Extension {
        attrs: attrs.iter().map(|(k, v)| (k.to_string(), v.to_string())).collect(),
        children,
    }
}

fn item_with(media: Vec<(String, Vec<Extension>)>, enclosure: Option<Enclosure>) -> FeedItem {
    let extensions = if media.is_empty() { vec![] } else { vec![("media".to_string(), media)] };
    FeedItem { title: None, link: None, pub_date: None, extensions, enclosure }
}

fn jpeg(url: &str) -> Option<Enclosure> {
    Some(Enclosure { url: url.to_string(), mime_type: "image/jpeg".to_string() })
}

#[test]
fn media_content_image_beats_enclosure() {
    let content = ext(&[("medium", "image"), ("url", "https://img/a.jpg")], vec![]);
    let item = item_with(vec![("content".to_string(), vec![content])], jpeg("https://img/enc.jpg"));
    assert_eq!(get_image_url(&item), Some("https://img/a.jpg".to_string()));
}

#[test]
fn enclosure_image_used_alone() {
    let item = item_with(vec![], jpeg("https://img/enc.jpg"));
    assert_eq!(get_image_url(&item), Some("https://img/enc.jpg".to_string()));
}

#[test]
fn no_image_source_gives_none() {
    let item = item_with(vec![], None);
    assert_eq!(get_image_url(&item), None);
}

#[test]
fn enclosure_of_other_type_is_not_an_image() {
    let enc = Some(Enclosure { url: "https://a/x.mp3".to_string(), mime_type: "audio/mpeg".to_string() });
    assert_eq!(get_image_url(&item_with(vec![], enc)), None);
}

#[test]
fn content_without_image_medium_is_skipped() {
    let content = ext(&[("medium", "video"), ("url", "https://v/a.mp4")], vec![]);
    let item = item_with(vec![("content".to_string(), vec![content])], jpeg("https://img/enc.jpg"));
    assert_eq!(get_image_url(&item), Some("https://img/enc.jpg".to_string()));
}

#[test]
fn nested_thumbnail_beats_top_level_thumbnail() {
    let thumb = ext(&[("url", "https://img/nested.jpg")], vec![]);
    let content = ext(&[("medium", "video")], vec![("thumbnail".to_string(), vec![thumb])]);
    let top = ext(&[("url", "https://img/top.jpg")], vec![]);
    let item = item_with(
        vec![("content".to_string(), vec![content]), ("thumbnail".to_string(), vec![top])],
        None,
    );
    assert_eq!(get_image_url(&item), Some("https://img/nested.jpg".to_string()));
}

#[test]
fn image_content_beats_earlier_nested_thumbnail() {
    let thumb = ext(&[("url", "https://img/nested.jpg")], vec![]);
    let first = ext(&[("medium", "video")], vec![("thumbnail".to_string(), vec![thumb])]);
    let second = ext(&[("medium", "image"), ("url", "https://img/second.jpg")], vec![]);
    let item = item_with(vec![("content".to_string(), vec![first, second])], None);
    assert_eq!(get_image_url(&item), Some("https://img/second.jpg".to_string()));
}

#[test]
fn top_level_thumbnail_beats_enclosure() {
    let top = ext(&[("url", "https://img/top.jpg")], vec![]);
    let item = item_with(vec![("thumbnail".to_string(), vec![top])], jpeg("https://img/enc.jpg"));
    assert_eq!(get_image_url(&item), Some("https://img/top.jpg".to_string()));
}

#[test]
fn rfc2822_timestamp_parses_to_utc_instant() {
    let t = parse_feed_time("Tue, 10 Jun 2025 14:30:00 +0200").unwrap();
    assert_eq!(t, UtcInstant { secs: 1749558600, nanos: 0 });
    assert_eq!(parse_feed_time("not a date"), None);
    assert_eq!(parse_feed_time(""), None);
}

#[test]
fn rfc3339_timestamp_parses_to_utc_instant() {
    let t = parse_lookup_time("2025-01-15T08:00:00Z").unwrap();
    assert_eq!(t, UtcInstant { secs: 1736928000, nanos: 0 });
    assert_eq!(parse_lookup_time("15 January 2025"), None);
    assert_eq!(parse_lookup_time(""), None);
}

#[test]
fn display_time_uses_oslo_summer_and_winter_offsets() {
    assert_eq!(
        display_time(UtcInstant { secs: 1749558600, nanos: 0 }),
        Some("2025-06-10 14:30:00".to_string())
    );
    assert_eq!(
        display_time(UtcInstant { secs: 1736928000, nanos: 0 }),
        Some("2025-01-15 09:00:00".to_string())
    );
}

#[test]
fn display_pattern_pads_fields() {
    let l = LocalTime { year: 987, month: 3, day: 4, hour: 5, minute: 6, second: 7 };
    assert_eq!(format_display(l), "0987-03-04 05:06:07");
    let far = LocalTime { year: 12345, month: 12, day: 31, hour: 23, minute: 59, second: 59 };
    assert_eq!(format_display(far), "+12345-12-31 23:59:59");
    let before = LocalTime { year: -44, month: 1, day: 1, hour: 0, minute: 0, second: 0 };
    assert_eq!(format_display(before), "-0044-01-01 00:00:00");
}

#[test]
fn display_round_trip_from_wire_timestamp() {
    let t = parse_feed_time("Wed, 15 Jan 2025 08:00:00 GMT").unwrap();
    let l = news_ingest::clock::to_local(t).unwrap();
    let shown = format_display(l);
    assert_eq!(shown, "2025-01-15 09:00:00");
    assert_eq!(parse_display(&shown), Some(l));
    for y in [-262144, -1, 0, 9999, 10000, 262143] {
        let l = LocalTime { year: y, month: 7, day: 9, hour: 1, minute: 2, second: 3 };
        assert_eq!(parse_display(&format_display(l)), Some(l));
    }
}

#[test]
fn display_parser_rejects_other_text() {
    assert_eq!(parse_display("2025-13-01 00:00:00"), None);
    assert_eq!(parse_display("2025-01-01T00:00:00"), None);
    assert_eq!(parse_display("25-01-01 00:00:00"), None);
    assert_eq!(parse_display(""), None);
}
