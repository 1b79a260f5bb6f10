use std::collections::BTreeMap;

use feed_bouncer::date::OLD_DATE;
use feed_bouncer::feed::Feed;
use feed_bouncer::filter::{Filter, Tag};
use feed_bouncer::model::{ChannelHeader, Entry, FeedHeader, Item, Link, Text};
use feed_bouncer::text::{strip_prefix, trim};
use feed_bouncer::{FeedHeaderMeta, FeedItem, FeedItemMeta};

fn titled(title: &str) -> FeedItemMeta {
    FeedItemMeta::new(
        0,
        FeedItem::Rss(Item::new(Some(title.to_string()), None, None, None, None, None, None, BTreeMap::new())),
    )
}

fn dated(title: &str, date: Option<&str>) -> FeedItem {
    FeedItem::Rss(Item::new(
        Some(title.to_string()),
        None,
        None,
        None,
        None,
        date.map(|d| d.to_string()),
        None,
        BTreeMap::new(),
    ))
}

fn title_of(i: &FeedItem) -> String {
    i.display_title().unwrap().to_string()
}

#[test]
fn prefix_of_feed_name_is_stripped() {
    let feed = Feed::new("Tech Blog".to_string());
    let item = titled("Tech Blog - New Release");
    assert_eq!(item.display_title_without_prefixes(&feed), Some("New Release"));
}

#[test]
fn longest_alias_is_stripped_first() {
    let mut feed = Feed::new("Tech".to_string());
    feed.title_alias_insert("Tech Blog");
    let item = titled("  Tech Blog: Launch ");
    assert_eq!(item.display_title_without_prefixes(&feed), Some("Launch"));
    let other = titled("Other news");
    assert_eq!(other.display_title_without_prefixes(&feed), Some("Other news"));
    let none = FeedItemMeta::new(1, FeedItem::Rss(Item::new(None, None, None, None, None, None, None, BTreeMap::new())));
    assert_eq!(none.display_title_without_prefixes(&feed), None);
}

#[test]
fn strip_prefix_removes_separators() {
    assert_eq!(FeedItemMeta::strip_prefix(" Blog - Post ", "Blog"), "Post");
    assert_eq!(FeedItemMeta::strip_prefix("Blog: Post", "Blog"), "Post");
    assert_eq!(FeedItemMeta::strip_prefix("Post", "Blog"), "Post");
    assert_eq!(strip_prefix("abc", "ab"), "c");
    assert_eq!(trim("\u{a0} x \t\n"), "x");
    assert_eq!(trim("   "), "");
}

#[test]
fn sort_is_stable_and_puts_unreadable_dates_first() {
    let mut items = vec![
        dated("late", Some("Thu, 05 Jan 2023 10:00:00 +0000")),
        dated("tie1", Some("Tue, 03 Jan 2023 10:00:00 +0000")),
        dated("bad", Some("not a date")),
        dated("tie2", Some("Tuesday, 03 Jan 2023 10:00:00 +0000")),
        dated("none", None),
    ];
    FeedItem::sort(&mut items);
    let titles: Vec<String> = items.iter().map(title_of).collect();
    assert_eq!(titles, vec!["bad", "none", "tie1", "tie2", "late"]);
    assert_eq!(items[0].publish_date_or_old(), OLD_DATE);
}

#[test]
fn content_link_of_both_formats() {
    let rss = FeedItem::Rss(Item::new(None, Some("https://r".to_string()), None, None, None, None, None, BTreeMap::new()));
    assert_eq!(rss.content_link(), Some("https://r"));
    let entry = Entry::new(
        "id".to_string(),
        Some(Text::new(None, "  Entry title ".to_string())),
        vec![
            Link::new("https://first".to_string(), None, None, None),
            Link::new("https://second".to_string(), None, None, None),
        ],
        None,
        None,
    );
    let generic = FeedItem::FeedRs(entry);
    assert_eq!(generic.content_link(), Some("https://first"));
    assert_eq!(generic.display_title(), Some("Entry title"));
    assert_eq!(generic.publish_date_or_old(), OLD_DATE);
}

#[test]
fn push_item_keeps_date_order_and_numbers_items() {
    let mut feed = Feed::new("F".to_string());
    feed.push_item(dated("b", Some("Wed, 04 Jan 2023 10:00:00 +0000")));
    feed.push_item(dated("a", Some("Tue, 03 Jan 2023 10:00:00 +0000")));
    feed.push_item(dated("c", Some("Wed, 04 Jan 2023 10:00:00 +0000")));
    let got: Vec<(usize, String)> = feed
        .items()
        .iter()
        .map(|m| (m.id(), m.display_title().unwrap().to_string()))
        .collect();
    assert_eq!(got, vec![(1, "a".to_string()), (0, "b".to_string()), (2, "c".to_string())]);
}

fn header(title: &str) -> FeedHeader {
    FeedHeader::Rss(ChannelHeader {
        title: title.to_string(),
        link: "l".to_string(),
        description: "d".to_string(),
        language: None,
        pub_date: None,
        last_build_date: None,
    })
}

#[test]
fn migration_numbers_legacy_lists_once() {
    let mut feed = Feed::restore(
        "F".to_string(),
        None,
        None,
        vec![header("h1"), header("h2")],
        vec![FeedHeaderMeta::new(0, header("h0"))],
        1,
        vec![dated("x", Some("Thu, 05 Jan 2023 10:00:00 +0000")), dated("y", None)],
        Vec::new(),
        4,
        None,
        vec!["t".to_string(), "t".to_string()],
        Vec::new(),
        None,
    );
    assert_eq!(feed.tags().len(), 1);
    feed.migrate_data();
    let header_ids: Vec<usize> = feed.feed_headers().iter().map(|h| h.id()).collect();
    assert_eq!(header_ids, vec![0, 1, 2]);
    let items: Vec<(usize, String)> = feed
        .items()
        .iter()
        .map(|m| (m.id(), m.display_title().unwrap().to_string()))
        .collect();
    assert_eq!(items, vec![(5, "y".to_string()), (4, "x".to_string())]);
    feed.migrate_data();
    assert_eq!(feed.feed_headers().len(), 3);
    assert_eq!(feed.items().len(), 2);
}

#[test]
fn refresh_skips_headers_already_stored() {
    let mut feed = Feed::new("F".to_string());
    feed.push_feed_header(header("h"));
    assert!(feed.contains_feed_header(&header("h")));
    assert!(!feed.contains_feed_header(&header("other")));
    feed.refresh(vec![header("h"), header("new"), header("new")], Vec::new());
    assert_eq!(feed.feed_headers().len(), 2);
    assert_eq!(feed.feed_headers()[1].id(), 1);
}

#[test]
fn tags_parse_only_lowercase_names() {
    assert_eq!(Tag::new("  news ").map(|t| t.as_str().to_string()), Some("news".to_string()));
    assert!(Tag::new("").is_none());
    assert!(Tag::new("News").is_none());
    assert!(Tag::new("a-b").is_none());
    assert!(Tag::new("under_score").is_some());
}

#[test]
fn filters_match_required_excluded_and_exact() {
    let mut feed = Feed::new("F".to_string());
    feed.extend_tags(&vec!["news".to_string(), "tech".to_string()]);
    assert!(Filter::new(None).matches(&feed));
    assert!(Filter::new(Some("news".to_string())).matches(&feed));
    assert!(!Filter::new(Some("news, !tech".to_string())).matches(&feed));
    assert!(!Filter::new(Some("news,=".to_string())).matches(&feed));
    assert!(Filter::new(Some("news, tech, =".to_string())).matches(&feed));
    assert!(Filter::new(Some("Bad Tag, news".to_string())).matches(&feed));
    assert!(!Filter::new(Some("sports".to_string())).matches(&feed));
    let f = Filter::new(Some("news".to_string()));
    assert_eq!(f.raw(), "news");
    assert_eq!(f.raw_opt(), Some("news"));
    assert_eq!(Filter::new(None).raw_opt(), None);
}
