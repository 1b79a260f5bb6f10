use feed_bouncer::adapter::{parse_rss, pick_document};
use feed_bouncer::model::{decimal_text, Channel, Entry, FeedDownload, FeedHeader, FeedType, GenericFeed, Item, Link, Text};
use feed_bouncer::refresh::{retry_after_failure, MAX_FETCH_ATTEMPTS};
use feed_bouncer::store::replace_allowed;
use feed_bouncer::{Database, Feed, FeedItem};
use sha2::Digest;

fn rss_item(title: &str, date: &str, link: &str) -> Item {
    Item::new(
        Some(title.to_string()),
        Some(link.to_string()),
        None,
        None,
        None,
        Some(date.to_string()),
        None,
        std::collections::BTreeMap::new(),
    )
}

fn channel(title: &str, items: Vec<Item>) -> FeedDownload {
    FeedDownload::Rss(Channel::new(
        title.to_string(),
        "https://x".to_string(),
        "about".to_string(),
        None,
        None,
        None,
        items,
    ))
}

fn feed_with_url(name: &str, url: &str, tags: &[&str]) -> Feed {
    let mut f = Feed::new(name.to_string());
    f.set_feed_url(Some(url.to_string()));
    let tags: Vec<String> = tags.iter().map(|t| t.to_string()).collect();
    f.extend_tags(&tags);
    f
}

fn sha_hex(data: &[u8]) -> String {
    sha2::Sha256::digest(data)
        .iter()
        .map(|b| format!("{:02x}", b))
        .collect()
}

fn titles_of(db: &Database, id: &str) -> Vec<String> {
    db.get(id)
        .unwrap()
        .items()
        .iter()
        .map(|m| m.display_title().unwrap().to_string())
        .collect()
}

#[test]
fn end_to_end_insert_refresh_commit() {
    let mut db = Database::init(Vec::new(), None);
    let id = db.insert(feed_with_url("Example", "https://x/feed", &[]));
    assert_eq!(id, sha_hex(b"Examplehttps://x/feed"));

    let task = db.update_feeds_task();
    assert_eq!(task.feeds().len(), 1);
    assert_eq!(task.feeds()[0].feed_url, "https://x/feed");
    assert!(task.feeds()[0].existing.is_empty());
    assert_eq!(task.seq_no(), 0);

    let doc = channel(
        "Example",
        vec![
            rss_item("third", "Thu, 05 Jan 2023 10:00:00 +0000", "https://x/3"),
            rss_item("first", "Tue, 03 Jan 2023 10:00:00 +0000", "https://x/1"),
            rss_item("second", "Wednesday, 04 Jan 2023 10:00:00 +0000", "https://x/2"),
        ],
    );
    let result = task.run(vec![Some(doc)]);
    assert_eq!(result.updates().len(), 1);
    assert_eq!(result.updates()[0].items.len(), 3);
    assert!(db.commit_from(result));
    assert_eq!(db.get_update_seq_no(), 1);
    assert!(db.last_feed_update().is_some());
    assert_eq!(titles_of(&db, &id), vec!["first", "second", "third"]);
    let ids: Vec<usize> = db.get(&id).unwrap().items().iter().map(|m| m.id()).collect();
    assert_eq!(ids, vec![0, 1, 2]);
    assert_eq!(db.get(&id).unwrap().feed_headers().len(), 1);
}

#[test]
fn refresh_adds_only_unseen_items_and_headers() {
    let mut db = Database::init(Vec::new(), None);
    let id = db.insert(feed_with_url("Example", "https://x/feed", &[]));
    let items = || {
        vec![
            rss_item("a", "Tue, 03 Jan 2023 10:00:00 +0000", "https://x/a"),
            rss_item("b", "Wed, 04 Jan 2023 10:00:00 +0000", "https://x/b"),
        ]
    };
    let r1 = db.update_feeds_task().run(vec![Some(channel("Example", items()))]);
    assert!(db.commit_from(r1));
    let task = db.update_feeds_task();
    assert_eq!(task.feeds()[0].existing.len(), 2);
    let mut more = items();
    more.push(rss_item("c", "Thu, 05 Jan 2023 10:00:00 +0000", "https://x/c"));
    let r2 = task.run(vec![Some(channel("Example", more))]);
    assert_eq!(r2.updates()[0].items.len(), 1);
    assert!(db.commit_from(r2));
    assert_eq!(titles_of(&db, &id), vec!["a", "b", "c"]);
    assert_eq!(db.get(&id).unwrap().feed_headers().len(), 1);
    assert_eq!(db.get_update_seq_no(), 2);
}

#[test]
fn conflicting_commit_is_discarded() {
    let mut db = Database::init(Vec::new(), None);
    let id = db.insert(feed_with_url("Example", "https://x/feed", &[]));
    let plan_a = db.update_feeds_task();
    let plan_b = db.update_feeds_task();
    let doc = || channel("Example", vec![rss_item("a", "Tue, 03 Jan 2023 10:00:00 +0000", "l")]);
    let res_a = plan_a.run(vec![Some(doc())]);
    let res_b = plan_b.run(vec![Some(doc())]);
    assert!(db.commit_from(res_a));
    assert!(!db.commit_from(res_b));
    assert_eq!(db.get_update_seq_no(), 1);
    assert_eq!(db.get(&id).unwrap().items().len(), 1);
}

#[test]
fn failed_downloads_are_left_out() {
    let mut db = Database::init(Vec::new(), None);
    let a = db.insert(feed_with_url("A", "https://a/feed", &[]));
    db.insert(feed_with_url("B", "https://b/feed", &[]));
    db.insert(Feed::new("No url".to_string()));
    let task = db.update_feeds_task();
    assert_eq!(task.feeds().len(), 2);
    let first_is_a = task.feeds()[0].feed_id == a;
    let doc = channel("A", vec![rss_item("x", "Tue, 03 Jan 2023 10:00:00 +0000", "l")]);
    let downloads = if first_is_a { vec![Some(doc), None] } else { vec![None, Some(doc)] };
    let result = task.run(downloads);
    assert_eq!(result.updates().len(), 1);
    assert_eq!(result.updates()[0].feed_id, a);
    assert!(db.commit_from(result));
    assert_eq!(db.get(&a).unwrap().items().len(), 1);
}

#[test]
fn insert_twice_resolves_to_the_same_id() {
    let mut db = Database::init(Vec::new(), None);
    let first = db.insert(feed_with_url("Example", "https://x/feed", &[]));
    let second = db.insert(feed_with_url("Example", "https://x/feed", &[]));
    assert_eq!(first, second);
    assert_eq!(db.get_feeds().len(), 1);
}

#[test]
fn insert_resolves_to_the_same_id_after_restart() {
    let mut db = Database::init(Vec::new(), None);
    let first = db.insert(feed_with_url("Example", "https://x/feed", &["news"]));
    let stored: Vec<(String, Feed)> = db.get_feeds().iter().cloned().collect();
    let mut again = Database::init(stored, None);
    let second = again.insert(feed_with_url("Example", "https://x/feed", &[]));
    assert_eq!(first, second);
    assert_eq!(again.get_feeds().len(), 1);
}

#[test]
fn renamed_source_with_same_url_keeps_its_id() {
    let mut db = Database::init(Vec::new(), None);
    let first = db.insert(feed_with_url("Old name", "https://x/feed", &[]));
    let second = db.insert(feed_with_url("New name", "https://x/feed", &[]));
    assert_eq!(first, second);
    assert_eq!(db.get(&first).unwrap().name(), "Old name");
}

#[test]
fn single_title_match_resolves_to_that_feed() {
    let mut db = Database::init(Vec::new(), None);
    let first = db.insert(Feed::new("Folder".to_string()));
    let second = db.insert(feed_with_url("Folder", "https://f/feed", &[]));
    assert_eq!(first, second);
    assert_eq!(db.get(&first).unwrap().feed_url(), Some("https://f/feed"));
}

#[test]
fn same_title_without_url_match_resolves_to_the_titled_feed() {
    let mut db = Database::init(Vec::new(), None);
    let a = db.insert(feed_with_url("Same", "https://a/feed", &[]));
    let b = db.insert(feed_with_url("Same", "https://b/feed", &[]));
    assert_eq!(a, b);
    assert_eq!(db.get(&a).unwrap().feed_url(), Some("https://a/feed"));
}

#[test]
fn ambiguous_title_mints_a_new_id() {
    let stored = vec![
        ("x1".to_string(), Feed::new("Same".to_string())),
        ("x2".to_string(), Feed::new("Same".to_string())),
    ];
    let mut db = Database::init(stored, None);
    let c = db.insert(feed_with_url("Same", "https://c/feed", &[]));
    assert_eq!(c, sha_hex(b"Samehttps://c/feed"));
    assert_eq!(db.get_feeds().len(), 3);
}

#[test]
fn merge_keeps_set_values_and_unites_tags() {
    let mut db = Database::init(Vec::new(), None);
    let id = db.insert(feed_with_url("Example", "https://x/feed", &["news"]));
    let again = db.insert(feed_with_url("Example", "https://x/feed", &["daily"]));
    assert_eq!(id, again);
    let f = db.get(&id).unwrap();
    assert!(f.contains_tag("news"));
    assert!(f.contains_tag("daily"));
    assert_eq!(f.tags().len(), 2);
}

#[test]
fn reimport_unites_tags() {
    let mut db = Database::init(Vec::new(), None);
    let news = vec!["news".to_string()];
    let daily = vec!["daily".to_string()];
    assert!(!db.import_known_rss("https://x/feed", &news));
    let id = db.import_new_rss("https://x/feed", "Example", &news);
    assert!(db.import_known_rss("https://x/feed", &daily));
    assert_eq!(db.get_feeds().len(), 1);
    let f = db.get(&id).unwrap();
    assert!(f.contains_tag("news"));
    assert!(f.contains_tag("daily"));
    assert_eq!(f.tags().len(), 2);
}

#[test]
fn tags_and_aliases_through_the_database() {
    let mut db = Database::init(Vec::new(), None);
    let id = db.insert(feed_with_url("Example", "https://x/feed", &[]));
    assert_eq!(db.add_tags(&id, &vec!["tech".to_string()]), Some(true));
    assert_eq!(db.add_tags(&id, &vec!["tech".to_string()]), Some(false));
    assert_eq!(db.remove_tag(&id, "tech"), Some(true));
    assert_eq!(db.remove_tag(&id, "tech"), Some(false));
    assert_eq!(db.add_tags("missing", &vec!["tech".to_string()]), None);
    assert_eq!(db.add_title_alias(&id, "  Ex  "), Some(true));
    assert_eq!(db.get(&id).unwrap().title_aliases(), &vec!["Ex".to_string()]);
    assert_eq!(db.remove_title_alias(&id, "Ex "), Some(true));
    assert_eq!(db.remove_title_alias(&id, "Ex"), Some(false));
    assert!(db.set_display_name(&id, " Shown ".to_string()));
    assert_eq!(db.get(&id).unwrap().display_name(), "Shown");
    assert_eq!(db.get(&id).unwrap().original_display_name(), "Example");
    assert!(!db.set_display_name("missing", "x".to_string()));
}

#[test]
fn mark_read_records_item_ids() {
    let mut db = Database::init(Vec::new(), None);
    let id = "feed".to_string();
    db.mark_read(&id, 3);
    db.mark_read(&id, 3);
    db.mark_read(&id, 5);
    let entries = db.user_data().entries();
    assert_eq!(entries.len(), 1);
    assert_eq!(entries[0].1.read_ids, vec![3, 5]);
}

#[test]
fn items_ordered_by_time_across_feeds() {
    let mut db = Database::init(Vec::new(), None);
    db.insert(feed_with_url("A", "https://a/feed", &[]));
    db.insert(feed_with_url("B", "https://b/feed", &[]));
    let task = db.update_feeds_task();
    let mut downloads = Vec::new();
    for p in task.feeds() {
        if p.feed_url == "https://a/feed" {
            downloads.push(Some(channel("A", vec![
                rss_item("a2", "Thu, 05 Jan 2023 10:00:00 +0000", "l"),
                rss_item("a1", "Tue, 03 Jan 2023 10:00:00 +0000", "l"),
            ])));
        } else {
            downloads.push(Some(channel("B", vec![rss_item("b1", "Wed, 04 Jan 2023 10:00:00 +0000", "l")])));
        }
    }
    assert!(db.commit_from(task.run(downloads)));
    let titles: Vec<String> = db
        .get_items_ordered_by_time()
        .iter()
        .map(|t| t.2.display_title().unwrap().to_string())
        .collect();
    assert_eq!(titles, vec!["a1", "b1", "a2"]);
}

#[test]
fn save_guard_refuses_shrinking() {
    assert!(!replace_allowed(10, 20, false));
    assert!(replace_allowed(10, 20, true));
    assert!(replace_allowed(20, 20, false));
    assert!(replace_allowed(30, 20, false));
    assert!(replace_allowed(0, 0, false));
}

#[test]
fn retries_stop_after_the_bound() {
    assert_eq!(MAX_FETCH_ATTEMPTS, 5);
    assert!(retry_after_failure(1));
    assert!(retry_after_failure(4));
    assert!(!retry_after_failure(5));
}

fn generic(updated: Option<i64>, entries: Vec<Entry>) -> GenericFeed {
    GenericFeed::new(
        FeedType::Atom,
        "urn:a".to_string(),
        Some(Text::new(None, "Atom Blog".to_string())),
        None,
        updated,
        None,
        Some("en".to_string()),
        Some(60),
        entries,
    )
}

#[test]
fn parse_rss_reads_channels_and_keeps_guid_and_extensions() {
    let rss = br#"<?xml version="1.0"?><rss version="2.0" xmlns:dc="http://purl.org/dc/elements/1.1/"><channel><title>Tech Blog</title><link>https://t</link><description>d</description><item><title>One</title><link>https://t/1</link><guid>urn:one</guid><dc:creator>Ann</dc:creator><pubDate>Monday, 02 Jan 2023 10:00:00 +0000</pubDate></item></channel></rss>"#;
    match parse_rss(rss) {
        Some(FeedDownload::Rss(c)) => {
            assert_eq!(c.title, "Tech Blog");
            assert_eq!(c.items.len(), 1);
            assert_eq!(c.items[0].title.as_deref(), Some("One"));
            assert_eq!(c.items[0].guid.as_deref(), Some("urn:one"));
            let item = FeedItem::Rss(c.items[0].clone());
            let expected = chrono::DateTime::parse_from_rfc2822("Mon, 02 Jan 2023 10:00:00 +0000")
                .unwrap()
                .timestamp();
            assert_eq!(item.publish_date_or_old(), expected);
        }
        _ => panic!("expected an RSS channel"),
    }
    let atom = br#"<?xml version="1.0" encoding="utf-8"?><feed xmlns="http://www.w3.org/2005/Atom"><title>Atom Blog</title><id>urn:a</id><updated>2023-01-02T10:00:00Z</updated></feed>"#;
    assert!(parse_rss(atom).is_none());
    assert!(parse_rss(b"not a feed").is_none());
}

#[test]
fn pick_document_prefers_rss_then_generic() {
    let entry = Entry::new(
        "urn:e".to_string(),
        Some(Text::new(None, "Entry".to_string())),
        vec![Link::new("https://a/e".to_string(), None, None, None)],
        None,
        Some(1672653600),
    );
    let d = pick_document(None, Some(generic(Some(1), vec![entry]))).expect("a generic feed");
    assert_eq!(d.title(), "Atom Blog");
    let (header, items) = d.split_header();
    match header {
        FeedHeader::FeedRs(h) => {
            assert_eq!(h.updated, Some(1));
            assert_eq!(h.language.as_deref(), Some("en"));
            assert_eq!(h.ttl, Some(60));
        }
        _ => panic!("expected a generic header"),
    }
    assert_eq!(items.len(), 1);
    assert_eq!(items[0].content_link(), Some("https://a/e"));
    assert_eq!(items[0].publish_date_or_old(), 1672653600);
    let rss = channel("R", Vec::new());
    match pick_document(Some(rss), Some(generic(None, Vec::new()))) {
        Some(FeedDownload::Rss(c)) => assert_eq!(c.title, "R"),
        _ => panic!("expected the RSS reading"),
    }
    assert!(pick_document(None, None).is_none());
}

#[test]
fn changed_generic_header_is_stored_again() {
    let mut feed = Feed::new("F".to_string());
    let (h1, _) = FeedDownload::Feed(generic(Some(1), Vec::new())).split_header();
    let (h2, _) = FeedDownload::Feed(generic(Some(1), Vec::new())).split_header();
    let (h3, _) = FeedDownload::Feed(generic(Some(2), Vec::new())).split_header();
    feed.refresh(vec![h1, h2, h3], Vec::new());
    assert_eq!(feed.feed_headers().len(), 2);
}

#[test]
fn far_future_generic_dates_key_as_decimal() {
    let t = chrono::DateTime::parse_from_rfc3339("9999-12-31T23:00:00-05:00").unwrap().timestamp();
    let entry = Entry::new("urn:l".to_string(), Some(Text::new(None, "Late".to_string())), Vec::new(), None, Some(t));
    let item = FeedItem::FeedRs(entry);
    assert_eq!(item.publish_date_or_old(), t);
    let key = item.key();
    assert_eq!(key.0.as_deref(), Some("Late"));
    assert_eq!(key.1, Some(t.to_string()));
}

#[test]
fn decimal_text_writes_integers() {
    assert_eq!(decimal_text(0), "0");
    assert_eq!(decimal_text(1672653600), "1672653600");
    assert_eq!(decimal_text(-42), "-42");
    assert_eq!(decimal_text(i64::MIN), i64::MIN.to_string());
}
