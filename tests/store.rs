use feed_bouncer::feed::{Outline, OutlineTree};
use feed_bouncer::model::Item;
use feed_bouncer::{Database, Feed, FeedItem};

fn outline(text: &str, title: Option<&str>, url: Option<&str>, children: Vec<OutlineTree>) -> OutlineTree {
    OutlineTree {
        outline: Outline {
            text: text.to_string(),
            outline_type: None,
            title: title.map(|t| t.to_string()),
            xml_url: url.map(|u| u.to_string()),
            html_url: None,
            description: None,
        },
        children,
    }
}

fn dated(title: &str, date: &str) -> FeedItem {
    FeedItem::Rss(Item::new(Some(title.to_string()), None, None, None, None, Some(date.to_string()), None, std::collections::BTreeMap::new()))
}

#[test]
fn opml_import_links_children_to_parents() {
    let mut db = Database::init(Vec::new(), None);
    let tree = vec![outline(
        "Folder",
        None,
        None,
        vec![
            outline("a", Some("Blog A"), Some("https://a/feed"), Vec::new()),
            outline("b", None, Some("https://b/feed"), Vec::new()),
        ],
    )];
    let ids = db.import_from_opml(&tree, &vec!["imported".to_string()]);
    assert_eq!(ids.len(), 3);
    assert_eq!(db.get_feeds().len(), 3);
    assert_eq!(db.get(&ids[0]).unwrap().name(), "Folder");
    assert_eq!(db.get(&ids[0]).unwrap().parent(), None);
    assert_eq!(db.get(&ids[1]).unwrap().name(), "Blog A");
    assert_eq!(db.get(&ids[1]).unwrap().parent(), Some(ids[0].as_str()));
    assert_eq!(db.get(&ids[2]).unwrap().parent(), Some(ids[0].as_str()));
    let folder_id = db
        .get_feeds()
        .iter()
        .find(|(_, f)| f.name() == "Folder")
        .map(|(id, _)| id.clone())
        .unwrap();
    for (_, f) in db.get_feeds() {
        assert!(f.contains_tag("imported"));
        if f.name() != "Folder" {
            assert_eq!(f.parent(), Some(folder_id.as_str()));
            assert!(f.opml().is_some());
        }
    }
    let a = db.get_feeds().iter().find(|(_, f)| f.name() == "Blog A").unwrap();
    assert_eq!(a.1.feed_url(), Some("https://a/feed"));
    assert!(db.get_feeds().iter().any(|(_, f)| f.name() == "b"));
}

#[test]
fn mark_read_until_marks_older_items() {
    let mut feed = Feed::new("F".to_string());
    feed.push_item(dated("old", "Mon, 02 Jan 2023 10:00:00 +0000"));
    feed.push_item(dated("mid", "Tue, 03 Jan 2023 10:00:00 +0000"));
    feed.push_item(dated("new", "Wed, 04 Jan 2023 10:00:00 +0000"));
    let mut db = Database::init(vec![("f".to_string(), feed)], None);
    let id = "f".to_string();
    assert!(db.mark_read_until(&id, 1));
    let entries = db.user_data().entries();
    assert_eq!(entries.len(), 1);
    let mut read = entries[0].1.read_ids.clone();
    read.sort();
    assert_eq!(read, vec![0, 1]);
    assert!(!db.mark_read_until(&id, 9));
    assert!(!db.mark_read_until(&"missing".to_string(), 0));
}

#[test]
fn loaded_read_state_is_united_per_feed() {
    let loaded = vec![
        ("f".to_string(), vec![1, 2]),
        ("g".to_string(), vec![7]),
        ("f".to_string(), vec![2, 3]),
    ];
    let db = Database::init(Vec::new(), Some(loaded));
    let entries = db.user_data().entries();
    assert_eq!(entries.len(), 2);
    let f = entries.iter().find(|(k, _)| k == "f").unwrap();
    assert_eq!(f.1.read_ids, vec![1, 2, 3]);
}

#[test]
fn init_migrates_legacy_items() {
    let feed = Feed::restore(
        "F".to_string(),
        Some("https://f/feed".to_string()),
        None,
        Vec::new(),
        Vec::new(),
        0,
        vec![dated("b", "Wed, 04 Jan 2023 10:00:00 +0000"), dated("a", "Tue, 03 Jan 2023 10:00:00 +0000")],
        Vec::new(),
        0,
        None,
        Vec::new(),
        Vec::new(),
        None,
    );
    let db = Database::init(vec![("f".to_string(), feed)], None);
    let f = db.get("f").unwrap();
    assert!(f.legacy_items().is_empty());
    let ids: Vec<usize> = f.items().iter().map(|m| m.id()).collect();
    assert_eq!(ids, vec![1, 0]);
    assert_eq!(f.items_counter(), 2);
}

#[test]
fn sequence_number_only_rises() {
    let mut db = Database::init(Vec::new(), None);
    assert_eq!(db.get_update_seq_no(), 0);
    db.set_update_seq_no(4);
    assert_eq!(db.get_update_seq_no(), 4);
    assert!(db.last_feed_update().is_none());
}

#[test]
fn restore_raises_counters_past_stored_ids() {
    let items = vec![
        feed_bouncer::FeedItemMeta::new(7, dated("a", "Mon, 02 Jan 2023 10:00:00 +0000")),
        feed_bouncer::FeedItemMeta::new(3, dated("b", "Tue, 03 Jan 2023 10:00:00 +0000")),
    ];
    let mut feed = Feed::restore(
        "F".to_string(), None, None, Vec::new(), Vec::new(), 0, Vec::new(), items, 2, None,
        Vec::new(), Vec::new(), None,
    );
    assert_eq!(feed.items_counter(), 8);
    feed.push_item(dated("c", "Wed, 04 Jan 2023 10:00:00 +0000"));
    let ids: Vec<usize> = feed.items().iter().map(|m| m.id()).collect();
    assert_eq!(ids, vec![7, 3, 8]);
}

#[test]
fn import_entries_are_processed_once() {
    let mut ignore = false;
    assert!(feed_bouncer::database::take_import_entry(&mut ignore));
    assert!(ignore);
    assert!(!feed_bouncer::database::take_import_entry(&mut ignore));
    assert!(ignore);
}
