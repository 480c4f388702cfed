use bot_rss::selector::{select_new_entries, usable_entries, FeedEntry, RawEntry};

fn feed_entries(body: &[u8], url: &str) -> Option<Vec<FeedEntry>> {
    let parser = feed_rs::parser::Builder::new().base_uri(Some(url)).build();
    let feed = parser.parse(body).ok()?;
    let raw: Vec<RawEntry> = feed
        .entries
        .into_iter()
        .map(|e| RawEntry {
            link: e.links.into_iter().next().map(|l| l.href),
            title: e.title.map(|t| t.content).unwrap_or_default(),
            published: e.published.map(|d| d.timestamp()),
        })
        .collect();
    Some(usable_entries(&raw))
}

fn entry(link: &str, published: i64) -> FeedEntry {
    FeedEntry { link: link.to_string(), title: format!("title {}", link), published }
}

#[test]
fn unordered_batch_selects_only_newer_entries() {
    let entries = vec![entry("a", 100), entry("b", 200), entry("c", 50)];
    let (fresh, watermark) = select_new_entries(100, &entries);
    assert_eq!(fresh.len(), 1);
    assert_eq!(fresh[0].link, "b");
    assert_eq!(fresh[0].published, 200);
    assert_eq!(watermark, 200);
}

#[test]
fn empty_batch_keeps_watermark() {
    let (fresh, watermark) = select_new_entries(123, &vec![]);
    assert!(fresh.is_empty());
    assert_eq!(watermark, 123);
}

#[test]
fn older_entries_do_not_move_watermark_back() {
    let entries = vec![entry("a", 10), entry("b", 20)];
    let (fresh, watermark) = select_new_entries(500, &entries);
    assert!(fresh.is_empty());
    assert_eq!(watermark, 500);
}

#[test]
fn watermark_after_passes_is_max_seen() {
    let passes = vec![
        vec![entry("a", 150), entry("b", 120)],
        vec![entry("c", 90)],
        vec![entry("d", 300), entry("e", 250)],
    ];
    let mut watermark = 100;
    let mut delivered: Vec<String> = vec![];
    for p in &passes {
        let (fresh, w) = select_new_entries(watermark, p);
        delivered.extend(fresh.into_iter().map(|e| e.link));
        watermark = w;
    }
    assert_eq!(watermark, 300);
    assert_eq!(delivered, vec!["a", "b", "d", "e"]);
}

#[test]
fn entry_seen_again_is_not_redelivered() {
    let first = vec![entry("a", 200)];
    let (fresh, w) = select_new_entries(100, &first);
    assert_eq!(fresh.len(), 1);
    let again = vec![entry("a", 200), entry("b", 150)];
    let (fresh2, w2) = select_new_entries(w, &again);
    assert!(fresh2.is_empty());
    assert_eq!(w2, 200);
}

#[test]
fn unusable_entries_are_dropped_one_by_one() {
    let raw = vec![
        RawEntry { link: Some("x".to_string()), title: "X".to_string(), published: Some(10) },
        RawEntry { link: None, title: "no link".to_string(), published: Some(11) },
        RawEntry { link: Some("y".to_string()), title: String::new(), published: None },
        RawEntry { link: Some("z".to_string()), title: String::new(), published: Some(0) },
        RawEntry { link: Some("w".to_string()), title: String::new(), published: Some(12) },
    ];
    let usable = usable_entries(&raw);
    assert_eq!(usable.len(), 2);
    assert_eq!(usable[0].link, "x");
    assert_eq!(usable[0].title, "X");
    assert_eq!(usable[1].link, "w");
    assert_eq!(usable[1].title, "");
    assert_eq!(usable[1].published, 12);
}

const RSS: &str = r#"<?xml version="1.0"?>
<rss version="2.0"><channel><title>T</title><link>https://x/</link><description>d</description>
<item><title>First</title><link>https://x/1</link><pubDate>Sun, 01 Jan 2023 00:00:00 GMT</pubDate></item>
<item><title>No date</title><link>https://x/2</link></item>
<item><title>Third</title><link>https://x/3</link><pubDate>Mon, 02 Jan 2023 00:00:00 GMT</pubDate></item>
</channel></rss>"#;

#[test]
fn rss_body_gives_dated_entries() {
    let entries = feed_entries(RSS.as_bytes(), "https://x/feed").expect("feed parses");
    assert_eq!(entries.len(), 2);
    assert_eq!(entries[0].link, "https://x/1");
    assert_eq!(entries[0].title, "First");
    assert_eq!(entries[0].published, 1672531200);
    assert_eq!(entries[1].link, "https://x/3");
    assert_eq!(entries[1].published, 1672617600);
}

#[test]
fn atom_body_gives_entries() {
    let atom = r#"<?xml version="1.0" encoding="utf-8"?>
<feed xmlns="http://www.w3.org/2005/Atom"><title>A</title><id>urn:a</id><updated>2023-01-01T00:00:00Z</updated>
<entry><title>E</title><id>urn:e</id><link href="https://y/e"/><published>2023-01-01T00:00:10Z</published><updated>2023-01-01T00:00:10Z</updated></entry>
</feed>"#;
    let entries = feed_entries(atom.as_bytes(), "https://y/feed").expect("feed parses");
    assert_eq!(entries.len(), 1);
    assert_eq!(entries[0].link, "https://y/e");
    assert_eq!(entries[0].published, 1672531210);
}

#[test]
fn non_feed_body_fails() {
    assert!(feed_entries(b"", "https://x/feed").is_none());
    assert!(feed_entries(b"hello world", "https://x/feed").is_none());
}

#[test]
fn scenario_selection_same_for_every_order() {
    let orders = [[100, 200, 50], [100, 50, 200], [200, 100, 50], [200, 50, 100], [50, 100, 200], [50, 200, 100]];
    for order in orders {
        let entries: Vec<FeedEntry> = order.iter().map(|t| entry(&format!("l{}", t), *t)).collect();
        let (fresh, watermark) = select_new_entries(100, &entries);
        assert_eq!(fresh.len(), 1);
        assert_eq!(fresh[0].link, "l200");
        assert_eq!(watermark, 200);
    }
}
