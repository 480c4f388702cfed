use bot_rss::persist::{check_fractions, decode_feeds};
use bot_rss::store::{RssFeeds, SubscribeOutcome, UnsubscribeOutcome, FeedSubscription};
use bot_rss::selector::FeedEntry;
use bot_rss::poll::{next_poll, PollAction, PollState, POLL_INTERVAL_SECS};

const URL: &str = "https://x/feed";

fn channels_of(feeds: &RssFeeds, url: &str) -> Option<Vec<u64>> {
    feeds.snapshot().into_iter().find(|f| f.url == url).map(|f| f.channels)
}

#[test]
fn subscribe_twice_is_already_subscribed() {
    let mut feeds = RssFeeds::new();
    assert_eq!(feeds.subscribe_at(7, URL.to_string(), true, 1000), SubscribeOutcome::NewFeedAdded);
    assert_eq!(feeds.subscribe_at(7, URL.to_string(), true, 2000), SubscribeOutcome::AlreadySubscribed);
    assert_eq!(channels_of(&feeds, URL), Some(vec![7]));
    assert_eq!(feeds.len(), 1);
}

#[test]
fn unreachable_new_feed_is_invalid() {
    let mut feeds = RssFeeds::new();
    assert!(!feeds.has_feed(&URL.to_string()));
    assert_eq!(feeds.subscribe_at(7, URL.to_string(), false, 1000), SubscribeOutcome::NewFeedInvalid);
    assert_eq!(feeds.len(), 0);
}

#[test]
fn second_channel_is_added_to_known_feed() {
    let mut feeds = RssFeeds::new();
    feeds.subscribe_at(7, URL.to_string(), true, 1000);
    assert_eq!(feeds.subscribe_at(9, URL.to_string(), false, 5), SubscribeOutcome::Added);
    assert_eq!(channels_of(&feeds, URL), Some(vec![7, 9]));
    let snap = feeds.snapshot();
    assert_eq!(snap[0].last_item_ts, 1000);
}

#[test]
fn last_unsubscribe_deletes_record() {
    let mut feeds = RssFeeds::new();
    feeds.subscribe_at(7, URL.to_string(), true, 1000);
    feeds.subscribe_at(9, URL.to_string(), true, 1000);
    assert_eq!(feeds.unsubscribe(7, URL.to_string()), UnsubscribeOutcome::Removed);
    assert_eq!(channels_of(&feeds, URL), Some(vec![9]));
    assert_eq!(feeds.unsubscribe(9, URL.to_string()), UnsubscribeOutcome::Removed);
    assert_eq!(channels_of(&feeds, URL), None);
    assert_eq!(feeds.len(), 0);
    assert_eq!(feeds.unsubscribe(9, URL.to_string()), UnsubscribeOutcome::NotFound);
}

#[test]
fn unsubscribe_unknown_channel_keeps_record() {
    let mut feeds = RssFeeds::new();
    feeds.subscribe_at(7, URL.to_string(), true, 1000);
    assert_eq!(feeds.unsubscribe(8, URL.to_string()), UnsubscribeOutcome::Removed);
    assert_eq!(channels_of(&feeds, URL), Some(vec![7]));
}

#[test]
fn subscribe_stamps_new_record_with_current_time() {
    let mut feeds = RssFeeds::new();
    assert_eq!(feeds.subscribe(7, URL.to_string(), true), SubscribeOutcome::NewFeedAdded);
    let snap = feeds.snapshot();
    assert!(snap[0].last_item_ts > 1_600_000_000);
}

#[test]
fn listing_for_channel() {
    let mut feeds = RssFeeds::new();
    feeds.subscribe_at(7, "https://a".to_string(), true, 1);
    feeds.subscribe_at(9, "https://b".to_string(), true, 1);
    feeds.subscribe_at(7, "https://c".to_string(), true, 1);
    assert_eq!(feeds.channel_subs(7), "- https://a\n- https://c\n");
    assert_eq!(feeds.channel_urls(7), vec!["https://a".to_string(), "https://c".to_string()]);
    assert_eq!(feeds.subscriptions_reply(9), "- https://b\n");
    assert_eq!(feeds.channel_subs(5), "");
    assert_eq!(feeds.subscriptions_reply(5), "None");
}

#[test]
fn outcome_messages() {
    assert_eq!(SubscribeOutcome::AlreadySubscribed.message(), "Already subscribed");
    assert_eq!(SubscribeOutcome::Added.message(), "Added subscription");
    assert_eq!(SubscribeOutcome::NewFeedAdded.message(), "Added new subscription");
    assert_eq!(
        SubscribeOutcome::NewFeedInvalid.message(),
        "Failed to fetch provided feed. Are you sure you typed it correctly?"
    );
    assert_eq!(UnsubscribeOutcome::NotFound.message(), "not found");
    assert_eq!(UnsubscribeOutcome::Removed.message(), "unsubscribed");
}

fn entry(link: &str, published: i64) -> FeedEntry {
    FeedEntry { link: link.to_string(), title: link.to_uppercase(), published }
}

#[test]
fn fetch_delivers_new_entries_to_each_channel() {
    let mut feeds = RssFeeds::new();
    feeds.subscribe_at(7, URL.to_string(), true, 100);
    feeds.subscribe_at(9, URL.to_string(), true, 100);
    let batch = vec![entry("a", 100), entry("b", 200), entry("c", 50), entry("d", 150)];
    let out = feeds.apply_fetch(&URL.to_string(), &batch);
    let got: Vec<(u64, String)> = out.iter().map(|d| (d.channel, d.entry.link.clone())).collect();
    assert_eq!(
        got,
        vec![(7, "b".to_string()), (7, "d".to_string()), (9, "b".to_string()), (9, "d".to_string())]
    );
    assert_eq!(out[0].entry.title, "B");
    assert_eq!(feeds.snapshot()[0].last_item_ts, 200);
    let again = feeds.apply_fetch(&URL.to_string(), &batch);
    assert!(again.is_empty());
    assert_eq!(feeds.snapshot()[0].last_item_ts, 200);
}

#[test]
fn fetch_of_removed_feed_changes_nothing() {
    let mut feeds = RssFeeds::new();
    feeds.subscribe_at(7, URL.to_string(), true, 100);
    let out = feeds.apply_fetch(&"https://gone".to_string(), &vec![entry("a", 500)]);
    assert!(out.is_empty());
    assert_eq!(feeds.snapshot()[0].last_item_ts, 100);
}

#[test]
fn poller_visits_each_feed_then_sleeps() {
    let mut feeds = RssFeeds::new();
    feeds.subscribe_at(7, "https://a".to_string(), true, 1);
    feeds.subscribe_at(7, "https://b".to_string(), true, 1);
    let mut state = PollState::Sleeping;
    let mut fetched: Vec<String> = vec![];
    loop {
        let (action, next) = next_poll(&feeds, state);
        state = next;
        match action {
            PollAction::Fetch { url } => fetched.push(url),
            PollAction::Sleep { secs } => {
                assert_eq!(secs, POLL_INTERVAL_SECS);
                assert_eq!(secs, 300);
                break;
            }
        }
    }
    assert_eq!(fetched, vec!["https://a".to_string(), "https://b".to_string()]);
    assert!(matches!(state, PollState::Sleeping));
    let (action, next) = next_poll(&feeds, state);
    assert!(matches!(action, PollAction::Fetch { ref url } if url == "https://a"));
    assert!(matches!(next, PollState::Polling { next: 1, .. }));
}

#[test]
fn poller_keeps_pass_when_feed_is_removed() {
    let mut feeds = RssFeeds::new();
    feeds.subscribe_at(7, "https://a".to_string(), true, 1);
    feeds.subscribe_at(7, "https://b".to_string(), true, 1);
    feeds.subscribe_at(7, "https://c".to_string(), true, 1);
    let (first, state) = next_poll(&feeds, PollState::Sleeping);
    assert!(matches!(first, PollAction::Fetch { ref url } if url == "https://a"));
    feeds.unsubscribe(7, "https://a".to_string());
    let (second, state) = next_poll(&feeds, state);
    assert!(matches!(second, PollAction::Fetch { ref url } if url == "https://b"));
    let (third, state) = next_poll(&feeds, state);
    assert!(matches!(third, PollAction::Fetch { ref url } if url == "https://c"));
    let (fourth, _) = next_poll(&feeds, state);
    assert!(matches!(fourth, PollAction::Sleep { .. }));
}

#[test]
fn poller_on_empty_store_sleeps() {
    let feeds = RssFeeds::new();
    let (action, next) = next_poll(&feeds, PollState::Sleeping);
    assert!(matches!(action, PollAction::Sleep { secs: 300 }));
    assert!(matches!(next, PollState::Sleeping));
}

#[test]
fn load_refuses_overlong_fraction() {
    let long = format!("[{{\"url\":\"u\",\"last_item_ts\":0.{},\"channels\":[1]}}]", "0".repeat(32768));
    assert_eq!(RssFeeds::load(&long).len(), 0);
    assert!(decode_feeds(&long).is_none());
    let ok = format!("[{{\"url\":\"u.{}\",\"last_item_ts\":3,\"channels\":[1]}}]", "1".repeat(32767));
    assert_eq!(RssFeeds::load(&ok).len(), 1);
}

#[test]
fn fraction_scan_limits() {
    assert!(check_fractions(b"1.5"));
    assert!(check_fractions(b""));
    let mut bytes = b"0.".to_vec();
    bytes.extend(std::iter::repeat(b'0').take(32767));
    assert!(check_fractions(&bytes));
    bytes.push(b'0');
    assert!(!check_fractions(&bytes));
    bytes.push(b'x');
    assert!(!check_fractions(&bytes));
}

#[test]
fn save_and_load_round_trip() {
    let mut feeds = RssFeeds::new();
    feeds.subscribe_at(7, "https://a".to_string(), true, 1700000000);
    feeds.subscribe_at(9, "https://a".to_string(), true, 0);
    feeds.subscribe_at(18446744073709551615, "https://b\"q".to_string(), true, -5);
    let text = feeds.store().expect("every watermark can be written");
    let loaded = RssFeeds::load(&text);
    let a = feeds.snapshot();
    let b = loaded.snapshot();
    assert_eq!(a.len(), b.len());
    for (x, y) in a.iter().zip(b.iter()) {
        assert_eq!(x.url, y.url);
        assert_eq!(x.last_item_ts, y.last_item_ts);
        assert_eq!(x.channels, y.channels);
    }
}

#[test]
fn restore_keeps_valid_records() {
    let recs = vec![FeedSubscription { url: "u".to_string(), last_item_ts: 3, channels: vec![1, 2] }];
    let feeds = RssFeeds::restore(Some(recs));
    assert_eq!(feeds.len(), 1);
    assert_eq!(channels_of(&feeds, "u"), Some(vec![1, 2]));
}

#[test]
fn load_of_bad_documents_is_empty() {
    assert_eq!(RssFeeds::load("").len(), 0);
    assert_eq!(RssFeeds::load("not json").len(), 0);
    assert_eq!(RssFeeds::load("{\"url\": 1}").len(), 0);
    assert_eq!(RssFeeds::load("[{\"url\":\"u\",\"last_item_ts\":\"x\",\"channels\":[1]}]").len(), 0);
    let dup = "[{\"url\":\"u\",\"last_item_ts\":1,\"channels\":[1]},{\"url\":\"u\",\"last_item_ts\":2,\"channels\":[2]}]";
    assert_eq!(RssFeeds::load(dup).len(), 0);
    let empty_channels = "[{\"url\":\"u\",\"last_item_ts\":1,\"channels\":[]}]";
    assert_eq!(RssFeeds::load(empty_channels).len(), 0);
    let ok = "[{\"url\":\"u\",\"last_item_ts\":1,\"channels\":[4,5]}]";
    let feeds = RssFeeds::load(ok);
    assert_eq!(channels_of(&feeds, "u"), Some(vec![4, 5]));
    assert_eq!(feeds.snapshot()[0].last_item_ts, 1);
}

#[test]
fn store_refuses_unwritable_watermark() {
    let mut feeds = RssFeeds::new();
    feeds.subscribe_at(7, "https://a".to_string(), true, i64::MIN);
    assert!(feeds.store().is_none());
    feeds.subscribe_at(7, "https://b".to_string(), true, 5);
    assert!(feeds.store().is_none());
    assert_eq!(feeds.unsubscribe(7, "https://a".to_string()), UnsubscribeOutcome::Removed);
    assert!(feeds.store().is_some());
}

#[test]
fn store_writes_expected_document() {
    let mut feeds = RssFeeds::new();
    feeds.subscribe_at(7, "https://a".to_string(), true, -3);
    feeds.subscribe_at(9, "https://a".to_string(), true, 0);
    let text = feeds.store().unwrap();
    assert_eq!(text, "[{\"url\":\"https://a\",\"last_item_ts\":-3,\"channels\":[7,9]}]");
    assert_eq!(RssFeeds::store(&RssFeeds::new()).unwrap(), "[]");
}

#[test]
fn load_checks_number_ranges() {
    let neg = "[{\"url\":\"u\",\"last_item_ts\":-9223372036854775807,\"channels\":[1]}]";
    assert_eq!(RssFeeds::load(neg).snapshot()[0].last_item_ts, -9223372036854775807);
    let min = "[{\"url\":\"u\",\"last_item_ts\":-9223372036854775808,\"channels\":[1]}]";
    assert_eq!(RssFeeds::load(min).len(), 0);
    let big = "[{\"url\":\"u\",\"last_item_ts\":18446744073709551615,\"channels\":[1]}]";
    assert_eq!(RssFeeds::load(big).len(), 0);
    let frac = "[{\"url\":\"u\",\"last_item_ts\":1.5,\"channels\":[1]}]";
    assert_eq!(RssFeeds::load(frac).len(), 0);
    let neg_channel = "[{\"url\":\"u\",\"last_item_ts\":1,\"channels\":[-1]}]";
    assert_eq!(RssFeeds::load(neg_channel).len(), 0);
    let text_channel = "[{\"url\":\"u\",\"last_item_ts\":1,\"channels\":[\"7\"]}]";
    assert_eq!(RssFeeds::load(text_channel).len(), 0);
    let top_max = "[{\"url\":\"u\",\"last_item_ts\":9223372036854775807,\"channels\":[18446744073709551615]}]";
    let feeds = RssFeeds::load(top_max);
    assert_eq!(feeds.snapshot()[0].last_item_ts, i64::MAX);
    assert_eq!(feeds.snapshot()[0].channels, vec![u64::MAX]);
}

#[test]
fn decode_reports_malformed_documents() {
    assert!(decode_feeds("").is_none());
    assert!(decode_feeds("{}").is_none());
    assert!(decode_feeds("[1]").is_none());
    let dup = "[{\"url\":\"u\",\"last_item_ts\":1,\"channels\":[1]},{\"url\":\"u\",\"last_item_ts\":2,\"channels\":[]}]";
    let recs = decode_feeds(dup).expect("well-typed records decode");
    assert_eq!(recs.len(), 2);
    assert_eq!(recs[1].last_item_ts, 2);
    assert!(recs[1].channels.is_empty());
}

#[test]
fn restore_keeps_each_channel_once() {
    let recs = vec![
        FeedSubscription { url: "u".to_string(), last_item_ts: 3, channels: vec![4, 5, 4, 5, 6] },
        FeedSubscription { url: "v".to_string(), last_item_ts: 1, channels: vec![8] },
    ];
    let feeds = RssFeeds::restore(Some(recs));
    assert_eq!(feeds.len(), 2);
    assert_eq!(channels_of(&feeds, "u"), Some(vec![4, 5, 6]));
    let text = "[{\"url\":\"u\",\"last_item_ts\":1,\"channels\":[2,2]}]";
    assert_eq!(channels_of(&RssFeeds::load(text), "u"), Some(vec![2]));
}
