//! The subscription store: one record per feed URL, with its watermark and
//! the channels that follow it.
use vstd::prelude::*;
use vstd::string::StringExecFns;
use crate::selector::{FeedEntry, new_entries, max_published, select_new_entries, watermark_after};

verus! {

/// One feed and its followers: the URL, the publish time of the latest entry
/// already delivered, and the channels that receive its new entries.
pub struct FeedSubscription {
    pub url: String,
    pub last_item_ts: i64,
    pub channels: Vec<u64>,
}

/// What a feed record is, as plain values.
pub struct FeedView {
    pub url: Seq<char>,
    pub last_item_ts: i64,
    pub channels: Seq<u64>,
}

impl View for FeedSubscription {
    type V = FeedView;

    open spec fn view(&self) -> FeedView {
        FeedView { url: self.url@, last_item_ts: self.last_item_ts, channels: self.channels@ }
    }
}

/// Outcome of subscribing a channel to a feed.
#[derive(PartialEq, Eq, Structural, Clone, Copy, Debug)]
pub enum SubscribeOutcome {
    AlreadySubscribed,
    Added,
    NewFeedInvalid,
    NewFeedAdded,
}

impl SubscribeOutcome {
    /// The reply shown to the channel that asked to subscribe.
    pub open spec fn text(self) -> Seq<char> {
        match self {
            SubscribeOutcome::AlreadySubscribed => "Already subscribed"@,
            SubscribeOutcome::Added => "Added subscription"@,
            SubscribeOutcome::NewFeedInvalid => "Failed to fetch provided feed. Are you sure you typed it correctly?"@,
            SubscribeOutcome::NewFeedAdded => "Added new subscription"@,
        }
    }

    /// The reply as a string.
    pub fn message(&self) -> (r: String)
        ensures
            r@ == self.text(),
    {
        match self {
            SubscribeOutcome::AlreadySubscribed => String::from_str("Already subscribed"),
            SubscribeOutcome::Added => String::from_str("Added subscription"),
            SubscribeOutcome::NewFeedInvalid => String::from_str(
                "Failed to fetch provided feed. Are you sure you typed it correctly?",
            ),
            SubscribeOutcome::NewFeedAdded => String::from_str("Added new subscription"),
        }
    }
}

/// Outcome of unsubscribing a channel from a feed.
#[derive(PartialEq, Eq, Structural, Clone, Copy, Debug)]
pub enum UnsubscribeOutcome {
    NotFound,
    Removed,
}

impl UnsubscribeOutcome {
    /// The reply shown to the channel that asked to unsubscribe.
    pub open spec fn text(self) -> Seq<char> {
        match self {
            UnsubscribeOutcome::NotFound => "not found"@,
            UnsubscribeOutcome::Removed => "unsubscribed"@,
        }
    }

    /// The reply as a string.
    pub fn message(&self) -> (r: String)
        ensures
            r@ == self.text(),
    {
        match self {
            UnsubscribeOutcome::NotFound => String::from_str("not found"),
            UnsubscribeOutcome::Removed => String::from_str("unsubscribed"),
        }
    }
}

/// No two records share a URL; each record has at least one channel and
/// lists no channel twice.
pub open spec fn feeds_wf(s: Seq<FeedView>) -> bool {
    &&& forall|i: int, j: int| 0 <= i < j < s.len() ==> s[i].url != s[j].url
    &&& forall|i: int| 0 <= i < s.len() ==> (#[trigger] s[i]).channels.len() > 0
    &&& forall|i: int| 0 <= i < s.len() ==> (#[trigger] s[i]).channels.no_duplicates()
}

/// Index of the record for `url`, or -1 when there is none.
pub open spec fn find_url(s: Seq<FeedView>, url: Seq<char>) -> int {
    if exists|i: int| 0 <= i < s.len() && s[i].url == url {
        choose|i: int| 0 <= i < s.len() && s[i].url == url
    } else {
        -1
    }
}

/// The channel list `c` with `ch` taken out, if it is there.
pub open spec fn without(c: Seq<u64>, ch: u64) -> Seq<u64> {
    if c.contains(ch) {
        c.remove(choose|k: int| 0 <= k < c.len() && c[k] == ch)
    } else {
        c
    }
}

/// The record set and outcome after `ch` subscribes to `url`; `fetched` says
/// whether a fetch of an unknown URL succeeded, and `now` is the time taken
/// as the watermark of a new record.
pub open spec fn subscribe_spec(
    s: Seq<FeedView>,
    ch: u64,
    url: Seq<char>,
    fetched: bool,
    now: i64,
) -> (Seq<FeedView>, SubscribeOutcome) {
    let i = find_url(s, url);
    if i >= 0 {
        if s[i].channels.contains(ch) {
            (s, SubscribeOutcome::AlreadySubscribed)
        } else {
            (
                s.update(i, FeedView { channels: s[i].channels.push(ch), ..s[i] }),
                SubscribeOutcome::Added,
            )
        }
    } else if !fetched {
        (s, SubscribeOutcome::NewFeedInvalid)
    } else {
        (
            s.push(FeedView { url, last_item_ts: now, channels: seq![ch] }),
            SubscribeOutcome::NewFeedAdded,
        )
    }
}

/// The record set and outcome after `ch` unsubscribes from `url`: a record
/// left without channels is deleted.
pub open spec fn unsubscribe_spec(s: Seq<FeedView>, ch: u64, url: Seq<char>) -> (
    Seq<FeedView>,
    UnsubscribeOutcome,
) {
    let i = find_url(s, url);
    if i < 0 {
        (s, UnsubscribeOutcome::NotFound)
    } else {
        let rest = without(s[i].channels, ch);
        if rest.len() == 0 {
            (s.remove(i), UnsubscribeOutcome::Removed)
        } else {
            (s.update(i, FeedView { channels: rest, ..s[i] }), UnsubscribeOutcome::Removed)
        }
    }
}

/// The URLs of the records that `ch` follows, in record order.
pub open spec fn urls_for(s: Seq<FeedView>, ch: u64) -> Seq<Seq<char>>
    decreases s.len(),
{
    if s.len() == 0 {
        seq![]
    } else if s.last().channels.contains(ch) {
        urls_for(s.drop_last(), ch).push(s.last().url)
    } else {
        urls_for(s.drop_last(), ch)
    }
}

/// The listing of `ch`'s feeds: one line `- <url>` per feed.
pub open spec fn subs_text(s: Seq<FeedView>, ch: u64) -> Seq<char>
    decreases s.len(),
{
    if s.len() == 0 {
        seq![]
    } else if s.last().channels.contains(ch) {
        subs_text(s.drop_last(), ch) + seq!['-', ' '] + s.last().url + seq!['\n']
    } else {
        subs_text(s.drop_last(), ch)
    }
}

proof fn lemma_find_url_unique(s: Seq<FeedView>, url: Seq<char>, i: int)
    requires
        feeds_wf(s),
        0 <= i < s.len(),
        s[i].url == url,
    ensures
        find_url(s, url) == i,
{
    let j = find_url(s, url);
    assert(0 <= j < s.len() && s[j].url == url);
    if j < i {
        assert(s[j].url != s[i].url);
    } else if i < j {
        assert(s[i].url != s[j].url);
    }
}

proof fn lemma_without_props(c: Seq<u64>, ch: u64, k: int)
    requires
        c.no_duplicates(),
        0 <= k < c.len(),
        c[k] == ch,
    ensures
        without(c, ch) == c.remove(k),
        without(c, ch).no_duplicates(),
{
    let j = choose|j: int| 0 <= j < c.len() && c[j] == ch;
    assert(j == k);
}

/// Subscribing keeps the record set well formed.
pub proof fn lemma_subscribe_wf(s: Seq<FeedView>, ch: u64, url: Seq<char>, fetched: bool, now: i64)
    requires
        feeds_wf(s),
    ensures
        feeds_wf(subscribe_spec(s, ch, url, fetched, now).0),
{
    let i = find_url(s, url);
    let t = subscribe_spec(s, ch, url, fetched, now).0;
    if i >= 0 {
        if !s[i].channels.contains(ch) {
            assert forall|k: int| 0 <= k < t.len() implies (#[trigger] t[k]).channels.no_duplicates() by {
                if k == i {
                    let c = s[i].channels.push(ch);
                    assert forall|a: int, b: int| 0 <= a < b < c.len() implies c[a] != c[b] by {
                        if b == c.len() - 1 {
                            assert(s[i].channels[a] == c[a]);
                        }
                    }
                }
            }
        }
    } else if fetched {
        assert forall|a: int, b: int| 0 <= a < b < t.len() implies t[a].url != t[b].url by {
            if b == t.len() - 1 {
                assert(s[a].url != url);
            }
        }
        assert(t[t.len() - 1].channels.no_duplicates());
    }
}

/// Unsubscribing keeps the record set well formed.
pub proof fn lemma_unsubscribe_wf(s: Seq<FeedView>, ch: u64, url: Seq<char>)
    requires
        feeds_wf(s),
    ensures
        feeds_wf(unsubscribe_spec(s, ch, url).0),
{
    let i = find_url(s, url);
    if i >= 0 {
        let c = s[i].channels;
        if c.contains(ch) {
            let k = choose|k: int| 0 <= k < c.len() && c[k] == ch;
            lemma_without_props(c, ch, k);
        }
        let t = unsubscribe_spec(s, ch, url).0;
        if without(c, ch).len() == 0 {
            assert forall|a: int, b: int| 0 <= a < b < t.len() implies t[a].url != t[b].url by {
                let a0 = if a < i { a } else { a + 1 };
                let b0 = if b < i { b } else { b + 1 };
                assert(t[a] == s[a0] && t[b] == s[b0]);
            }
            assert forall|a: int| 0 <= a < t.len() implies (#[trigger] t[a]).channels.len() > 0
                && t[a].channels.no_duplicates() by {
                let a0 = if a < i { a } else { a + 1 };
                assert(t[a] == s[a0]);
            }
        }
    }
}

/// Subscribing the same channel to the same URL a second time reports that
/// it is already subscribed and changes nothing, so the channel is listed
/// once.
pub proof fn lemma_subscribe_idempotent(
    s: Seq<FeedView>,
    ch: u64,
    url: Seq<char>,
    fetched: bool,
    now: i64,
    fetched2: bool,
    now2: i64,
)
    requires
        feeds_wf(s),
        subscribe_spec(s, ch, url, fetched, now).1 != SubscribeOutcome::NewFeedInvalid,
    ensures
        ({
            let s1 = subscribe_spec(s, ch, url, fetched, now).0;
            &&& subscribe_spec(s1, ch, url, fetched2, now2) == (s1, SubscribeOutcome::AlreadySubscribed)
            &&& feeds_wf(s1)
            &&& 0 <= find_url(s1, url) < s1.len()
            &&& s1[find_url(s1, url)].channels.contains(ch)
            &&& s1[find_url(s1, url)].channels.no_duplicates()
        }),
{
    lemma_subscribe_wf(s, ch, url, fetched, now);
    let s1 = subscribe_spec(s, ch, url, fetched, now).0;
    let i = find_url(s, url);
    if i >= 0 {
        lemma_find_url_unique(s1, url, i);
        if !s[i].channels.contains(ch) {
            assert(s1[i].channels[s1[i].channels.len() - 1] == ch);
        }
    } else {
        lemma_find_url_unique(s1, url, s.len() as int);
        assert(s1[s.len() as int].channels[0] == ch);
    }
}

/// Unsubscribing the only channel of a feed deletes its record, and a
/// further unsubscribe from that URL finds nothing.
pub proof fn lemma_unsubscribe_last_removes(s: Seq<FeedView>, ch: u64, url: Seq<char>)
    requires
        feeds_wf(s),
        find_url(s, url) >= 0,
        s[find_url(s, url)].channels == seq![ch],
    ensures
        ({
            let s1 = unsubscribe_spec(s, ch, url);
            &&& s1.1 == UnsubscribeOutcome::Removed
            &&& s1.0 == s.remove(find_url(s, url))
            &&& find_url(s1.0, url) == -1
            &&& unsubscribe_spec(s1.0, ch, url) == (s1.0, UnsubscribeOutcome::NotFound)
        }),
{
    let i = find_url(s, url);
    let c = s[i].channels;
    assert(c[0] == ch);
    lemma_without_props(c, ch, 0);
    assert(without(c, ch).len() == 0);
    let t = s.remove(i);
    if exists|j: int| 0 <= j < t.len() && t[j].url == url {
        let j = choose|j: int| 0 <= j < t.len() && t[j].url == url;
        let j0 = if j < i { j } else { j + 1 };
        assert(t[j] == s[j0]);
    }
}

/// A new entry to be sent to one channel.
pub struct Delivery {
    pub channel: u64,
    pub entry: FeedEntry,
}

/// Every entry of `es` for every channel of `chs`: channel by channel, and
/// within a channel in entry order.
pub open spec fn fan_out(chs: Seq<u64>, es: Seq<FeedEntry>) -> Seq<Delivery>
    decreases chs.len(),
{
    if chs.len() == 0 {
        seq![]
    } else {
        fan_out(chs.drop_last(), es) + es.map_values(|e: FeedEntry| Delivery { channel: chs.last(), entry: e })
    }
}

/// The record set and the deliveries after a successful fetch of `url`
/// returned `es`: the record's watermark advances to the latest publish time
/// seen, and each entry newer than the old watermark goes to each of its
/// channels. A URL without a record (deleted while it was fetched) changes
/// nothing.
pub open spec fn poll_spec(s: Seq<FeedView>, url: Seq<char>, es: Seq<FeedEntry>) -> (
    Seq<FeedView>,
    Seq<Delivery>,
) {
    let i = find_url(s, url);
    if i < 0 {
        (s, seq![])
    } else {
        (
            s.update(i, FeedView { last_item_ts: max_published(s[i].last_item_ts, es), ..s[i] }),
            fan_out(s[i].channels, new_entries(s[i].last_item_ts, es)),
        )
    }
}

fn fan_out_entries(channels: &Vec<u64>, fresh: &Vec<FeedEntry>) -> (r: Vec<Delivery>)
    ensures
        r@ == fan_out(channels@, fresh@),
{
    let mut out: Vec<Delivery> = Vec::new();
    let mut c: usize = 0;
    while c < channels.len()
        invariant
            c <= channels@.len(),
            out@ == fan_out(channels@.take(c as int), fresh@),
        decreases channels@.len() - c,
    {
        let ch = channels[c];
        let ghost base = out@;
        let mut k: usize = 0;
        while k < fresh.len()
            invariant
                k <= fresh@.len(),
                out@ == base + fresh@.take(k as int).map_values(|e: FeedEntry| Delivery { channel: ch, entry: e }),
            decreases fresh@.len() - k,
        {
            out.push(Delivery { channel: ch, entry: fresh[k].copy_entry() });
            assert(fresh@.take(k + 1).map_values(|e: FeedEntry| Delivery { channel: ch, entry: e }) =~= fresh@.take(
                k as int,
            ).map_values(|e: FeedEntry| Delivery { channel: ch, entry: e }).push(Delivery { channel: ch, entry: fresh@[k as int] }));
            k = k + 1;
        }
        proof {
            assert(fresh@.take(fresh@.len() as int) == fresh@);
            assert(channels@.take(c + 1).drop_last() == channels@.take(c as int));
            assert(channels@.take(c + 1).last() == ch);
        }
        c = c + 1;
    }
    assert(channels@.take(channels@.len() as int) == channels@);
    out
}

/// The record set: one record per feed URL, in the order the feeds were
/// first subscribed.
pub struct RssFeeds {
    feeds: Vec<FeedSubscription>,
}

impl View for RssFeeds {
    type V = Seq<FeedView>;

    closed spec fn view(&self) -> Seq<FeedView> {
        self.feeds@.map_values(|f: FeedSubscription| f@)
    }
}

fn find_channel(channels: &Vec<u64>, ch: u64) -> (r: Option<usize>)
    ensures
        match r {
            Some(k) => k < channels@.len() && channels@[k as int] == ch,
            None => !channels@.contains(ch),
        },
{
    let mut k: usize = 0;
    while k < channels.len()
        invariant
            k <= channels@.len(),
            forall|j: int| 0 <= j < k ==> channels@[j] != ch,
        decreases channels@.len() - k,
    {
        if channels[k] == ch {
            return Some(k);
        }
        k = k + 1;
    }
    None
}

impl RssFeeds {
    /// The records are well formed.
    pub open spec fn wf(&self) -> bool {
        feeds_wf(self@)
    }

    /// An empty record set.
    pub fn new() -> (r: RssFeeds)
        ensures
            r@ == Seq::<FeedView>::empty(),
            r.wf(),
    {
        let r = RssFeeds { feeds: Vec::new() };
        assert(r@ =~= Seq::<FeedView>::empty());
        r
    }

    /// Number of feed records.
    pub fn len(&self) -> (r: usize)
        ensures
            r == self@.len(),
    {
        self.feeds.len()
    }

    /// Index of the record for `url`, if there is one.
    pub fn find_feed(&self, url: &String) -> (r: Option<usize>)
        requires
            self.wf(),
        ensures
            match r {
                Some(i) => i == find_url(self@, url@) && i < self@.len(),
                None => find_url(self@, url@) == -1,
            },
    {
        let mut i: usize = 0;
        while i < self.feeds.len()
            invariant
                self.wf(),
                i <= self@.len(),
                self@.len() == self.feeds@.len(),
                forall|j: int| 0 <= j < i ==> self@[j].url != url@,
            decreases self@.len() - i,
        {
            assert(self@[i as int] == self.feeds@[i as int]@);
            if self.feeds[i].url == *url {
                proof {
                    lemma_find_url_unique(self@, url@, i as int);
                }
                return Some(i);
            }
            i = i + 1;
        }
        None
    }

    /// Whether `url` has a record: when it does not, subscribing needs a
    /// fetch of the feed first.
    pub fn has_feed(&self, url: &String) -> (r: bool)
        requires
            self.wf(),
        ensures
            r == (find_url(self@, url@) >= 0),
    {
        self.find_feed(url).is_some()
    }

    /// Subscribes `channel_id` to `feed_url`. A known URL gains the channel
    /// unless it already has it. An unknown URL becomes a new record with
    /// watermark `now` only when `fetched` says a fetch of it succeeded.
    pub fn subscribe_at(&mut self, channel_id: u64, feed_url: String, fetched: bool, now: i64) -> (r:
        SubscribeOutcome)
        requires
            old(self).wf(),
        ensures
            final(self).wf(),
            (final(self)@, r) == subscribe_spec(old(self)@, channel_id, feed_url@, fetched, now),
    {
        proof {
            lemma_subscribe_wf(self@, channel_id, feed_url@, fetched, now);
        }
        match self.find_feed(&feed_url) {
            Some(i) => {
                match find_channel(&self.feeds[i].channels, channel_id) {
                    Some(k) => {
                        assert(self@[i as int].channels[k as int] == channel_id);
                        SubscribeOutcome::AlreadySubscribed
                    },
                    None => {
                        self.feeds[i].channels.push(channel_id);
                        assert(self@ =~= subscribe_spec(old(self)@, channel_id, feed_url@, fetched, now).0);
                        SubscribeOutcome::Added
                    },
                }
            },
            None => {
                if !fetched {
                    SubscribeOutcome::NewFeedInvalid
                } else {
                    let mut channels: Vec<u64> = Vec::new();
                    channels.push(channel_id);
                    self.feeds.push(FeedSubscription { url: feed_url, last_item_ts: now, channels });
                    assert(self@ =~= subscribe_spec(old(self)@, channel_id, feed_url@, fetched, now).0);
                    SubscribeOutcome::NewFeedAdded
                }
            },
        }
    }

    /// Unsubscribes `channel_id` from `feed_url`; the record is deleted when
    /// no channel is left.
    pub fn unsubscribe(&mut self, channel_id: u64, feed_url: String) -> (r: UnsubscribeOutcome)
        requires
            old(self).wf(),
        ensures
            final(self).wf(),
            (final(self)@, r) == unsubscribe_spec(old(self)@, channel_id, feed_url@),
    {
        proof {
            lemma_unsubscribe_wf(self@, channel_id, feed_url@);
        }
        match self.find_feed(&feed_url) {
            None => UnsubscribeOutcome::NotFound,
            Some(i) => {
                match find_channel(&self.feeds[i].channels, channel_id) {
                    None => {
                        assert(without(self@[i as int].channels, channel_id) == self@[i as int].channels);
                        assert(self@ =~= unsubscribe_spec(old(self)@, channel_id, feed_url@).0);
                    },
                    Some(k) => {
                        proof {
                            lemma_without_props(self@[i as int].channels, channel_id, k as int);
                        }
                        if self.feeds[i].channels.len() == 1 {
                            self.feeds.remove(i);
                            assert(self@ =~= unsubscribe_spec(old(self)@, channel_id, feed_url@).0);
                        } else {
                            self.feeds[i].channels.remove(k);
                            assert(self@ =~= unsubscribe_spec(old(self)@, channel_id, feed_url@).0);
                        }
                    },
                }
                UnsubscribeOutcome::Removed
            },
        }
    }

    /// The feeds that `channel_id` follows, one line `- <url>` each, in
    /// record order; empty when it follows none.
    pub fn channel_subs(&self, channel_id: u64) -> (r: String)
        ensures
            r@ == subs_text(self@, channel_id),
    {
        let mut ret = String::new();
        let mut i: usize = 0;
        while i < self.feeds.len()
            invariant
                i <= self@.len(),
                self@.len() == self.feeds@.len(),
                ret@ == subs_text(self@.take(i as int), channel_id),
            decreases self@.len() - i,
        {
            proof {
                assert(self@.take(i + 1).drop_last() == self@.take(i as int));
                assert(self@[i as int] == self.feeds@[i as int]@);
                reveal_strlit("- ");
                reveal_strlit("\n");
            }
            let f = &self.feeds[i];
            match find_channel(&f.channels, channel_id) {
                Some(k) => {
                    assert(self@[i as int].channels[k as int] == channel_id);
                    ret.append("- ");
                    ret.append(f.url.as_str());
                    ret.append("\n");
                },
                None => {},
            }
            i = i + 1;
        }
        assert(self@.take(self@.len() as int) == self@);
        ret
    }

    /// The URLs that `channel_id` follows, in record order.
    pub fn channel_urls(&self, channel_id: u64) -> (r: Vec<String>)
        ensures
            r@.map_values(|u: String| u@) == urls_for(self@, channel_id),
    {
        let mut ret: Vec<String> = Vec::new();
        let mut i: usize = 0;
        while i < self.feeds.len()
            invariant
                i <= self@.len(),
                self@.len() == self.feeds@.len(),
                ret@.map_values(|u: String| u@) == urls_for(self@.take(i as int), channel_id),
            decreases self@.len() - i,
        {
            proof {
                assert(self@.take(i + 1).drop_last() == self@.take(i as int));
                assert(self@[i as int] == self.feeds@[i as int]@);
            }
            let f = &self.feeds[i];
            match find_channel(&f.channels, channel_id) {
                Some(k) => {
                    assert(self@[i as int].channels[k as int] == channel_id);
                    let ghost before = ret@;
                    ret.push(f.url.clone());
                    assert(ret@.map_values(|u: String| u@) =~= before.map_values(|u: String| u@).push(
                        f.url@,
                    ));
                },
                None => {},
            }
            i = i + 1;
        }
        assert(self@.take(self@.len() as int) == self@);
        ret
    }

    /// Applies a successful fetch of `url` that returned `entries`: advances
    /// the record's watermark and returns the deliveries of its new entries.
    pub fn apply_fetch(&mut self, url: &String, entries: &Vec<FeedEntry>) -> (r: Vec<Delivery>)
        requires
            old(self).wf(),
        ensures
            final(self).wf(),
            (final(self)@, r@) == poll_spec(old(self)@, url@, entries@),
    {
        match self.find_feed(url) {
            None => Vec::new(),
            Some(i) => {
                let (fresh, watermark) = select_new_entries(self.feeds[i].last_item_ts, entries);
                let out = fan_out_entries(&self.feeds[i].channels, &fresh);
                self.feeds[i].last_item_ts = watermark;
                assert(self@ =~= poll_spec(old(self)@, url@, entries@).0);
                out
            },
        }
    }

    /// Subscribes `channel_id` to `feed_url`, stamping a new record with the
    /// current time; `fetched` says whether a fetch of an unknown URL
    /// succeeded.
    pub fn subscribe(&mut self, channel_id: u64, feed_url: String, fetched: bool) -> (r:
        SubscribeOutcome)
        requires
            old(self).wf(),
        ensures
            final(self).wf(),
            exists|now: i64|
                (final(self)@, r) == subscribe_spec(old(self)@, channel_id, feed_url@, fetched, now),
    {
        let now = now_timestamp();
        self.subscribe_at(channel_id, feed_url, fetched, now)
    }

    /// A copy of every record, in order, for saving.
    pub fn snapshot(&self) -> (r: Vec<FeedSubscription>)
        ensures
            r@.map_values(|f: FeedSubscription| f@) == self@,
    {
        let mut out: Vec<FeedSubscription> = Vec::new();
        let mut i: usize = 0;
        while i < self.feeds.len()
            invariant
                i <= self@.len(),
                self@.len() == self.feeds@.len(),
                out@.len() == i,
                out@.map_values(|f: FeedSubscription| f@) == self@.take(i as int),
            decreases self@.len() - i,
        {
            let f = &self.feeds[i];
            let copy = FeedSubscription {
                url: f.url.clone(),
                last_item_ts: f.last_item_ts,
                channels: copy_channels(&f.channels),
            };
            assert(self@[i as int] == self.feeds@[i as int]@);
            assert(copy@ == self@[i as int]);
            let ghost before = out@;
            out.push(copy);
            assert forall|k: int| 0 <= k < i + 1 implies out@.map_values(
                |f: FeedSubscription| f@,
            )[k] == #[trigger] self@.take(i + 1)[k] by {
                if k < i {
                    assert(out@[k] == before[k]);
                    assert(before.map_values(|f: FeedSubscription| f@)[k] == self@.take(i as int)[k]);
                }
            }
            assert(out@.map_values(|f: FeedSubscription| f@) =~= self@.take(i + 1));
            i = i + 1;
        }
        assert(self@.take(self@.len() as int) == self@);
        out
    }

    /// Restores a record set from saved records, or from nothing when they
    /// could not be read. A channel listed twice in a record is kept once;
    /// saved records that still break the record invariants (a URL twice, a
    /// record without channels) are refused as a whole, leaving no records.
    pub fn restore(saved: Option<Vec<FeedSubscription>>) -> (r: RssFeeds)
        ensures
            r.wf(),
            r@ == restore_spec(
                match saved {
                    Some(v) => Some(v@.map_values(|f: FeedSubscription| f@)),
                    None => None,
                },
            ),
    {
        match saved {
            None => RssFeeds::new(),
            Some(records) => {
                let ghost sv = records@.map_values(|f: FeedSubscription| f@);
                let mut cleaned: Vec<FeedSubscription> = Vec::new();
                let mut i: usize = 0;
                while i < records.len()
                    invariant
                        sv == records@.map_values(|f: FeedSubscription| f@),
                        i <= records@.len(),
                        cleaned@.len() == i,
                        forall|j: int| 0 <= j < i ==> (#[trigger] cleaned@[j])@ == dedup_channels(sv)[j],
                    decreases records@.len() - i,
                {
                    let f = &records[i];
                    cleaned.push(
                        FeedSubscription {
                            url: f.url.clone(),
                            last_item_ts: f.last_item_ts,
                            channels: dedup_vec(&f.channels),
                        },
                    );
                    i = i + 1;
                }
                let candidate = RssFeeds { feeds: cleaned };
                assert(candidate@ =~= dedup_channels(sv));
                if candidate.check_wf() {
                    candidate
                } else {
                    RssFeeds::new()
                }
            },
        }
    }

    fn check_wf(&self) -> (r: bool)
        ensures
            r == self.wf(),
    {
        let n = self.feeds.len();
        let mut i: usize = 0;
        while i < n
            invariant
                n == self@.len(),
                self@.len() == self.feeds@.len(),
                i <= n,
                forall|a: int, b: int| 0 <= a < b < n && a < i ==> self@[a].url != self@[b].url,
                forall|a: int| 0 <= a < i ==> (#[trigger] self@[a]).channels.len() > 0,
                forall|a: int| 0 <= a < i ==> (#[trigger] self@[a]).channels.no_duplicates(),
            decreases n - i,
        {
            assert(self@[i as int] == self.feeds@[i as int]@);
            let f = &self.feeds[i];
            if f.channels.len() == 0 {
                return false;
            }
            let mut j: usize = i + 1;
            while j < n
                invariant
                    n == self@.len(),
                    self@.len() == self.feeds@.len(),
                    i < j <= n,
                    f == &self.feeds@[i as int],
                    self@[i as int].url == f.url@,
                    forall|b: int| i < b < j ==> self@[i as int].url != self@[b].url,
                decreases n - j,
            {
                assert(self@[j as int] == self.feeds@[j as int]@);
                if self.feeds[j].url == f.url {
                    assert(self@[i as int].url == self@[j as int].url);
                    return false;
                }
                j = j + 1;
            }
            let c = &f.channels;
            let mut a: usize = 0;
            while a < c.len()
                invariant
                    a <= c@.len(),
                    c@ == self@[i as int].channels,
                    i < n,
                    n == self@.len(),
                    forall|x: int, y: int| 0 <= x < y < c@.len() && x < a ==> c@[x] != c@[y],
                decreases c@.len() - a,
            {
                let mut b: usize = a + 1;
                while b < c.len()
                    invariant
                        a < b <= c@.len(),
                        c@ == self@[i as int].channels,
                        i < n,
                        n == self@.len(),
                        forall|y: int| a < y < b ==> c@[a as int] != c@[y],
                    decreases c@.len() - b,
                {
                    if c[a] == c[b] {
                        assert(!self@[i as int].channels.no_duplicates());
                        return false;
                    }
                    b = b + 1;
                }
                a = a + 1;
            }
            i = i + 1;
        }
        true
    }

    /// The URL of record `i`.
    pub fn feed_url(&self, i: usize) -> (r: String)
        requires
            i < self@.len(),
        ensures
            r@ == self@[i as int].url,
    {
        assert(self@[i as int] == self.feeds@[i as int]@);
        self.feeds[i].url.clone()
    }

    /// The reply to a channel asking for its subscriptions: the listing of
    /// [`RssFeeds::channel_subs`], or `None` when it follows no feed.
    pub fn subscriptions_reply(&self, channel_id: u64) -> (r: String)
        ensures
            subs_text(self@, channel_id).len() == 0 ==> r@ == "None"@,
            subs_text(self@, channel_id).len() > 0 ==> r@ == subs_text(self@, channel_id),
    {
        let subs = self.channel_subs(channel_id);
        if subs.as_str().is_empty() {
            String::from_str("None")
        } else {
            subs
        }
    }
}

/// The channel list `c` with each channel kept at its first place only.
pub open spec fn dedup(c: Seq<u64>) -> Seq<u64>
    decreases c.len(),
{
    if c.len() == 0 {
        seq![]
    } else {
        let d = dedup(c.drop_last());
        if d.contains(c.last()) {
            d
        } else {
            d.push(c.last())
        }
    }
}

/// The records with repeated channel ids removed from each channel list.
pub open spec fn dedup_channels(s: Seq<FeedView>) -> Seq<FeedView> {
    s.map_values(|f: FeedView| FeedView { channels: dedup(f.channels), ..f })
}

/// A channel list without repeats is its own deduplication.
pub proof fn lemma_dedup_no_duplicates(c: Seq<u64>)
    requires
        c.no_duplicates(),
    ensures
        dedup(c) == c,
    decreases c.len(),
{
    if c.len() > 0 {
        let d = c.drop_last();
        assert(d.no_duplicates());
        lemma_dedup_no_duplicates(d);
        if d.contains(c.last()) {
            let k = choose|k: int| 0 <= k < d.len() && d[k] == c.last();
            assert(c[k] == c[c.len() - 1]);
        }
        assert(d.push(c.last()) =~= c);
    }
}

fn dedup_vec(c: &Vec<u64>) -> (r: Vec<u64>)
    ensures
        r@ == dedup(c@),
{
    let mut out: Vec<u64> = Vec::new();
    let mut i: usize = 0;
    while i < c.len()
        invariant
            i <= c@.len(),
            out@ == dedup(c@.take(i as int)),
        decreases c@.len() - i,
    {
        proof {
            assert(c@.take(i + 1).drop_last() == c@.take(i as int));
            assert(c@.take(i + 1).last() == c@[i as int]);
        }
        match find_channel(&out, c[i]) {
            Some(k) => {
                assert(out@[k as int] == c@[i as int]);
            },
            None => {
                out.push(c[i]);
            },
        }
        i = i + 1;
    }
    assert(c@.take(c@.len() as int) == c@);
    out
}

/// The records restored from a saved set: the set itself when it is well
/// formed, and no records otherwise (including when nothing could be read).
pub open spec fn restore_spec(saved: Option<Seq<FeedView>>) -> Seq<FeedView> {
    match saved {
        Some(s) => if feeds_wf(dedup_channels(s)) {
            dedup_channels(s)
        } else {
            seq![]
        },
        None => seq![],
    }
}

/// Relies on chrono::Utc::now: the current time as whole seconds since the
/// epoch. Nothing is known of the value.
#[verifier::external_body]
fn now_timestamp() -> (r: i64) {
    chrono::Utc::now().timestamp()
}

fn copy_channels(c: &Vec<u64>) -> (r: Vec<u64>)
    ensures
        r@ == c@,
{
    let mut out: Vec<u64> = Vec::new();
    let mut k: usize = 0;
    while k < c.len()
        invariant
            k <= c@.len(),
            out@ == c@.take(k as int),
        decreases c@.len() - k,
    {
        out.push(c[k]);
        assert(c@.take(k + 1) == c@.take(k as int).push(c@[k as int]));
        k = k + 1;
    }
    assert(c@.take(c@.len() as int) == c@);
    out

}

/// The record set after successful fetches of `url` returned the batches of
/// `passes` in turn.
pub open spec fn after_passes(s: Seq<FeedView>, url: Seq<char>, passes: Seq<Seq<FeedEntry>>) -> Seq<
    FeedView,
>
    decreases passes.len(),
{
    if passes.len() == 0 {
        s
    } else {
        poll_spec(after_passes(s, url, passes.drop_last()), url, passes.last()).0
    }
}

/// Over consecutive successful polls of a feed, its record stays in place and
/// its watermark is the watermark that the fetched batches lead to from the
/// starting one (the greatest publish time seen, or the starting watermark).
pub proof fn lemma_polls_advance_watermark(
    s: Seq<FeedView>,
    url: Seq<char>,
    passes: Seq<Seq<FeedEntry>>,
)
    requires
        feeds_wf(s),
        find_url(s, url) >= 0,
    ensures
        ({
            let i = find_url(s, url);
            let t = after_passes(s, url, passes);
            &&& feeds_wf(t)
            &&& t.len() == s.len()
            &&& find_url(t, url) == i
            &&& t[i].url == s[i].url
            &&& t[i].channels == s[i].channels
            &&& t[i].last_item_ts == watermark_after(s[i].last_item_ts, passes)
        }),
    decreases passes.len(),
{
    let i = find_url(s, url);
    if passes.len() > 0 {
        lemma_polls_advance_watermark(s, url, passes.drop_last());
        let p = after_passes(s, url, passes.drop_last());
        let t = poll_spec(p, url, passes.last()).0;
        assert(p[i].url == url);
        assert forall|a: int, b: int| 0 <= a < b < t.len() implies t[a].url != t[b].url by {
            assert(t[a].url == p[a].url && t[b].url == p[b].url);
        }
        assert forall|a: int| 0 <= a < t.len() implies (#[trigger] t[a]).channels.len() > 0
            && t[a].channels.no_duplicates() by {
            assert(t[a].channels == p[a].channels);
        }
        lemma_find_url_unique(t, url, i);
    } else {
        assert(s[i].url == url);
    }
}

} // verus!
