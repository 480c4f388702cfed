//! The background poller's decisions: which feed to fetch next, and when to
//! sleep between passes. The caller performs each action (a fetch, applied
//! with [`RssFeeds::apply_fetch`], or a sleep) and asks again.
use vstd::prelude::*;
use crate::store::{RssFeeds, FeedView};

verus! {

/// Seconds the poller sleeps between two passes over the feeds.
pub const POLL_INTERVAL_SECS: u64 = 300;

/// Where the poller stands: in a pass, with the URLs taken when the pass
/// began and the index of the next one to fetch, or asleep between passes.
/// A feed deleted during a pass costs one wasted fetch; one added during a
/// pass is polled from the next pass on.
pub enum PollState {
    Polling { urls: Vec<String>, next: usize },
    Sleeping,
}

/// What the poller asks its caller to do next.
pub enum PollAction {
    Fetch { url: String },
    Sleep { secs: u64 },
}

/// The URLs of the records, in record order.
pub open spec fn record_urls(s: Seq<FeedView>) -> Seq<Seq<char>> {
    s.map_values(|f: FeedView| f.url)
}

/// The URLs of the pass a step belongs to and the position in it: a sleeping
/// poller starts a new pass over the current records.
pub open spec fn pass_of(s: Seq<FeedView>, state: PollState) -> (Seq<Seq<char>>, int) {
    match state {
        PollState::Polling { urls, next } => (urls@.map_values(|u: String| u@), next as int),
        PollState::Sleeping => (record_urls(s), 0),
    }
}

/// The URL an action fetches, if it is a fetch.
pub open spec fn fetched_url(a: PollAction) -> Option<Seq<char>> {
    match a {
        PollAction::Fetch { url } => Some(url@),
        PollAction::Sleep { .. } => None,
    }
}

/// The pass and position a state holds, if it is in a pass.
pub open spec fn state_pass(state: PollState) -> Option<(Seq<Seq<char>>, int)> {
    match state {
        PollState::Polling { urls, next } => Some((urls@.map_values(|u: String| u@), next as int)),
        PollState::Sleeping => None,
    }
}

/// What a step from `state` does over the records `s`: the URL to fetch and
/// the pass moved one past it, or, when the pass is over, no URL and sleep.
pub open spec fn step_spec(s: Seq<FeedView>, state: PollState) -> (Option<Seq<char>>, Option<
    (Seq<Seq<char>>, int),
>) {
    let (us, p) = pass_of(s, state);
    if 0 <= p < us.len() {
        (Some(us[p]), Some((us, p + 1)))
    } else {
        (None, None)
    }
}

fn record_url_list(feeds: &RssFeeds) -> (r: Vec<String>)
    ensures
        r@.map_values(|u: String| u@) == record_urls(feeds@),
{
    let mut out: Vec<String> = Vec::new();
    let mut i: usize = 0;
    while i < feeds.len()
        invariant
            i <= feeds@.len(),
            out@.len() == i,
            forall|j: int| 0 <= j < i ==> (#[trigger] out@[j])@ == feeds@[j].url,
        decreases feeds@.len() - i,
    {
        out.push(feeds.feed_url(i));
        i = i + 1;
    }
    assert(out@.map_values(|u: String| u@) =~= record_urls(feeds@));
    out
}

/// The next step of the poller: fetch the next URL of the current pass, or,
/// once every URL of the pass has been visited, sleep for the poll interval.
/// A new pass takes the URLs of the records as they are when it begins.
pub fn next_poll(feeds: &RssFeeds, state: PollState) -> (r: (PollAction, PollState))
    ensures
        (fetched_url(r.0), state_pass(r.1)) == step_spec(feeds@, state),
        (r.0 matches PollAction::Sleep { secs } ==> secs == POLL_INTERVAL_SECS),
{
    let ghost (us, p) = pass_of(feeds@, state);
    let (urls, next) = match state {
        PollState::Polling { urls, next } => (urls, next),
        PollState::Sleeping => (record_url_list(feeds), 0),
    };
    assert(urls@.map_values(|u: String| u@) == us && next == p);
    if next < urls.len() {
        let url = urls[next].clone();
        (PollAction::Fetch { url }, PollState::Polling { urls, next: next + 1 })
    } else {
        (PollAction::Sleep { secs: POLL_INTERVAL_SECS }, PollState::Sleeping)
    }
}

} // verus!
