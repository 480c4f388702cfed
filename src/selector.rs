//! Decides which fetched entries are new relative to a feed's watermark.
use vstd::prelude::*;

verus! {

/// One usable entry of a fetched feed: a link, a title (possibly empty) and
/// the publish time in seconds since the epoch.
pub struct FeedEntry {
    pub link: String,
    pub title: String,
    pub published: i64,
}

impl FeedEntry {
    /// A field-by-field copy of the entry.
    pub fn copy_entry(&self) -> (r: FeedEntry)
        ensures
            r == *self,
    {
        FeedEntry { link: self.link.clone(), title: self.title.clone(), published: self.published }
    }
}

/// The entries of `s` published strictly after `watermark`, in fetch order.
pub open spec fn new_entries(watermark: i64, s: Seq<FeedEntry>) -> Seq<FeedEntry>
    decreases s.len(),
{
    if s.len() == 0 {
        seq![]
    } else {
        let rest = new_entries(watermark, s.drop_last());
        if s.last().published > watermark {
            rest.push(s.last())
        } else {
            rest
        }
    }
}

/// The greater of `watermark` and every publish time in `s`.
pub open spec fn max_published(watermark: i64, s: Seq<FeedEntry>) -> i64
    decreases s.len(),
{
    if s.len() == 0 {
        watermark
    } else {
        let m = max_published(watermark, s.drop_last());
        if s.last().published > m {
            s.last().published
        } else {
            m
        }
    }
}

/// One entry as the feed parser hands it over: the first link, the title
/// (empty when the entry has none) and the publish time, where present.
pub struct RawEntry {
    pub link: Option<String>,
    pub title: String,
    pub published: Option<i64>,
}

/// A raw entry is usable when it has a link and a publish time after the epoch.
pub open spec fn is_usable(e: RawEntry) -> bool {
    &&& e.link is Some
    &&& e.published is Some
    &&& e.published->0 > 0
}

/// The usable entries of a parsed feed, in feed order; the others are dropped.
pub open spec fn usable(raw: Seq<RawEntry>) -> Seq<FeedEntry>
    decreases raw.len(),
{
    if raw.len() == 0 {
        seq![]
    } else {
        let rest = usable(raw.drop_last());
        let e = raw.last();
        if is_usable(e) {
            rest.push(FeedEntry { link: e.link->0, title: e.title, published: e.published->0 })
        } else {
            rest
        }
    }
}

/// Keeps the entries that have a link and a valid publish time, dropping the
/// others one by one rather than the whole batch.
pub fn usable_entries(raw: &Vec<RawEntry>) -> (r: Vec<FeedEntry>)
    ensures
        r@ == usable(raw@),
{
    let mut out: Vec<FeedEntry> = Vec::new();
    let n = raw.len();
    let mut i: usize = 0;
    while i < n
        invariant
            n == raw@.len(),
            i <= n,
            out@ == usable(raw@.take(i as int)),
        decreases n - i,
    {
        proof {
            assert(raw@.take(i + 1).drop_last() == raw@.take(i as int));
        }
        let e = &raw[i];
        match (&e.link, e.published) {
            (Some(link), Some(ts)) => {
                if ts > 0 {
                    out.push(FeedEntry { link: link.clone(), title: e.title.clone(), published: ts });
                }
            },
            _ => {},
        }
        i = i + 1;
    }
    proof {
        assert(raw@.take(n as int) == raw@);
    }
    out
}

/// Splits a fetched batch into the entries that are new and the advanced
/// watermark: new entries are those published strictly after `watermark`,
/// and the watermark moves to the latest publish time seen, never backward.
pub fn select_new_entries(watermark: i64, entries: &Vec<FeedEntry>) -> (r: (Vec<FeedEntry>, i64))
    ensures
        r.0@ == new_entries(watermark, entries@),
        r.1 == max_published(watermark, entries@),
{
    let mut fresh: Vec<FeedEntry> = Vec::new();
    let mut max_ts: i64 = watermark;
    let n = entries.len();
    let mut i: usize = 0;
    while i < n
        invariant
            n == entries@.len(),
            i <= n,
            fresh@ == new_entries(watermark, entries@.take(i as int)),
            max_ts == max_published(watermark, entries@.take(i as int)),
        decreases n - i,
    {
        let e = &entries[i];
        proof {
            assert(entries@.take(i + 1).drop_last() == entries@.take(i as int));
        }
        if e.published > max_ts {
            max_ts = e.published;
        }
        if e.published > watermark {
            fresh.push(e.copy_entry());
        }
        i = i + 1;
    }
    proof {
        assert(entries@.take(n as int) == entries@);
    }
    (fresh, max_ts)
}

/// The watermark after polling passes that fetched `passes[0]`, `passes[1]`, ...
/// in turn, starting from `watermark`.
pub open spec fn watermark_after(watermark: i64, passes: Seq<Seq<FeedEntry>>) -> i64
    decreases passes.len(),
{
    if passes.len() == 0 {
        watermark
    } else {
        max_published(watermark_after(watermark, passes.drop_last()), passes.last())
    }
}

/// Every entry fetched over the given passes, in order.
pub open spec fn all_entries(passes: Seq<Seq<FeedEntry>>) -> Seq<FeedEntry>
    decreases passes.len(),
{
    if passes.len() == 0 {
        seq![]
    } else {
        all_entries(passes.drop_last()) + passes.last()
    }
}

/// The entries delivered by pass `k` of a run of passes from `watermark`.
pub open spec fn delivered_in_pass(watermark: i64, passes: Seq<Seq<FeedEntry>>, k: int) -> Seq<
    FeedEntry,
> {
    new_entries(watermark_after(watermark, passes.take(k)), passes[k])
}

proof fn lemma_max_published_append(watermark: i64, a: Seq<FeedEntry>, b: Seq<FeedEntry>)
    ensures
        max_published(watermark, a + b) == max_published(max_published(watermark, a), b),
    decreases b.len(),
{
    if b.len() == 0 {
        assert(a + b == a);
    } else {
        assert((a + b).drop_last() == a + b.drop_last());
        assert((a + b).last() == b.last());
        lemma_max_published_append(watermark, a, b.drop_last());
    }
}

/// An entry selected as new was published after the watermark and was fetched.
pub proof fn lemma_new_entry_after_watermark(watermark: i64, s: Seq<FeedEntry>, e: FeedEntry)
    requires
        new_entries(watermark, s).contains(e),
    ensures
        e.published > watermark,
        s.contains(e),
    decreases s.len(),
{
    if s.len() > 0 {
        let rest = new_entries(watermark, s.drop_last());
        if rest.contains(e) {
            lemma_new_entry_after_watermark(watermark, s.drop_last(), e);
            let k = choose|k: int| 0 <= k < s.drop_last().len() && s.drop_last()[k] == e;
            assert(s[k] == e);
        } else {
            assert(e == s.last());
            assert(s[s.len() - 1] == e);
        }
    }
}

/// The advanced watermark is at least the old one and every fetched publish time.
pub proof fn lemma_max_published_bounds(watermark: i64, s: Seq<FeedEntry>)
    ensures
        max_published(watermark, s) >= watermark,
        forall|k: int| 0 <= k < s.len() ==> max_published(watermark, s) >= #[trigger] s[k].published,
    decreases s.len(),
{
    if s.len() > 0 {
        lemma_max_published_bounds(watermark, s.drop_last());
        assert forall|k: int| 0 <= k < s.len() implies max_published(watermark, s) >= #[trigger] s[k].published by {
            if k < s.len() - 1 {
                assert(s.drop_last()[k] == s[k]);
            }
        }
    }
}

/// The watermark never moves backward from one pass to a later one.
pub proof fn lemma_watermark_monotone(watermark: i64, passes: Seq<Seq<FeedEntry>>, a: int, b: int)
    requires
        0 <= a <= b <= passes.len(),
    ensures
        watermark_after(watermark, passes.take(a)) <= watermark_after(watermark, passes.take(b)),
    decreases b - a,
{
    if a < b {
        lemma_watermark_monotone(watermark, passes, a, b - 1);
        assert(passes.take(b).drop_last() == passes.take(b - 1));
        lemma_max_published_bounds(watermark_after(watermark, passes.take(b - 1)), passes.take(b).last());
    }
}

/// After any number of successful passes the watermark equals the greatest
/// publish time observed over all of them, or the starting watermark if that
/// is greater.
pub proof fn lemma_watermark_is_max_seen(watermark: i64, passes: Seq<Seq<FeedEntry>>)
    ensures
        watermark_after(watermark, passes) == max_published(watermark, all_entries(passes)),
    decreases passes.len(),
{
    if passes.len() > 0 {
        lemma_watermark_is_max_seen(watermark, passes.drop_last());
        lemma_max_published_append(watermark, all_entries(passes.drop_last()), passes.last());
    }
}

/// An entry delivered in one pass is never delivered again in a later pass,
/// even when a later fetch returns it again.
pub proof fn lemma_never_redelivered(
    watermark: i64,
    passes: Seq<Seq<FeedEntry>>,
    i: int,
    j: int,
    e: FeedEntry,
)
    requires
        0 <= i < j < passes.len(),
        delivered_in_pass(watermark, passes, i).contains(e),
    ensures
        !delivered_in_pass(watermark, passes, j).contains(e),
{
    let wi = watermark_after(watermark, passes.take(i));
    lemma_new_entry_after_watermark(wi, passes[i], e);
    let k = choose|k: int| 0 <= k < passes[i].len() && passes[i][k] == e;
    lemma_max_published_bounds(wi, passes[i]);
    assert(passes.take(i + 1).drop_last() == passes.take(i));
    assert(passes.take(i + 1).last() == passes[i]);
    lemma_watermark_monotone(watermark, passes, i + 1, j);
    if delivered_in_pass(watermark, passes, j).contains(e) {
        lemma_new_entry_after_watermark(watermark_after(watermark, passes.take(j)), passes[j], e);
    }
}

/// An entry published exactly at the watermark is never selected as new.
pub proof fn lemma_watermark_entry_not_new(watermark: i64, s: Seq<FeedEntry>, e: FeedEntry)
    requires
        e.published == watermark,
    ensures
        !new_entries(watermark, s).contains(e),
{
    if new_entries(watermark, s).contains(e) {
        lemma_new_entry_after_watermark(watermark, s, e);
    }
}

proof fn lemma_new_entries_member_iff(watermark: i64, s: Seq<FeedEntry>, e: FeedEntry)
    ensures
        new_entries(watermark, s).contains(e) <==> (s.contains(e) && e.published > watermark),
    decreases s.len(),
{
    if new_entries(watermark, s).contains(e) {
        lemma_new_entry_after_watermark(watermark, s, e);
    }
    if s.len() > 0 && s.contains(e) && e.published > watermark {
        let d = s.drop_last();
        let rest = new_entries(watermark, d);
        if e == s.last() {
            assert(rest.push(s.last())[rest.len() as int] == e);
        } else {
            let k = choose|k: int| 0 <= k < s.len() && s[k] == e;
            assert(k < s.len() - 1);
            assert(d[k] == e);
            lemma_new_entries_member_iff(watermark, d, e);
            if s.last().published > watermark {
                let j = choose|j: int| 0 <= j < rest.len() && rest[j] == e;
                assert(rest.push(s.last())[j] == e);
            }
        }
    }
}

proof fn lemma_max_published_attained(watermark: i64, s: Seq<FeedEntry>)
    ensures
        max_published(watermark, s) == watermark || exists|k: int|
            0 <= k < s.len() && s[k].published == max_published(watermark, s),
    decreases s.len(),
{
    if s.len() > 0 {
        lemma_max_published_attained(watermark, s.drop_last());
        let m = max_published(watermark, s.drop_last());
        if s.last().published <= m && m != watermark {
            let k = choose|k: int| 0 <= k < s.drop_last().len() && s.drop_last()[k].published == m;
            assert(s[k].published == m);
        }
        if s.last().published > m {
            assert(s[s.len() - 1].published == max_published(watermark, s));
        }
    }
}

proof fn lemma_max_published_below(watermark: i64, s1: Seq<FeedEntry>, s2: Seq<FeedEntry>)
    requires
        forall|e: FeedEntry| s1.contains(e) ==> s2.contains(e),
    ensures
        max_published(watermark, s1) <= max_published(watermark, s2),
{
    lemma_max_published_attained(watermark, s1);
    lemma_max_published_bounds(watermark, s2);
    if max_published(watermark, s1) != watermark {
        let k = choose|k: int| 0 <= k < s1.len() && s1[k].published == max_published(watermark, s1);
        assert(s1.contains(s1[k]));
        let j = choose|j: int| 0 <= j < s2.len() && s2[j] == s1[k];
        assert(s2[j].published == s1[k].published);
    }
}

/// The selection does not depend on the order in which a feed lists its
/// entries: two batches holding the same entries select the same new entries
/// and advance the watermark to the same value.
pub proof fn lemma_selection_order_independent(
    watermark: i64,
    s1: Seq<FeedEntry>,
    s2: Seq<FeedEntry>,
)
    requires
        forall|e: FeedEntry| s1.contains(e) <==> s2.contains(e),
    ensures
        forall|e: FeedEntry|
            new_entries(watermark, s1).contains(e) <==> #[trigger] new_entries(watermark, s2).contains(e),
        max_published(watermark, s1) == max_published(watermark, s2),
{
    assert forall|e: FeedEntry|
        new_entries(watermark, s1).contains(e) <==> #[trigger] new_entries(watermark, s2).contains(e) by {
        lemma_new_entries_member_iff(watermark, s1, e);
        lemma_new_entries_member_iff(watermark, s2, e);
    }
    lemma_max_published_below(watermark, s1, s2);
    lemma_max_published_below(watermark, s2, s1);
}

} // verus!
