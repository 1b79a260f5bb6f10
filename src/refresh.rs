//! The refresh protocol's plan and execute phases: a snapshot of what each
//! feed already holds, and the new headers and items found in fresh downloads.
use vstd::prelude::*;

use crate::adapter::{download_header, download_items};
use crate::assoc::{assoc, keys_unique};
use crate::lookup::FeedId;
use crate::model::{key_view, opt_str_eq, FeedDownload, FeedHeader, FeedItem, ItemKey};

verus! {

/// The number of attempts made to fetch one source in a refresh cycle.
pub const MAX_FETCH_ATTEMPTS: u32 = 5;

/// Whether a source whose fetch has failed `attempts_made` times is tried
/// again in this cycle: until the attempts reach `MAX_FETCH_ATTEMPTS`, with no
/// delay between them. A source given up on is left out of the cycle.
pub fn retry_after_failure(attempts_made: u32) -> (r: bool)
    ensures
        r == (attempts_made < MAX_FETCH_ATTEMPTS),
{
    attempts_made < MAX_FETCH_ATTEMPTS
}

/// The view of an identity key.
pub type KeyView = (Option<Seq<char>>, Option<Seq<char>>);

/// One feed to refresh: its id, its source url and the identity keys of the
/// items it holds.
pub struct PlannedFeed {
    pub feed_id: FeedId,
    pub feed_url: String,
    pub existing: Vec<ItemKey>,
}

/// The plan of a refresh cycle, taken at sequence number `seq_no`.
pub struct UpdateFeedsTask {
    feeds: Vec<PlannedFeed>,
    seq_no: u64,
}

/// What a refresh found for one feed: the fetched header and the new items.
pub struct FeedUpdate {
    pub feed_id: FeedId,
    pub headers: Vec<FeedHeader>,
    pub items: Vec<FeedItem>,
}

/// What a refresh cycle found, to be committed against sequence number `seq_no`.
pub struct UpdateFeedsTaskResult {
    results: Vec<FeedUpdate>,
    seq_no: u64,
}

/// The identity keys of a planned feed.
pub open spec fn keys_view(v: Seq<ItemKey>) -> Seq<KeyView> {
    v.map_values(|k: ItemKey| key_view(k))
}

/// The items of `s` whose identity key is not among `keys`, in order.
pub open spec fn fresh_items(s: Seq<FeedItem>, keys: Seq<KeyView>) -> Seq<FeedItem>
    decreases s.len(),
{
    if s.len() == 0 {
        s
    } else if keys.contains(s.last().key_spec()) {
        fresh_items(s.drop_last(), keys)
    } else {
        fresh_items(s.drop_last(), keys).push(s.last())
    }
}

/// Against an empty snapshot every item is new.
pub proof fn lemma_fresh_items_empty_snapshot(s: Seq<FeedItem>)
    ensures
        fresh_items(s, Seq::<KeyView>::empty()) == s,
    decreases s.len(),
{
    if s.len() > 0 {
        lemma_fresh_items_empty_snapshot(s.drop_last());
        assert(s.drop_last().push(s.last()) =~= s);
    }
}

/// The view of an update: the feed id with the headers and items.
pub open spec fn update_view(u: FeedUpdate) -> (Seq<char>, (Seq<FeedHeader>, Seq<FeedItem>)) {
    (u.feed_id@, (u.headers@, u.items@))
}

/// The views of the updates.
pub open spec fn updates_view(s: Seq<FeedUpdate>) -> Seq<(Seq<char>, (Seq<FeedHeader>, Seq<FeedItem>))> {
    s.map_values(|u: FeedUpdate| update_view(u))
}

/// What a download gives a planned feed: the fetched header, and the items
/// in order of effective date that the feed does not hold yet.
pub open spec fn update_of(p: PlannedFeed, d: FeedDownload) -> (Seq<char>, (Seq<FeedHeader>, Seq<FeedItem>)) {
    (
        p.feed_id@,
        (
            seq![download_header(d)],
            fresh_items(crate::model::sorted_items(download_items(d)), keys_view(p.existing@)),
        ),
    )
}

/// The updates of a refresh cycle: one for each planned feed whose download
/// (the entry at its position) succeeded, in plan order.
pub open spec fn run_spec(plan: Seq<PlannedFeed>, ds: Seq<Option<FeedDownload>>) -> Seq<
    (Seq<char>, (Seq<FeedHeader>, Seq<FeedItem>)),
>
    decreases plan.len(),
{
    if plan.len() == 0 {
        seq![]
    } else {
        let prev = run_spec(plan.drop_last(), ds);
        let i = plan.len() - 1;
        if i < ds.len() && ds[i] is Some {
            prev.push(update_of(plan.last(), ds[i]->0))
        } else {
            prev
        }
    }
}

/// The feed ids of a plan.
pub open spec fn plan_ids(plan: Seq<PlannedFeed>) -> Seq<(Seq<char>, ())> {
    plan.map_values(|p: PlannedFeed| (p.feed_id@, ()))
}

/// The ids of a plan, in order.
pub open spec fn plan_id_seq(plan: Seq<PlannedFeed>) -> Seq<Seq<char>> {
    plan.map_values(|p: PlannedFeed| p.feed_id@)
}

proof fn lemma_run_spec_ids(plan: Seq<PlannedFeed>, ds: Seq<Option<FeedDownload>>)
    requires
        keys_unique(plan_ids(plan)),
    ensures
        keys_unique(run_spec(plan, ds)),
        forall|k: int|
            0 <= k < run_spec(plan, ds).len() ==> plan_id_seq(plan).contains(
                #[trigger] run_spec(plan, ds)[k].0,
            ),
    decreases plan.len(),
{
    if plan.len() > 0 {
        let p = plan.drop_last();
        assert(keys_unique(plan_ids(p))) by {
            assert forall|a: int, b: int| 0 <= a < b < plan_ids(p).len() implies plan_ids(p)[a].0
                != plan_ids(p)[b].0 by {
                assert(plan_ids(p)[a] == plan_ids(plan)[a]);
                assert(plan_ids(p)[b] == plan_ids(plan)[b]);
            }
        }
        lemma_run_spec_ids(p, ds);
        let prev = run_spec(p, ds);
        let i = plan.len() - 1;
        assert forall|x: Seq<char>| plan_id_seq(p).contains(x) implies plan_id_seq(plan).contains(
            x,
        ) && x != plan[i].feed_id@ by {
            let j = choose|j: int| 0 <= j < plan_id_seq(p).len() && plan_id_seq(p)[j] == x;
            assert(plan_id_seq(plan)[j] == x);
            assert(plan_ids(plan)[j].0 != plan_ids(plan)[i].0);
        }
        if i < ds.len() && ds[i] is Some {
            let r = prev.push(update_of(plan.last(), ds[i]->0));
            assert(run_spec(plan, ds) == r);
            assert(plan_id_seq(plan)[i] == plan[i].feed_id@);
            assert forall|a: int, b: int| 0 <= a < b < r.len() implies r[a].0 != r[b].0 by {
                if b == prev.len() {
                    assert(plan_id_seq(p).contains(prev[a].0));
                } else {
                    assert(r[a] == prev[a] && r[b] == prev[b]);
                }
            }
            assert forall|k: int| 0 <= k < r.len() implies plan_id_seq(plan).contains(
                #[trigger] r[k].0,
            ) by {
                if k < prev.len() {
                    assert(plan_id_seq(p).contains(prev[k].0));
                }
            }
        } else {
            assert(run_spec(plan, ds) == prev);
            assert forall|k: int| 0 <= k < prev.len() implies plan_id_seq(plan).contains(
                #[trigger] prev[k].0,
            ) by {
                assert(plan_id_seq(p).contains(prev[k].0));
            }
        }
    }
}

/// In the result of a refresh run, the update for a planned feed whose
/// download succeeded is the one its document gives: its header and, in
/// date order, the items its snapshot lacks.
pub proof fn lemma_run_update_for(plan: Seq<PlannedFeed>, ds: Seq<Option<FeedDownload>>, i: int)
    requires
        keys_unique(plan_ids(plan)),
        0 <= i < plan.len(),
        i < ds.len(),
        ds[i] is Some,
    ensures
        assoc(run_spec(plan, ds), plan[i].feed_id@) == Some(update_of(plan[i], ds[i]->0).1),
    decreases plan.len(),
{
    let p = plan.drop_last();
    let last = plan.len() - 1;
    if i < last {
        assert(keys_unique(plan_ids(p))) by {
            assert forall|a: int, b: int| 0 <= a < b < plan_ids(p).len() implies plan_ids(p)[a].0
                != plan_ids(p)[b].0 by {
                assert(plan_ids(p)[a] == plan_ids(plan)[a]);
                assert(plan_ids(p)[b] == plan_ids(plan)[b]);
            }
        }
        lemma_run_update_for(p, ds, i);
        assert(p[i] == plan[i]);
        assert(plan_ids(plan)[i].0 != plan_ids(plan)[last].0);
        if last < ds.len() && ds[last] is Some {
            let r = run_spec(p, ds).push(update_of(plan.last(), ds[last]->0));
            assert(r.drop_last() =~= run_spec(p, ds));
        }
    }
}

/// Whether `keys` holds the key `k`.
fn keys_contain(keys: &Vec<ItemKey>, k: &ItemKey) -> (r: bool)
    ensures
        r == keys_view(keys@).contains(key_view(*k)),
{
    let mut i: usize = 0;
    while i < keys.len()
        invariant
            i <= keys@.len(),
            forall|j: int| 0 <= j < i ==> key_view(keys@[j]) != key_view(*k),
        decreases keys@.len() - i,
    {
        if opt_str_eq(&keys[i].0, &k.0) && opt_str_eq(&keys[i].1, &k.1) {
            assert(keys_view(keys@)[i as int] == key_view(*k));
            return true;
        }
        i = i + 1;
    }
    proof {
        if keys_view(keys@).contains(key_view(*k)) {
            let j = choose|j: int|
                0 <= j < keys_view(keys@).len() && keys_view(keys@)[j] == key_view(*k);
            assert(key_view(keys@[j]) == key_view(*k));
        }
    }
    false
}

impl PlannedFeed {
    /// The items of `items` (in order) whose identity key the feed does not hold.
    pub fn new_items(&self, items: Vec<FeedItem>) -> (r: Vec<FeedItem>)
        ensures
            r@ == fresh_items(items@, keys_view(self.existing@)),
    {
        let ghost src = items@;
        let ghost keys = keys_view(self.existing@);
        let mut rest = items;
        let mut out: Vec<FeedItem> = Vec::new();
        let n = rest.len();
        let mut i: usize = 0;
        while rest.len() > 0
            invariant
                n == src.len(),
                i + rest@.len() == n,
                rest@ == src.subrange(i as int, n as int),
                keys == keys_view(self.existing@),
                out@ == fresh_items(src.subrange(0, i as int), keys),
            decreases rest@.len(),
        {
            let x = rest.remove(0);
            let k = x.key();
            proof {
                let pre = src.subrange(0, i + 1);
                assert(pre.drop_last() =~= src.subrange(0, i as int));
                assert(pre.last() == x);
            }
            if !keys_contain(&self.existing, &k) {
                out.push(x);
            }
            i = i + 1;
            assert(rest@ =~= src.subrange(i as int, n as int));
        }
        assert(src.subrange(0, n as int) =~= src);
        out
    }
}

impl UpdateFeedsTask {
    /// The planned feeds have distinct ids.
    pub open spec fn wf(self) -> bool {
        keys_unique(plan_ids(self.feeds_spec()))
    }

    /// The planned feeds.
    pub closed spec fn feeds_spec(self) -> Seq<PlannedFeed> {
        self.feeds@
    }

    /// The sequence number the plan was taken at.
    pub closed spec fn seq_spec(self) -> u64 {
        self.seq_no
    }

    /// A plan of `feeds` taken at sequence number `seq_no`.
    pub(crate) fn new(feeds: Vec<PlannedFeed>, seq_no: u64) -> (r: Self)
        requires
            keys_unique(plan_ids(feeds@)),
        ensures
            r.wf(),
            r.feeds_spec() == feeds@,
            r.seq_spec() == seq_no,
    {
        UpdateFeedsTask { feeds, seq_no }
    }

    /// The planned feeds, in plan order.
    pub fn feeds(&self) -> (r: &Vec<PlannedFeed>)
        ensures
            r@ == self.feeds_spec(),
    {
        &self.feeds
    }

    /// The sequence number the plan was taken at.
    pub fn seq_no(&self) -> (r: u64)
        ensures
            r == self.seq_spec(),
    {
        self.seq_no
    }

    /// The execute phase after the downloads: `downloads[i]` is the parsed
    /// document fetched for the `i`-th planned feed, or `None` where fetching
    /// or parsing failed (missing entries count as failed). Each feed with a
    /// document gets its header and, in order of effective date, the items
    /// whose identity key it does not hold yet; failed feeds are left out.
    pub fn run(self, downloads: Vec<Option<FeedDownload>>) -> (r: UpdateFeedsTaskResult)
        requires
            self.wf(),
        ensures
            r.wf(),
            r.seq_spec() == self.seq_spec(),
            r.updates_spec() == run_spec(self.feeds_spec(), downloads@),
    {
        let ghost plan = self.feeds@;
        let ghost ds = downloads@;
        let UpdateFeedsTask { feeds, seq_no } = self;
        let mut rest = feeds;
        let mut dl = downloads;
        let mut results: Vec<FeedUpdate> = Vec::new();
        let n = rest.len();
        let mut i: usize = 0;
        proof {
            lemma_run_spec_ids(plan, ds);
        }
        while rest.len() > 0
            invariant
                n == plan.len(),
                i + rest@.len() == n,
                rest@ == plan.subrange(i as int, n as int),
                dl@ == if i <= ds.len() {
                    ds.subrange(i as int, ds.len() as int)
                } else {
                    Seq::<Option<FeedDownload>>::empty()
                },
                updates_view(results@) == run_spec(plan.subrange(0, i as int), ds),
            decreases rest@.len(),
        {
            let p = rest.remove(0);
            let d = if dl.len() > 0 {
                dl.remove(0)
            } else {
                None
            };
            proof {
                let pre = plan.subrange(0, i + 1);
                assert(pre.drop_last() =~= plan.subrange(0, i as int));
                assert(pre.last() == p);
                if i < ds.len() {
                    assert(d == ds[i as int]);
                }
            }
            match d {
                Some(doc) => {
                    let ghost dv = doc;
                    let (header, mut items) = doc.split_header();
                    FeedItem::sort(&mut items);
                    let fresh = p.new_items(items);
                    let mut headers: Vec<FeedHeader> = Vec::new();
                    headers.push(header);
                    assert(headers@ =~= seq![download_header(dv)]);
                    let ghost prev = results@;
                    results.push(FeedUpdate { feed_id: p.feed_id, headers, items: fresh });
                    assert(updates_view(results@) =~= updates_view(prev).push(
                        update_of(plan[i as int], dv),
                    ));
                },
                None => {},
            }
            i = i + 1;
            assert(rest@ =~= plan.subrange(i as int, n as int));
            assert(dl@ =~= if i <= ds.len() {
                ds.subrange(i as int, ds.len() as int)
            } else {
                Seq::<Option<FeedDownload>>::empty()
            });
        }
        assert(plan.subrange(0, n as int) =~= plan);
        UpdateFeedsTaskResult { results, seq_no }
    }
}

impl UpdateFeedsTaskResult {
    /// The updates are for distinct feeds.
    pub open spec fn wf(self) -> bool {
        keys_unique(self.updates_spec())
    }

    /// The updates, in plan order.
    pub closed spec fn updates_spec(self) -> Seq<(Seq<char>, (Seq<FeedHeader>, Seq<FeedItem>))> {
        updates_view(self.results@)
    }

    /// The sequence number of the plan the result came from.
    pub closed spec fn seq_spec(self) -> u64 {
        self.seq_no
    }

    /// The headers and items found for feed `id`, if any.
    pub open spec fn update_for(self, id: Seq<char>) -> Option<(Seq<FeedHeader>, Seq<FeedItem>)> {
        assoc(self.updates_spec(), id)
    }

    /// The sequence number of the plan the result came from.
    pub fn seq_no(&self) -> (r: u64)
        ensures
            r == self.seq_spec(),
    {
        self.seq_no
    }

    /// The updates, in plan order.
    pub fn updates(&self) -> (r: &Vec<FeedUpdate>)
        ensures
            updates_view(r@) == self.updates_spec(),
    {
        &self.results
    }

    /// Takes the updates out, with the sequence number.
    pub(crate) fn into_parts(self) -> (r: (Vec<FeedUpdate>, u64))
        ensures
            updates_view(r.0@) == self.updates_spec(),
            r.1 == self.seq_spec(),
    {
        (self.results, self.seq_no)
    }
}

} // verus!
