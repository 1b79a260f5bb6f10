//! The database: the feed store, the lookup indices, the read state and the
//! sequence number that guards refresh commits.
use vstd::prelude::*;

use crate::assoc::{add_unique, assoc, keys_unique, lemma_assoc_absent};
use crate::feed::{Feed, OutlineTree};
use crate::lookup::{minted_id, mint_id, FeedId, SourceLookup};
use crate::model::FeedItemMeta;
use crate::order::{lemma_sort_map_payload, map_payload, sort_by_key, sort_pairs, strip_keys};
use crate::refresh::{
    plan_ids, update_view, updates_view, FeedUpdate, PlannedFeed, UpdateFeedsTask, UpdateFeedsTaskResult,
};
use crate::store::{entries_view, Storage, UserDataStorage};

verus! {

/// The id that inserting a feed called `name` with url `url` gives: the
/// existing id the lookup resolves it to, else a freshly minted one.
pub open spec fn resolved_id(lk: SourceLookup, name: Seq<char>, url: Option<Seq<char>>) -> Seq<
    char,
> {
    match lk.check_spec(name, url) {
        Some(id) => id,
        None => minted_id(name, url),
    }
}

/// Relies on `chrono::Utc::now`, the current time, as seconds since the Unix
/// epoch.
#[verifier::external_body]
fn now_timestamp() -> (r: i64) {
    chrono::Utc::now().timestamp()
}

/// The engine's state for the lifetime of the process.
pub struct Database {
    storage: Storage,
    user_data_storage: UserDataStorage,
    lookup: SourceLookup,
    last_feed_update: Option<i64>,
    update_seq_no: u64,
}

impl Database {
    /// The parts are well formed.
    pub closed spec fn wf(self) -> bool {
        self.storage.wf() && self.user_data_storage.wf() && self.lookup.wf()
    }

    pub closed spec fn store(self) -> Storage {
        self.storage
    }

    pub closed spec fn lookup_spec(self) -> SourceLookup {
        self.lookup
    }

    pub closed spec fn user_spec(self) -> UserDataStorage {
        self.user_data_storage
    }

    pub closed spec fn seq_spec(self) -> u64 {
        self.update_seq_no
    }

    pub closed spec fn last_update_spec(self) -> Option<i64> {
        self.last_feed_update
    }

    /// Whether `after` is `before` with refresh result `res` committed: a
    /// result planned at another sequence number is discarded and nothing
    /// changes; otherwise every feed with an update is refreshed with it, the
    /// sequence number rises by one and the refresh time is set.
    pub open spec fn committed(before: Database, res: UpdateFeedsTaskResult, after: Database) -> bool {
        if res.seq_spec() != before.seq_spec() {
            after == before
        } else {
            &&& after.wf()
            &&& after.seq_spec() == before.seq_spec() + 1
            &&& after.last_update_spec() is Some
            &&& after.lookup_spec() == before.lookup_spec()
            &&& after.user_spec() == before.user_spec()
            &&& forall|id: Seq<char>| #[trigger]
                after.store().get_spec(id) is Some == before.store().get_spec(id) is Some
            &&& forall|id: Seq<char>|
                #![trigger after.store().get_spec(id)]
                match (before.store().get_spec(id), res.update_for(id)) {
                    (Some(f), Some(u)) => Feed::refreshed(
                        f,
                        u.0,
                        u.1,
                        after.store().get_spec(id)->0,
                    ),
                    _ => after.store().get_spec(id) == before.store().get_spec(id),
                }
        }
    }

    /// A database over the feeds and read state loaded from storage; feeds
    /// are kept in the order given (the loader hands them over sorted by id),
    /// which is the order `get_feeds` lists them in. Each
    /// feed's legacy lists are migrated first (where its counters leave room);
    /// a later feed with an id already seen replaces the earlier one. The
    /// lookup indices are rebuilt from the stored feeds.
    pub fn init(feeds: Vec<(FeedId, Feed)>, user_data: Option<Vec<(FeedId, Vec<usize>)>>) -> (r: Self)
        requires
            forall|i: int| 0 <= i < feeds@.len() ==> (#[trigger] feeds@[i]).1.wf(),
        ensures
            r.wf(),
            r.seq_spec() == 0,
            r.last_update_spec() is None,
            forall|k: Seq<char>| #[trigger]
                r.store().get_spec(k) is Some <==> exists|i: int|
                    0 <= i < feeds@.len() && feeds@[i].0@ == k,
            forall|k: Seq<char>| #[trigger]
                r.store().get_spec(k) is Some ==> Self::loaded(
                    assoc(entries_view(feeds@), k)->0,
                    r.store().get_spec(k)->0,
                ),
            forall|n: Seq<char>, id: Seq<char>| #[trigger]
                r.lookup_spec().title_ids(n).contains(id) <==> exists|i: int|
                    0 <= i < r.store().view_entries().len() && r.store().view_entries()[i].0 == id
                        && r.store().view_entries()[i].1.name_spec() == n,
            forall|u: Seq<char>, id: Seq<char>| #[trigger]
                r.lookup_spec().url_ids(u).contains(id) <==> exists|i: int|
                    0 <= i < r.store().view_entries().len() && r.store().view_entries()[i].0 == id
                        && r.store().view_entries()[i].1.url_spec() == Some(u),
            forall|id: Seq<char>, x: usize| #[trigger]
                r.user_spec().read_spec(id).contains(x) <==> match user_data {
                    Some(v) => crate::store::loaded_marks(v@, id, x),
                    None => false,
                },
    {
        let ghost ev = feeds@;
        let n = feeds.len();
        let mut storage = Storage::new();
        let mut rest = feeds;
        let mut done: usize = 0;
        while rest.len() > 0
            invariant
                n == ev.len(),
                done + rest@.len() == ev.len(),
                rest@ == ev.subrange(done as int, ev.len() as int),
                forall|i: int| 0 <= i < ev.len() ==> (#[trigger] ev[i]).1.wf(),
                storage.wf(),
                forall|k: Seq<char>| #[trigger]
                    storage.get_spec(k) is Some <==> exists|i: int| 0 <= i < done && ev[i].0@ == k,
                forall|k: Seq<char>| #[trigger]
                    storage.get_spec(k) is Some ==> assoc(entries_view(ev.subrange(0, done as int)), k) is Some
                        && Self::loaded(
                        assoc(entries_view(ev.subrange(0, done as int)), k)->0,
                        storage.get_spec(k)->0,
                    ),
            decreases rest@.len(),
        {
            let (id, mut feed) = rest.remove(0);
            assert(ev[done as int] == (id, feed));
            let ghost loaded_feed = feed;
            if feed.headers_counter_fits() && feed.items_counter_fits() {
                feed.migrate_data();
            }
            let ghost idv = id@;
            storage.put(id, feed);
            proof {
                let pre = entries_view(ev.subrange(0, done as int));
                let nxt = entries_view(ev.subrange(0, done + 1));
                assert(nxt =~= pre.push((idv, loaded_feed)));
                assert(nxt.drop_last() =~= pre);
                assert forall|k: Seq<char>| #[trigger] storage.get_spec(k) is Some implies assoc(nxt, k) is Some
                    && Self::loaded(assoc(nxt, k)->0, storage.get_spec(k)->0) by {
                    if k != idv {
                        assert(assoc(nxt, k) == assoc(pre, k));
                    }
                }
                assert forall|k: Seq<char>| #[trigger]
                    storage.get_spec(k) is Some <==> exists|i: int| 0 <= i < done + 1 && ev[i].0@ == k by {
                    if k == idv {
                        assert(ev[done as int].0@ == k);
                    } else {
                        if exists|i: int| 0 <= i < done + 1 && ev[i].0@ == k {
                            let i = choose|i: int| 0 <= i < done + 1 && ev[i].0@ == k;
                            assert(i < done);
                        }
                    }
                }
            }
            done = done + 1;
            assert(rest@ =~= ev.subrange(done as int, ev.len() as int));
        }
        assert(ev.subrange(0, done as int) =~= ev);
        let mut lookup = SourceLookup::new();
        storage.write_to_cache(&mut lookup);
        Database {
            storage,
            user_data_storage: UserDataStorage::open_or_default(user_data),
            lookup,
            last_feed_update: None,
            update_seq_no: 0,
        }
    }

    /// Whether `stored` is `loaded` as a load leaves it: with its legacy
    /// lists migrated where its counters leave room, else unchanged.
    pub open spec fn loaded(loaded: Feed, stored: Feed) -> bool {
        if Feed::migration_fits(loaded) {
            Feed::migrated(loaded, stored)
        } else {
            stored == loaded
        }
    }

    /// Whether `after` is `before` with `item` submitted under the id `id`:
    /// `id` is what the item's name and url resolve to, the item is filed
    /// under it in the lookup, and it is stored under it (as it is where the
    /// id was new, merged into the stored feed where it was not); nothing else
    /// changes.
    pub open spec fn inserted(before: Database, item: Feed, id: Seq<char>, after: Database) -> bool {
        &&& after.wf()
        &&& id == resolved_id(before.lookup_spec(), item.name_spec(), item.url_spec())
        &&& SourceLookup::touched(
            before.lookup_spec(),
            after.lookup_spec(),
            id,
            item.name_spec(),
            item.url_spec(),
        )
        &&& match before.store().get_spec(id) {
            None => after.store().get_spec(id) == Some(item),
            Some(f) => after.store().get_spec(id) is Some && Feed::merged(
                f,
                item,
                after.store().get_spec(id)->0,
            ),
        }
        &&& forall|k: Seq<char>|
            k != id ==> #[trigger] after.store().get_spec(k) == before.store().get_spec(k)
        &&& after.seq_spec() == before.seq_spec()
        &&& after.last_update_spec() == before.last_update_spec()
        &&& after.user_spec() == before.user_spec()
    }

    /// Submits a feed: it gets the id its name and url resolve to (an
    /// existing one, else one minted from them), is filed under that id in
    /// the lookup, and is stored under it: as it is where the id is new,
    /// merged into the stored feed (url and outline filled in where missing,
    /// tags united) where it is not.
    pub fn insert(&mut self, item: Feed) -> (r: FeedId)
        requires
            old(self).wf(),
            item.wf(),
        ensures
            final(self).wf(),
            Self::inserted(*old(self), item, r@, *final(self)),
    {
        let feed_id = match self.lookup.check(item.key()) {
            Some(id) => id,
            None => mint_id(&item.key()),
        };
        self.lookup.touch(&feed_id, item.key());
        let ghost orig = self.storage;
        match self.storage.take(feed_id.as_str()) {
            Some((i, k, mut f)) => {
                f.merge_from(item);
                self.storage.put_back(i, k, f, Ghost(orig));
            },
            None => {
                self.storage.put(feed_id.clone(), item);
            },
        }
        feed_id
    }

    /// All stored items with their feed ids and feeds, oldest first; items of
    /// equal date keep the order of their feeds (in insertion order) and of
    /// their places in them.
    pub fn get_items_ordered_by_time(&self) -> (r: Vec<(&FeedId, &Feed, &FeedItemMeta)>)
        requires
            self.wf(),
        ensures
            r@.map_values(|t: (&FeedId, &Feed, &FeedItemMeta)| (t.0@, *t.2)) == sort_by_key(
                keyed_all(all_items(self.store().view_entries())),
            ).map_values(|p: (i64, (Seq<char>, FeedItemMeta))| p.1),
    {
        let entries = self.storage.iter();
        let ghost ev = entries_view(entries@);
        let mut keyed: Vec<(i64, (&FeedId, &Feed, &FeedItemMeta))> = Vec::new();
        let mut i: usize = 0;
        while i < entries.len()
            invariant
                i <= entries@.len(),
                ev == entries_view(entries@),
                map_payload(keyed@, |t: (&FeedId, &Feed, &FeedItemMeta)| (t.0@, *t.2))
                    == keyed_all(all_items(ev.subrange(0, i as int))),
            decreases entries@.len() - i,
        {
            let items = entries[i].1.items();
            let mut j: usize = 0;
            while j < items.len()
                invariant
                    i < entries@.len(),
                    j <= items@.len(),
                    items@ == entries@[i as int].1.items_spec(),
                    ev == entries_view(entries@),
                    map_payload(keyed@, |t: (&FeedId, &Feed, &FeedItemMeta)| (t.0@, *t.2))
                        == keyed_all(all_items(ev.subrange(0, i as int))) + keyed_all(
                        feed_items(ev[i as int].0, items@.subrange(0, j as int)),
                    ),
                decreases items@.len() - j,
            {
                let d = items[j].publish_date_or_old();
                let ghost prev = keyed@;
                keyed.push((d, (&entries[i].0, &entries[i].1, &items[j])));
                proof {
                    let f = |t: (&FeedId, &Feed, &FeedItemMeta)| (t.0@, *t.2);
                    assert(map_payload(keyed@, f) =~= map_payload(prev, f).push(
                        (d, (entries@[i as int].0@, items@[j as int])),
                    ));
                    assert(feed_items(ev[i as int].0, items@.subrange(0, j + 1)) =~= feed_items(
                        ev[i as int].0,
                        items@.subrange(0, j as int),
                    ).push((ev[i as int].0, items@[j as int])));
                    assert(keyed_all(feed_items(ev[i as int].0, items@.subrange(0, j + 1)))
                        =~= keyed_all(feed_items(ev[i as int].0, items@.subrange(0, j as int))).push(
                        (d, (ev[i as int].0, items@[j as int])),
                    ));
                }
                j = j + 1;
            }
            proof {
                assert(items@.subrange(0, j as int) =~= items@);
                let sub = ev.subrange(0, i + 1);
                assert(sub.drop_last() =~= ev.subrange(0, i as int));
                assert(all_items(sub) == all_items(ev.subrange(0, i as int)) + feed_items(
                    ev[i as int].0,
                    ev[i as int].1.items_spec(),
                ));
                lemma_keyed_all_concat(
                    all_items(ev.subrange(0, i as int)),
                    feed_items(ev[i as int].0, ev[i as int].1.items_spec()),
                );
            }
            i = i + 1;
        }
        assert(ev.subrange(0, i as int) =~= ev);
        let ghost k0 = keyed@;
        let sorted = sort_pairs(keyed);
        proof {
            lemma_sort_map_payload(k0, |t: (&FeedId, &Feed, &FeedItemMeta)| (t.0@, *t.2));
        }
        let out = strip_keys(sorted);
        proof {
            let f = |t: (&FeedId, &Feed, &FeedItemMeta)| (t.0@, *t.2);
            let a = sort_by_key(keyed_all(all_items(ev)));
            assert(a == map_payload(sorted@, f));
            assert(out@.map_values(f) =~= a.map_values(|p: (i64, (Seq<char>, FeedItemMeta))| p.1));
        }
        out
    }

    /// The stored feeds with their ids, in order of insertion.
    pub fn get_feeds(&self) -> (r: &Vec<(FeedId, Feed)>)
        ensures
            entries_view(r@) == self.store().view_entries(),
    {
        self.storage.iter()
    }

    /// The time of the last committed refresh, in seconds since the Unix epoch.
    pub fn last_feed_update(&self) -> (r: Option<i64>)
        ensures
            r == self.last_update_spec(),
    {
        self.last_feed_update
    }

    /// The feed stored under `feed_id`.
    pub fn get(&self, feed_id: &str) -> (r: Option<&Feed>)
        requires
            self.wf(),
        ensures
            match r {
                Some(f) => self.store().get_spec(feed_id@) == Some(*f),
                None => self.store().get_spec(feed_id@) is None,
            },
    {
        self.storage.get(feed_id)
    }

    /// The sequence number of the last committed refresh.
    pub fn get_update_seq_no(&self) -> (r: u64)
        ensures
            r == self.seq_spec(),
    {
        self.update_seq_no
    }

    /// Raises the sequence number to `v`, which must exceed it.
    pub fn set_update_seq_no(&mut self, v: u64)
        requires
            old(self).seq_spec() < v,
        ensures
            final(self).seq_spec() == v,
            final(self).store() == old(self).store(),
            final(self).lookup_spec() == old(self).lookup_spec(),
            final(self).user_spec() == old(self).user_spec(),
            final(self).last_update_spec() == old(self).last_update_spec(),
    {
        self.update_seq_no = v;
    }

    /// The read state.
    pub fn user_data(&self) -> (r: &UserDataStorage)
        ensures
            *r == self.user_spec(),
    {
        &self.user_data_storage
    }

    /// Marks item `item_id` of feed `feed_id` read.
    pub fn mark_read(&mut self, feed_id: &FeedId, item_id: usize)
        requires
            old(self).wf(),
        ensures
            final(self).wf(),
            forall|id: Seq<char>, x: usize| #[trigger]
                final(self).user_spec().read_spec(id).contains(x) <==> (old(self).user_spec().read_spec(id).contains(x) || (id == feed_id@ && x == item_id)),
            final(self).store() == old(self).store(),
            final(self).seq_spec() == old(self).seq_spec(),
    {
        self.user_data_storage.mark_read(feed_id, item_id);
    }

    /// Marks read, in feed `feed_id`, the item numbered `item_id` and every
    /// item whose effective date is not later than its date (the first item
    /// with that number counts). Returns whether the feed holds such an item;
    /// where it does not, nothing changes.
    pub fn mark_read_until(&mut self, feed_id: &FeedId, item_id: usize) -> (r: bool)
        requires
            old(self).wf(),
        ensures
            final(self).wf(),
            final(self).store() == old(self).store(),
            final(self).seq_spec() == old(self).seq_spec(),
            r == match old(self).store().get_spec(feed_id@) {
                Some(f) => first_with_id(f.items_spec(), item_id) is Some,
                None => false,
            },
            forall|id: Seq<char>, x: usize| #[trigger]
                final(self).user_spec().read_spec(id).contains(x) <==> (old(self).user_spec().read_spec(id).contains(x) || (r
                    && id == feed_id@ && read_until(old(self).store().get_spec(feed_id@)->0.items_spec(), item_id, x))),
    {
        let f = match self.storage.get(feed_id.as_str()) {
            Some(f) => f,
            None => return false,
        };
        let items = f.items();
        let ghost s = items@;
        let mut k: usize = 0;
        while k < items.len() && items[k].id() != item_id
            invariant
                k <= s.len(),
                s == items@,
                forall|j: int| 0 <= j < k ==> s[j].id != item_id,
            decreases s.len() - k,
        {
            k = k + 1;
        }
        if k == items.len() {
            proof {
                lemma_first_with_id_none(s, item_id);
            }
            return false;
        }
        proof {
            lemma_first_with_id_at(s, item_id, k as int);
        }
        let d = items[k].publish_date_or_old();
        let mut marks: Vec<usize> = Vec::new();
        let mut j: usize = 0;
        while j < items.len()
            invariant
                j <= s.len(),
                s == items@,
                forall|x: usize| #[trigger] marks@.contains(x) <==> exists|m: int| 0 <= m < j && s[m].id == x && s[m].item.date_spec() <= d,
            decreases s.len() - j,
        {
            let ghost prev = marks@;
            if items[j].publish_date_or_old() <= d {
                marks.push(items[j].id());
            }
            proof {
                assert forall|x: usize| #[trigger] marks@.contains(x) <==> exists|m: int| 0 <= m < j + 1 && s[m].id == x && s[m].item.date_spec() <= d by {
                    if marks@.contains(x) {
                        let q = choose|q: int| 0 <= q < marks@.len() && marks@[q] == x;
                        if q < prev.len() {
                            assert(prev[q] == x);
                            assert(prev.contains(x));
                        }
                    }
                    if exists|m: int| 0 <= m < j + 1 && s[m].id == x && s[m].item.date_spec() <= d {
                        let m = choose|m: int| 0 <= m < j + 1 && s[m].id == x && s[m].item.date_spec() <= d;
                        if m < j {
                            assert(prev.contains(x));
                            let q = choose|q: int| 0 <= q < prev.len() && prev[q] == x;
                            assert(marks@[q] == x);
                        } else {
                            assert(marks@[marks@.len() - 1] == x);
                        }
                    }
                }
            }
            j = j + 1;
        }
        let ghost u0 = self.user_data_storage;
        let mut i: usize = 0;
        while i < marks.len()
            invariant
                i <= marks@.len(),
                self.user_data_storage.wf(),
                self.storage == old(self).storage,
                self.lookup == old(self).lookup,
                self.update_seq_no == old(self).update_seq_no,
                self.last_feed_update == old(self).last_feed_update,
                u0 == old(self).user_data_storage,
                forall|id: Seq<char>, x: usize| #[trigger]
                    self.user_data_storage.read_spec(id).contains(x) <==> (u0.read_spec(id).contains(x) || (id == feed_id@
                        && marks@.subrange(0, i as int).contains(x))),
            decreases marks@.len() - i,
        {
            self.user_data_storage.mark_read(feed_id, marks[i]);
            proof {
                let pre = marks@.subrange(0, i + 1);
                assert(pre =~= marks@.subrange(0, i as int).push(marks@[i as int]));
                crate::assoc::lemma_add_unique_contains(marks@.subrange(0, i as int), marks@[i as int]);
                assert forall|x: usize| pre.contains(x) <==> (marks@.subrange(0, i as int).contains(x) || x == marks@[i as int]) by {
                    if pre.contains(x) {
                        let q = choose|q: int| 0 <= q < pre.len() && pre[q] == x;
                        if q < i {
                            assert(marks@.subrange(0, i as int)[q] == x);
                        }
                    }
                    if marks@.subrange(0, i as int).contains(x) {
                        let q = choose|q: int| 0 <= q < i && marks@.subrange(0, i as int)[q] == x;
                        assert(pre[q] == x);
                    }
                    if x == marks@[i as int] {
                        assert(pre[i as int] == x);
                    }
                }
            }
            i = i + 1;
        }
        assert(marks@.subrange(0, i as int) =~= marks@);
        true
    }

    /// Adds `tags` to the tags of feed `feed_id`; `None` where there is no
    /// such feed, else whether any tag was new.
    pub fn add_tags(&mut self, feed_id: &str, tags: &Vec<String>) -> (r: Option<bool>)
        requires
            old(self).wf(),
        ensures
            final(self).wf(),
            r is None <==> old(self).store().get_spec(feed_id@) is None,
            Self::tags_added(*old(self), feed_id@, crate::feed::texts_view(tags@), *final(self)),
    {
        let ghost orig = self.storage;
        match self.storage.take(feed_id) {
            Some((i, k, mut f)) => {
                let added = f.extend_tags(tags);
                self.storage.put_back(i, k, f, Ghost(orig));
                Some(added)
            },
            None => None,
        }
    }

    /// Whether `after` is `before` with `tags` added to the tags of feed `id`
    /// (where it exists) and nothing else changed.
    pub open spec fn tags_added(before: Database, id: Seq<char>, tags: Seq<Seq<char>>, after: Database) -> bool {
        &&& forall|k: Seq<char>|
            k != id ==> #[trigger] after.store().get_spec(k) == before.store().get_spec(k)
        &&& match before.store().get_spec(id) {
            None => after.store().get_spec(id) is None,
            Some(f) => {
                &&& after.store().get_spec(id) is Some
                &&& Feed::same_identity_but_tags(f, after.store().get_spec(id)->0)
                &&& forall|t: Seq<char>| #[trigger]
                    after.store().get_spec(id)->0.tags_spec().contains(t) <==> (
                    f.tags_spec().contains(t) || tags.contains(t))
            },
        }
        &&& after.lookup_spec() == before.lookup_spec()
        &&& after.user_spec() == before.user_spec()
        &&& after.seq_spec() == before.seq_spec()
        &&& after.last_update_spec() == before.last_update_spec()
    }

    /// Removes tag `tag` from feed `feed_id`; `None` where there is no such
    /// feed, else whether the feed carried the tag.
    pub fn remove_tag(&mut self, feed_id: &str, tag: &str) -> (r: Option<bool>)
        requires
            old(self).wf(),
        ensures
            final(self).wf(),
            r is None <==> old(self).store().get_spec(feed_id@) is None,
            forall|k: Seq<char>|
                k != feed_id@ ==> #[trigger] final(self).store().get_spec(k) == old(self).store().get_spec(k),
            match old(self).store().get_spec(feed_id@) {
                None => true,
                Some(f) => {
                    &&& final(self).store().get_spec(feed_id@) is Some
                    &&& r == Some(f.tags_spec().contains(tag@))
                    &&& Feed::same_identity_but_tags(f, final(self).store().get_spec(feed_id@)->0)
                    &&& forall|t: Seq<char>| #[trigger]
                        final(self).store().get_spec(feed_id@)->0.tags_spec().contains(t) <==> (
                        f.tags_spec().contains(t) && t != tag@)
                },
            },
            final(self).lookup_spec() == old(self).lookup_spec(),
            final(self).seq_spec() == old(self).seq_spec(),
    {
        let ghost orig = self.storage;
        match self.storage.take(feed_id) {
            Some((i, k, mut f)) => {
                let removed = f.remove_tag(tag);
                self.storage.put_back(i, k, f, Ghost(orig));
                Some(removed)
            },
            None => None,
        }
    }

    /// Adds the title alias `name` (trimmed) to feed `feed_id`; `None` where
    /// there is no such feed, else whether the alias was new.
    pub fn add_title_alias(&mut self, feed_id: &str, name: &str) -> (r: Option<bool>)
        requires
            old(self).wf(),
        ensures
            final(self).wf(),
            r is None <==> old(self).store().get_spec(feed_id@) is None,
            forall|k: Seq<char>|
                k != feed_id@ ==> #[trigger] final(self).store().get_spec(k) == old(self).store().get_spec(k),
            match old(self).store().get_spec(feed_id@) {
                None => true,
                Some(f) => {
                    &&& final(self).store().get_spec(feed_id@) is Some
                    &&& r == Some(!f.aliases_spec().contains(crate::text::trimmed(name@)))
                    &&& forall|t: Seq<char>| #[trigger]
                        final(self).store().get_spec(feed_id@)->0.aliases_spec().contains(t) <==> (
                        f.aliases_spec().contains(t) || t == crate::text::trimmed(name@))
                },
            },
            final(self).seq_spec() == old(self).seq_spec(),
    {
        let ghost orig = self.storage;
        match self.storage.take(feed_id) {
            Some((i, k, mut f)) => {
                let added = f.title_alias_insert(name);
                self.storage.put_back(i, k, f, Ghost(orig));
                Some(added)
            },
            None => None,
        }
    }

    /// Removes the title alias `name` (trimmed) from feed `feed_id`; `None`
    /// where there is no such feed, else whether the alias was there.
    pub fn remove_title_alias(&mut self, feed_id: &str, name: &str) -> (r: Option<bool>)
        requires
            old(self).wf(),
        ensures
            final(self).wf(),
            r is None <==> old(self).store().get_spec(feed_id@) is None,
            forall|k: Seq<char>|
                k != feed_id@ ==> #[trigger] final(self).store().get_spec(k) == old(self).store().get_spec(k),
            match old(self).store().get_spec(feed_id@) {
                None => true,
                Some(f) => {
                    &&& final(self).store().get_spec(feed_id@) is Some
                    &&& r == Some(f.aliases_spec().contains(crate::text::trimmed(name@)))
                    &&& forall|t: Seq<char>| #[trigger]
                        final(self).store().get_spec(feed_id@)->0.aliases_spec().contains(t) <==> (
                        f.aliases_spec().contains(t) && t != crate::text::trimmed(name@))
                },
            },
            final(self).seq_spec() == old(self).seq_spec(),
    {
        let ghost orig = self.storage;
        match self.storage.take(feed_id) {
            Some((i, k, mut f)) => {
                let removed = f.title_alias_remove(name);
                self.storage.put_back(i, k, f, Ghost(orig));
                Some(removed)
            },
            None => None,
        }
    }

    /// Sets the display name of feed `feed_id`; says whether the feed exists.
    pub fn set_display_name(&mut self, feed_id: &str, name: String) -> (r: bool)
        requires
            old(self).wf(),
        ensures
            final(self).wf(),
            r == old(self).store().get_spec(feed_id@) is Some,
            forall|k: Seq<char>|
                k != feed_id@ ==> #[trigger] final(self).store().get_spec(k) == old(self).store().get_spec(k),
            r ==> final(self).store().get_spec(feed_id@) is Some && final(self).store().get_spec(
                feed_id@,
            )->0.display_name_spec() == Some(name@),
            final(self).seq_spec() == old(self).seq_spec(),
    {
        let ghost orig = self.storage;
        match self.storage.take(feed_id) {
            Some((i, k, mut f)) => {
                f.set_display_name(name);
                self.storage.put_back(i, k, f, Ghost(orig));
                true
            },
            None => false,
        }
    }

    /// The plan phase: every feed with a source url, with the identity keys
    /// of the items it holds, and the current sequence number.
    pub fn update_feeds_task(&self) -> (r: UpdateFeedsTask)
        requires
            self.wf(),
        ensures
            r.wf(),
            r.seq_spec() == self.seq_spec(),
            r.feeds_spec().map_values(|p: PlannedFeed| (p.feed_id@, p.feed_url@, crate::refresh::keys_view(p.existing@)))
                == planned(self.store().view_entries()),
    {
        let entries = self.storage.iter();
        let ghost ev = entries_view(entries@);
        let mut feeds: Vec<PlannedFeed> = Vec::new();
        let mut i: usize = 0;
        proof {
            self.storage.lemma_entries_unique();
        }
        while i < entries.len()
            invariant
                i <= entries@.len(),
                ev == entries_view(entries@),
                keys_unique(ev),
                feeds@.map_values(|p: PlannedFeed| (p.feed_id@, p.feed_url@, crate::refresh::keys_view(p.existing@)))
                    == planned(ev.subrange(0, i as int)),
                forall|a: int| 0 <= a < feeds@.len() ==> exists|b: int| 0 <= b < i && ev[b].0 == (#[trigger] feeds@[a]).feed_id@,
                keys_unique(plan_ids(feeds@)),
            decreases entries@.len() - i,
        {
            let ghost prev = feeds@;
            let f = &entries[i].1;
            proof {
                let sub = ev.subrange(0, i + 1);
                assert(sub.drop_last() =~= ev.subrange(0, i as int));
            }
            match f.feed_url() {
                Some(url) => {
                    let items = f.items();
                    let mut existing: Vec<crate::model::ItemKey> = Vec::new();
                    let mut j: usize = 0;
                    while j < items.len()
                        invariant
                            j <= items@.len(),
                            crate::refresh::keys_view(existing@) == items@.subrange(0, j as int).map_values(|m: FeedItemMeta| m.item.key_spec()),
                        decreases items@.len() - j,
                    {
                        let key = items[j].item.key();
                        let ghost prev_keys = existing@;
                        existing.push(key);
                        assert(crate::refresh::keys_view(existing@) =~= crate::refresh::keys_view(prev_keys).push(crate::model::key_view(key)));
                        assert(items@.subrange(0, j + 1).map_values(|m: FeedItemMeta| m.item.key_spec()) =~= items@.subrange(0, j as int).map_values(|m: FeedItemMeta| m.item.key_spec()).push(items@[j as int].item.key_spec()));
                        j = j + 1;
                        assert(crate::refresh::keys_view(existing@) =~= items@.subrange(0, j as int).map_values(|m: FeedItemMeta| m.item.key_spec()));
                    }
                    assert(items@.subrange(0, j as int) =~= items@);
                    let p = PlannedFeed {
                        feed_id: entries[i].0.clone(),
                        feed_url: url.to_owned(),
                        existing,
                    };
                    feeds.push(p);
                    proof {
                        assert(feeds@.map_values(|p: PlannedFeed| (p.feed_id@, p.feed_url@, crate::refresh::keys_view(p.existing@)))
                            =~= prev.map_values(|p: PlannedFeed| (p.feed_id@, p.feed_url@, crate::refresh::keys_view(p.existing@))).push(
                            (ev[i as int].0, url@, f.items_spec().map_values(|m: FeedItemMeta| m.item.key_spec())),
                        ));
                        assert forall|a: int, b: int| 0 <= a < b < plan_ids(feeds@).len() implies plan_ids(feeds@)[a].0 != plan_ids(feeds@)[b].0 by {
                            if b == prev.len() {
                                let c = choose|c: int| 0 <= c < i && ev[c].0 == prev[a].feed_id@;
                                assert(ev[c].0 != ev[i as int].0);
                            } else {
                                assert(plan_ids(feeds@)[a] == plan_ids(prev)[a]);
                                assert(plan_ids(feeds@)[b] == plan_ids(prev)[b]);
                            }
                        }
                        assert forall|a: int| 0 <= a < feeds@.len() implies exists|b: int| 0 <= b < i + 1 && ev[b].0 == (#[trigger] feeds@[a]).feed_id@ by {
                            if a == prev.len() {
                                assert(ev[i as int].0 == feeds@[a].feed_id@);
                            } else {
                                assert(feeds@[a] == prev[a]);
                                let c = choose|c: int| 0 <= c < i && ev[c].0 == prev[a].feed_id@;
                            }
                        }
                    }
                },
                None => {
                    assert forall|a: int| 0 <= a < feeds@.len() implies exists|b: int| 0 <= b < i + 1 && ev[b].0 == (#[trigger] feeds@[a]).feed_id@ by {
                        let c = choose|c: int| 0 <= c < i && ev[c].0 == feeds@[a].feed_id@;
                    }
                },
            }
            i = i + 1;
        }
        assert(ev.subrange(0, i as int) =~= ev);
        UpdateFeedsTask::new(feeds, self.update_seq_no)
    }

    /// The commit phase. A result planned at another sequence number than the
    /// current one is discarded whole (returns `false`). Otherwise each
    /// stored feed with an update gets the headers it does not hold yet and
    /// the new items in their places by date, the refresh time is set to now,
    /// and the sequence number rises by one for the whole batch.
    pub fn commit_from(&mut self, results: UpdateFeedsTaskResult) -> (r: bool)
        requires
            old(self).wf(),
            results.wf(),
            old(self).seq_spec() < u64::MAX,
        ensures
            r == (results.seq_spec() == old(self).seq_spec()),
            Self::committed(*old(self), results, *final(self)),
    {
        if results.seq_no() != self.update_seq_no {
            return false;
        }
        let ghost res = results;
        let ghost orig = self.storage;
        let ghost uv = results.updates_spec();
        let (updates, seq_no) = results.into_parts();
        let mut rest = updates;
        let n = rest.len();
        let mut i: usize = 0;
        while rest.len() > 0
            invariant
                n == uv.len(),
                i + rest@.len() == n,
                updates_view(rest@) == uv.subrange(i as int, n as int),
                keys_unique(uv),
                orig.wf(),
                orig == old(self).storage,
                self.lookup == old(self).lookup,
                self.user_data_storage == old(self).user_data_storage,
                self.update_seq_no == old(self).update_seq_no,
                self.last_feed_update == old(self).last_feed_update,
                seq_no == old(self).update_seq_no,
                uv == res.updates_spec(),
                self.storage.wf(),
                forall|id: Seq<char>| #[trigger]
                    self.storage.get_spec(id) is Some == orig.get_spec(id) is Some,
                forall|id: Seq<char>|
                    #![trigger self.storage.get_spec(id)]
                    match (orig.get_spec(id), assoc(uv.subrange(0, i as int), id)) {
                        (Some(f), Some(u)) => Feed::refreshed(f, u.0, u.1, self.storage.get_spec(id)->0),
                        _ => self.storage.get_spec(id) == orig.get_spec(id),
                    },
            decreases rest@.len(),
        {
            let ghost before_rest = rest@;
            let u = rest.remove(0);
            let ghost x = u.feed_id@;
            proof {
                assert(update_view(u) == uv[i as int]) by {
                    assert(updates_view(before_rest)[0] == uv.subrange(i as int, n as int)[0]);
                }
                assert(updates_view(rest@) =~= uv.subrange(i + 1, n as int)) by {
                    assert forall|a: int| 0 <= a < rest@.len() implies updates_view(rest@)[a] == uv.subrange(i + 1, n as int)[a] by {
                        assert(rest@[a] == before_rest[a + 1]);
                        assert(updates_view(before_rest)[a + 1] == uv.subrange(i as int, n as int)[a + 1]);
                    }
                }
                assert forall|a: int| 0 <= a < uv.subrange(0, i as int).len() implies uv.subrange(0, i as int)[a].0 != x by {
                    assert(uv[a].0 != uv[i as int].0);
                }
                lemma_assoc_absent(uv.subrange(0, i as int), x);
            }
            let ghost cur = self.storage;
            let FeedUpdate { feed_id, headers, items } = u;
            match self.storage.take(feed_id.as_str()) {
                Some((j, k, mut f)) => {
                    f.refresh(headers, items);
                    self.storage.put_back(j, k, f, Ghost(cur));
                },
                None => {},
            }
            proof {
                let sub = uv.subrange(0, i + 1);
                assert(sub.drop_last() =~= uv.subrange(0, i as int));
                assert(sub.last() == uv[i as int]);
            }
            i = i + 1;
        }
        assert(uv.subrange(0, n as int) =~= uv);
        self.last_feed_update = Some(now_timestamp());
        self.update_seq_no = seq_no + 1;
        true
    }

    /// The first half of importing an RSS url: where the url is already
    /// filed in the lookup, `initial_tags` are added to each stored feed filed
    /// under it and `true` is returned (nothing needs fetching); otherwise
    /// nothing changes and `false` is returned.
    pub fn import_known_rss(&mut self, url: &str, initial_tags: &Vec<String>) -> (r: bool)
        requires
            old(self).wf(),
        ensures
            final(self).wf(),
            Self::known_rss_imported(*old(self), url@, crate::feed::texts_view(initial_tags@), r, *final(self)),
    {
        let ids: Vec<FeedId> = match self.lookup.check_rss(url) {
            Some(ids) => clone_ids(ids),
            None => return false,
        };
        let ghost idv = crate::lookup::ids_view(ids);
        let ghost start = *self;
        let mut i: usize = 0;
        while i < ids.len()
            invariant
                i <= ids@.len(),
                idv == crate::lookup::ids_view(ids),
                self.wf(),
                Self::reimported(start, idv.subrange(0, i as int), crate::feed::texts_view(initial_tags@), *self),
            decreases ids@.len() - i,
        {
            let ghost before = *self;
            self.add_tags(ids[i].as_str(), initial_tags);
            proof {
                assert(idv.subrange(0, i + 1) =~= idv.subrange(0, i as int).push(idv[i as int]));
                lemma_reimport_step(start, idv.subrange(0, i as int), idv[i as int], crate::feed::texts_view(initial_tags@), before, *self);
            }
            i = i + 1;
        }
        assert(idv.subrange(0, i as int) =~= idv);
        true
    }

    /// The first half of an RSS import: `r` says whether any feed is filed
    /// under `url`; where one is, `tags` are added to each stored feed filed
    /// under it, and otherwise nothing changes.
    pub open spec fn known_rss_imported(before: Database, url: Seq<char>, tags: Seq<Seq<char>>, r: bool, after: Database) -> bool {
        &&& r == (before.lookup_spec().url_ids(url).len() > 0)
        &&& !r ==> after == before
        &&& r ==> Self::reimported(before, before.lookup_spec().url_ids(url), tags, after)
    }

    /// Whether `after` is `before` with `tags` added to every stored feed
    /// whose id is in `ids`, and nothing else changed.
    pub open spec fn reimported(before: Database, ids: Seq<Seq<char>>, tags: Seq<Seq<char>>, after: Database) -> bool {
        &&& forall|k: Seq<char>| #[trigger] after.store().get_spec(k) is Some == before.store().get_spec(k) is Some
        &&& forall|k: Seq<char>|
            !ids.contains(k) ==> #[trigger] after.store().get_spec(k) == before.store().get_spec(k)
        &&& forall|k: Seq<char>|
            ids.contains(k) && before.store().get_spec(k) is Some ==> {
                &&& Feed::same_identity_but_tags(before.store().get_spec(k)->0, #[trigger] after.store().get_spec(k)->0)
                &&& forall|t: Seq<char>| #[trigger]
                    after.store().get_spec(k)->0.tags_spec().contains(t) <==> (
                    before.store().get_spec(k)->0.tags_spec().contains(t) || tags.contains(t))
            }
        &&& after.lookup_spec() == before.lookup_spec()
        &&& after.user_spec() == before.user_spec()
        &&& after.seq_spec() == before.seq_spec()
        &&& after.last_update_spec() == before.last_update_spec()
    }

    /// The second half of importing an RSS url that was not filed yet: a
    /// feed named after the fetched document's `title`, with the url and the
    /// initial tags, is inserted.
    pub fn import_new_rss(&mut self, url: &str, title: &str, initial_tags: &Vec<String>) -> (r: FeedId)
        requires
            old(self).wf(),
        ensures
            final(self).wf(),
            exists|item: Feed|
                #[trigger] Self::inserted(*old(self), item, r@, *final(self)) && new_rss_item(
                    item,
                    url@,
                    title@,
                    crate::feed::texts_view(initial_tags@),
                ),
    {
        let mut source = Feed::new(title.to_owned());
        source.set_feed_url(Some(url.to_owned()));
        source.extend_tags(initial_tags);
        let ghost item = source;
        let r = self.insert(source);
        assert(Self::inserted(*old(self), item, r@, *self));
        r
    }

    /// Imports the outline trees `cs` under the feed `parent` (at position
    /// `parent_idx` of `ids`), appending each node's id to `ids` in pre-order.
    fn import_forest(
        &mut self,
        cs: &Vec<OutlineTree>,
        parent: Option<&FeedId>,
        parent_idx: Option<usize>,
        initial_tags: &Vec<String>,
        ids: &mut Vec<FeedId>,
        nodes: &mut Ghost<Seq<(crate::feed::Outline, Option<nat>)>>,
        states: &mut Ghost<Seq<Database>>,
        items: &mut Ghost<Seq<Feed>>,
    )
        requires
            old(self).wf(),
            import_chain(old(nodes)@, crate::feed::texts_view(initial_tags@), old(states)@, old(items)@, id_views(old(ids)@)),
            old(states)@.last() == *old(self),
            match parent_idx {
                Some(p) => p < old(ids)@.len() && parent is Some && parent->0@ == old(ids)@[p as int]@,
                None => parent is None,
            },
        ensures
            final(self).wf(),
            final(nodes)@ == old(nodes)@ + preorder(cs@, cs@.len(), opt_nat(parent_idx), old(ids)@.len()),
            import_chain(final(nodes)@, crate::feed::texts_view(initial_tags@), final(states)@, final(items)@, id_views(final(ids)@)),
            final(states)@.last() == *final(self),
            final(ids)@.subrange(0, old(ids)@.len() as int) == old(ids)@,
            final(states)@.subrange(0, old(states)@.len() as int) == old(states)@,
            final(items)@.subrange(0, old(items)@.len() as int) == old(items)@,
        decreases cs,
    {
        let ghost tags = crate::feed::texts_view(initial_tags@);
        let ghost nodes0 = nodes@;
        let ghost ids0 = ids@;
        let ghost states0 = states@;
        let ghost items0 = items@;
        let ghost base = ids@.len();
        let mut i: usize = 0;
        assert(nodes0 + preorder(cs@, 0, opt_nat(parent_idx), base) =~= nodes0);
        while i < cs.len()
            invariant
                self.wf(),
                i <= cs@.len(),
                tags == crate::feed::texts_view(initial_tags@),
                base == ids0.len(),
                nodes0.len() == base,
                states0.len() == base + 1,
                items0.len() == base,
                ids@.len() >= base,
                nodes@ == nodes0 + preorder(cs@, i as nat, opt_nat(parent_idx), base),
                ids@.len() == nodes@.len(),
                import_chain(nodes@, tags, states@, items@, id_views(ids@)),
                states@.last() == *self,
                ids@.subrange(0, ids0.len() as int) == ids0,
                states@.subrange(0, states0.len() as int) == states0,
                items@.subrange(0, items0.len() as int) == items0,
                match parent_idx {
                    Some(p) => p < ids0.len() && parent is Some && parent->0@ == ids0[p as int]@,
                    None => parent is None,
                },
            decreases cs@.len() - i,
        {
            let node = &cs[i].outline;
            let name = match &node.title {
                Some(t) => t.clone(),
                None => node.text.clone(),
            };
            let rss = crate::model::opt_str_clone(&node.xml_url);
            let mut source = Feed::new(name);
            source.set_feed_url(rss);
            source.set_opml(Some(node.copy()));
            source.set_parent(
                match parent {
                    Some(p) => Some(p.clone()),
                    None => None,
                },
            );
            source.extend_tags(initial_tags);
            let ghost item = source;
            let ghost pre_state = *self;
            let k = ids.len();
            let id = self.insert(source);
            let pid = id.clone();
            proof {
                assert(cs@[i as int] == cs[i as int]);
                let pv = match parent_idx {
                    Some(p) => Some(ids@[p as int]@),
                    None => None,
                };
                match parent_idx {
                    Some(p) => {
                        assert(ids@.subrange(0, ids0.len() as int)[p as int] == ids0[p as int]);
                    },
                    None => {},
                }
                assert(outline_item(item, cs@[i as int].outline, pv, tags));
                lemma_chain_push(nodes@, tags, states@, items@, id_views(ids@), (cs@[i as int].outline, opt_nat(parent_idx)), item, id@, *self);
                assert(id_views(ids@.push(id)) =~= id_views(ids@).push(id@));
            }
            let ghost ids_before = ids@;
            let ghost states_before = states@;
            let ghost items_before = items@;
            ids.push(id);
            proof {
                nodes@ = nodes@.push((cs@[i as int].outline, opt_nat(parent_idx)));
                states@ = states@.push(*self);
                items@ = items@.push(item);
                assert(ids@.subrange(0, ids0.len() as int) =~= ids_before.subrange(0, ids0.len() as int));
                assert(states@.subrange(0, states0.len() as int) =~= states_before.subrange(0, states0.len() as int));
                assert(items@.subrange(0, items0.len() as int) =~= items_before.subrange(0, items0.len() as int));
                broadcast use vstd::std_specs::vec::group_vec_axioms;
                assert(decreases_to!(cs => cs[i as int]));
                assert(decreases_to!(cs[i as int] => cs[i as int].children));
            }
            let ghost nodes_mid = nodes@;
            let ghost ids_mid = ids@;
            let ghost states_mid = states@;
            let ghost items_mid = items@;
            self.import_forest(&cs[i].children, Some(&pid), Some(k), initial_tags, ids, nodes, states, items);
            proof {
                assert(cs@[i as int] == cs[i as int]);
                lemma_preorder_step(cs@, i as nat, opt_nat(parent_idx), base);
                assert(ids@.subrange(0, ids0.len() as int) =~= ids@.subrange(0, ids_mid.len() as int).subrange(0, ids0.len() as int));
                assert(states@.subrange(0, states0.len() as int) =~= states@.subrange(0, states_mid.len() as int).subrange(0, states0.len() as int));
                assert(items@.subrange(0, items0.len() as int) =~= items@.subrange(0, items_mid.len() as int).subrange(0, items0.len() as int));
                assert(nodes@ =~= nodes0 + preorder(cs@, (i + 1) as nat, opt_nat(parent_idx), base));
            }
            i = i + 1;
        }
    }

    /// Imports an OPML document's outlines: for each outline node, in
    /// pre-order (a node before the nodes nested under it, siblings in
    /// order), a feed named by its title (else its text), with its `xmlUrl` as
    /// url, the node as its outline, the initial tags, and as parent the id of
    /// the node above it (none at the top level) is inserted. Returns the ids
    /// the nodes got, in pre-order.
    pub fn import_from_opml(&mut self, outlines: &Vec<OutlineTree>, initial_tags: &Vec<String>) -> (r: Vec<FeedId>)
        requires
            old(self).wf(),
        ensures
            final(self).wf(),
            exists|states: Seq<Database>, items: Seq<Feed>|
                #[trigger] import_chain(preorder(outlines@, outlines@.len(), None, 0), crate::feed::texts_view(initial_tags@), states, items, id_views(r@))
                && states[0] == *old(self) && states.last() == *final(self),
    {
        let mut ids: Vec<FeedId> = Vec::new();
        let ghost n0: Seq<(crate::feed::Outline, Option<nat>)> = Seq::empty();
        let ghost s0: Seq<Database> = seq![*self];
        let ghost i0: Seq<Feed> = Seq::empty();
        let mut nodes = Ghost(n0);
        let mut states = Ghost(s0);
        let mut items = Ghost(i0);
        assert(id_views(ids@) =~= Seq::<Seq<char>>::empty());
        self.import_forest(outlines, None, None, initial_tags, &mut ids, &mut nodes, &mut states, &mut items);
        proof {
            assert(Seq::<(crate::feed::Outline, Option<nat>)>::empty() + preorder(outlines@, outlines@.len(), None, 0) =~= nodes@);
            assert(states@[0] == states@.subrange(0, 1)[0]);
        }
        ids
    }
}

/// Whether `item` is the feed an RSS import makes for a url not filed yet:
/// named by the document's title, with the url, no parent, no outline and
/// exactly the initial tags.
pub open spec fn new_rss_item(item: Feed, url: Seq<char>, title: Seq<char>, tags: Seq<Seq<char>>) -> bool {
    &&& item.wf()
    &&& item.name_spec() == title
    &&& item.url_spec() == Some(url)
    &&& item.parent_spec() is None
    &&& item.opml_spec() is None
    &&& forall|t: Seq<char>| #[trigger] item.tags_spec().contains(t) <==> tags.contains(t)
}

/// Importing a url twice: the first import finds no feed filed under the
/// url, so nothing changes and a new feed is inserted for it (tags `first`),
/// which files the url under the new feed's id; the second import (tags
/// `second`) then finds that feed, creates none, and leaves it with the union
/// of both tag sets.
pub proof fn lemma_import_twice_unites_tags(
    db0: Database,
    url: Seq<char>,
    first: Seq<Seq<char>>,
    r1: bool,
    db0a: Database,
    item: Feed,
    title: Seq<char>,
    id: Seq<char>,
    db1: Database,
    second: Seq<Seq<char>>,
    r2: bool,
    db2: Database,
)
    requires
        db0.lookup_spec().url_ids(url).len() == 0,
        Database::known_rss_imported(db0, url, first, r1, db0a),
        db0a.store().get_spec(id) is None,
        Database::inserted(db0a, item, id, db1),
        new_rss_item(item, url, title, first),
        Database::known_rss_imported(db1, url, second, r2, db2),
    ensures
        !r1,
        r2,
        db1.lookup_spec().url_ids(url) == seq![id],
        forall|k: Seq<char>| #[trigger]
            db2.store().get_spec(k) is Some == (k == id || db0.store().get_spec(k) is Some),
        forall|t: Seq<char>| #[trigger]
            db2.store().get_spec(id)->0.tags_spec().contains(t) <==> (first.contains(t) || second.contains(t)),
{
    assert(db0a == db0);
    assert(db1.lookup_spec().url_ids(url) == add_unique(db0.lookup_spec().url_ids(url), id));
    assert(!db0.lookup_spec().url_ids(url).contains(id));
    assert(add_unique(db0.lookup_spec().url_ids(url), id) =~= seq![id]);
    assert(r2);
    assert forall|k: Seq<char>| #[trigger]
        db2.store().get_spec(k) is Some == (k == id || db0.store().get_spec(k) is Some) by {
        assert(db2.store().get_spec(k) is Some == db1.store().get_spec(k) is Some);
        if k != id {
            assert(db1.store().get_spec(k) == db0.store().get_spec(k));
        }
    }
    lemma_reimport_unites_tags(db1, url, id, second, db2);
}

/// The first refresh of a feed that holds no items yet: when the result
/// was run against that feed's empty snapshot with the fetched document `d`
/// and is committed without conflict, the feed holds every item of `d`,
/// oldest first, and the sequence number has risen by one.
pub proof fn lemma_first_refresh_stores_all(
    db0: Database,
    res: UpdateFeedsTaskResult,
    db1: Database,
    p: PlannedFeed,
    d: crate::model::FeedDownload,
)
    requires
        db0.wf(),
        res.seq_spec() == db0.seq_spec(),
        Database::committed(db0, res, db1),
        p.existing@.len() == 0,
        db0.store().get_spec(p.feed_id@) is Some,
        db0.store().get_spec(p.feed_id@)->0.items_spec().len() == 0,
        db0.store().get_spec(p.feed_id@)->0.items_counter_spec()
            + crate::adapter::download_items(d).len() <= usize::MAX,
        res.update_for(p.feed_id@) == Some(crate::refresh::update_of(p, d).1),
    ensures
        db1.seq_spec() == db0.seq_spec() + 1,
        db1.store().get_spec(p.feed_id@) is Some,
        db1.store().get_spec(p.feed_id@)->0.items_spec().len()
            == crate::adapter::download_items(d).len(),
        crate::feed::metas_sorted(db1.store().get_spec(p.feed_id@)->0.items_spec()),
{
    let id = p.feed_id@;
    let f = db0.store().get_spec(id)->0;
    let items = crate::model::sorted_items(crate::adapter::download_items(d));
    crate::model::lemma_strip_keys_sorted(crate::adapter::download_items(d));
    assert(crate::refresh::keys_view(p.existing@) =~= Seq::<crate::refresh::KeyView>::empty());
    crate::refresh::lemma_fresh_items_empty_snapshot(items);
    assert(db1.store().get_spec(id) is Some);
    crate::feed::lemma_add_items_len(f.items_spec(), items, f.items_counter_spec());
    lemma_stored_items_sorted(db1, id);
}

/// The decision for one entry of the declarative import list: an entry not
/// yet marked is processed (returns `true`) and is marked, so a later run of
/// the import skips it; a marked entry is skipped and stays marked.
pub fn take_import_entry(ignore: &mut bool) -> (r: bool)
    ensures
        r == !*old(ignore),
        *final(ignore),
{
    let pending = !*ignore;
    *ignore = true;
    pending
}

/// Submitting a feed under an id that is already stored adds no feed: the
/// same ids are stored before and after.
pub proof fn lemma_insert_known_id_keeps_feeds(db0: Database, item: Feed, id: Seq<char>, db1: Database)
    requires
        Database::inserted(db0, item, id, db1),
        db0.store().get_spec(id) is Some,
    ensures
        forall|k: Seq<char>| #[trigger] db1.store().get_spec(k) is Some == db0.store().get_spec(k) is Some,
{
    assert forall|k: Seq<char>| #[trigger] db1.store().get_spec(k) is Some == db0.store().get_spec(k) is Some by {
        if k != id {
            assert(db1.store().get_spec(k) == db0.store().get_spec(k));
        }
    }
}

/// A well-formed database lists each feed id once.
pub proof fn lemma_store_ids_unique(db: Database)
    requires
        db.wf(),
    ensures
        keys_unique(db.store().view_entries()),
{
    db.storage.lemma_entries_unique();
}

/// An optional position as a natural number.
pub open spec fn opt_nat(p: Option<usize>) -> Option<nat> {
    match p {
        Some(x) => Some(x as nat),
        None => None,
    }
}

/// The views of a list of ids.
pub open spec fn id_views(v: Seq<FeedId>) -> Seq<Seq<char>> {
    v.map_values(|s: FeedId| s@)
}

/// The nodes of the first `n` trees of `cs` in pre-order (a node, then the
/// nodes nested under it), each with the position of the node above it:
/// `parent` for the roots, positions counted from `base` for the rest.
pub open spec fn preorder(cs: Seq<OutlineTree>, n: nat, parent: Option<nat>, base: nat) -> Seq<
    (crate::feed::Outline, Option<nat>),
>
    decreases cs, n,
{
    if n == 0 || n > cs.len() {
        seq![]
    } else {
        let prev = preorder(cs, (n - 1) as nat, parent, base);
        let root = base + prev.len();
        prev.push((cs[n - 1].outline, parent)) + preorder(
            cs[n - 1].children@,
            cs[n - 1].children@.len(),
            Some(root),
            root + 1,
        )
    }
}

proof fn lemma_preorder_step(cs: Seq<OutlineTree>, i: nat, parent: Option<nat>, base: nat)
    requires
        i < cs.len(),
    ensures
        preorder(cs, i + 1, parent, base) == preorder(cs, i, parent, base).push((cs[i as int].outline, parent))
            + preorder(
            cs[i as int].children@,
            cs[i as int].children@.len(),
            Some(base + preorder(cs, i, parent, base).len()),
            base + preorder(cs, i, parent, base).len() + 1,
        ),
{
    let n1: nat = i + 1;
    assert(cs[n1 - 1] == cs[i as int]);
    assert((n1 - 1) as nat == i);
}

/// Whether `states` is a run of inserts, one per node of `nodes`: the `k`-th
/// insert takes `states[k]` to `states[k + 1]`, submits `items[k]` (the feed
/// made for the node, with as parent the id of the node above it, or none)
/// and gives it the id `ids[k]`.
pub open spec fn import_chain(
    nodes: Seq<(crate::feed::Outline, Option<nat>)>,
    tags: Seq<Seq<char>>,
    states: Seq<Database>,
    items: Seq<Feed>,
    ids: Seq<Seq<char>>,
) -> bool {
    &&& states.len() == nodes.len() + 1
    &&& items.len() == nodes.len()
    &&& ids.len() == nodes.len()
    &&& forall|k: int|
        0 <= k < nodes.len() ==> {
            &&& outline_item(
                #[trigger] items[k],
                nodes[k].0,
                match nodes[k].1 {
                    Some(p) => Some(ids[p as int]),
                    None => None,
                },
                tags,
            )
            &&& (nodes[k].1 is Some ==> nodes[k].1->0 < k)
            &&& Database::inserted(states[k], items[k], ids[k], states[k + 1])
        }
}

proof fn lemma_chain_push(
    nodes: Seq<(crate::feed::Outline, Option<nat>)>,
    tags: Seq<Seq<char>>,
    states: Seq<Database>,
    items: Seq<Feed>,
    ids: Seq<Seq<char>>,
    node: (crate::feed::Outline, Option<nat>),
    item: Feed,
    id: Seq<char>,
    after: Database,
)
    requires
        import_chain(nodes, tags, states, items, ids),
        node.1 is Some ==> node.1->0 < nodes.len(),
        outline_item(item, node.0, match node.1 { Some(p) => Some(ids[p as int]), None => None }, tags),
        Database::inserted(states.last(), item, id, after),
    ensures
        import_chain(nodes.push(node), tags, states.push(after), items.push(item), ids.push(id)),
{
    let n2 = nodes.push(node);
    let s2 = states.push(after);
    let i2 = items.push(item);
    let d2 = ids.push(id);
    assert forall|k: int| 0 <= k < n2.len() implies {
        &&& outline_item(
            #[trigger] i2[k],
            n2[k].0,
            match n2[k].1 {
                Some(p) => Some(d2[p as int]),
                None => None,
            },
            tags,
        )
        &&& (n2[k].1 is Some ==> n2[k].1->0 < k)
        &&& Database::inserted(s2[k], i2[k], d2[k], s2[k + 1])
    } by {
        if k < nodes.len() {
            assert(i2[k] == items[k]);
            if nodes[k].1 is Some {
                assert(d2[nodes[k].1->0 as int] == ids[nodes[k].1->0 as int]);
            }
        } else {
            if node.1 is Some {
                assert(d2[node.1->0 as int] == ids[node.1->0 as int]);
            }
        }
    }
}

/// Whether `item` is the feed made for the outline node `node`: named by its
/// title (else its text), with its `xmlUrl` as url, the node as its outline,
/// `parent` as parent and exactly the tags `tags`.
pub open spec fn outline_item(
    item: Feed,
    node: crate::feed::Outline,
    parent: Option<Seq<char>>,
    tags: Seq<Seq<char>>,
) -> bool {
    &&& item.wf()
    &&& item.name_spec() == outline_name(node)
    &&& item.url_spec() == crate::model::opt_view(node.xml_url)
    &&& item.opml_spec() == Some(node)
    &&& item.parent_spec() == parent
    &&& forall|t: Seq<char>| #[trigger] item.tags_spec().contains(t) <==> tags.contains(t)
}

/// After a restart the lookup is rebuilt from the stored feeds (as `init`
/// ensures), so a source resolves to the id it is stored under, provided
/// that no other stored feed has its url.
pub proof fn lemma_restart_resolves_stored_id(
    db: Database,
    id: Seq<char>,
    name: Seq<char>,
    url: Seq<char>,
)
    requires
        db.wf(),
        forall|u: Seq<char>, x: Seq<char>| #[trigger]
            db.lookup_spec().url_ids(u).contains(x) <==> exists|i: int|
                0 <= i < db.store().view_entries().len() && db.store().view_entries()[i].0 == x
                    && db.store().view_entries()[i].1.url_spec() == Some(u),
        exists|i: int|
            0 <= i < db.store().view_entries().len() && db.store().view_entries()[i].0 == id
                && db.store().view_entries()[i].1.url_spec() == Some(url),
        forall|i: int|
            0 <= i < db.store().view_entries().len() && (#[trigger] db.store().view_entries()[i]).1.url_spec()
                == Some(url) ==> db.store().view_entries()[i].0 == id,
    ensures
        db.lookup_spec().check_spec(name, Some(url)) == Some(id),
{
    let ids = db.lookup_spec().url_ids(url);
    db.lookup.lemma_url_ids_no_duplicates(url);
    assert(ids.contains(id));
    assert forall|k: int| 0 <= k < ids.len() implies ids[k] == id by {
        assert(ids.contains(ids[k]));
    }
    if ids.len() > 1 {
        assert(ids[0] == id && ids[1] == id);
    }
    assert(ids.len() == 1);
}

/// Every stored feed of a well-formed database holds its items in order of
/// effective date; every operation that changes the database keeps it well
/// formed, so this holds after each of them.
pub proof fn lemma_stored_items_sorted(db: Database, id: Seq<char>)
    requires
        db.wf(),
        db.store().get_spec(id) is Some,
    ensures
        crate::feed::metas_sorted(db.store().get_spec(id)->0.items_spec()),
{
    db.storage.lemma_feeds_wf(id);
    db.store().get_spec(id)->0.lemma_wf_items_sorted();
}

/// Two refresh cycles planned at the same sequence number: once the first has
/// committed, the commit of the second is discarded whole, and the sequence
/// number has risen by exactly one.
pub proof fn lemma_conflict_discard(
    db0: Database,
    a: UpdateFeedsTaskResult,
    b: UpdateFeedsTaskResult,
    db1: Database,
    db2: Database,
)
    requires
        a.seq_spec() == db0.seq_spec(),
        b.seq_spec() == db0.seq_spec(),
        Database::committed(db0, a, db1),
        Database::committed(db1, b, db2),
    ensures
        db2 == db1,
        db2.seq_spec() == db0.seq_spec() + 1,
{
}

/// Importing a known url again creates no feed: the set of stored ids stays
/// the same, and the feed filed under the url (when it is the only one) ends
/// up with the union of the tags it had and the new ones.
pub proof fn lemma_reimport_unites_tags(
    db1: Database,
    url: Seq<char>,
    id: Seq<char>,
    tags: Seq<Seq<char>>,
    db2: Database,
)
    requires
        db1.lookup_spec().url_ids(url) == seq![id],
        db1.store().get_spec(id) is Some,
        Database::reimported(db1, db1.lookup_spec().url_ids(url), tags, db2),
    ensures
        forall|k: Seq<char>| #[trigger]
            db2.store().get_spec(k) is Some == db1.store().get_spec(k) is Some,
        forall|t: Seq<char>| #[trigger]
            db2.store().get_spec(id)->0.tags_spec().contains(t) <==> (db1.store().get_spec(
                id,
            )->0.tags_spec().contains(t) || tags.contains(t)),
        forall|k: Seq<char>| k != id ==> #[trigger] db2.store().get_spec(k) == db1.store().get_spec(k),
{
    assert(seq![id].contains(id)) by {
        assert(seq![id][0] == id);
    }
    assert forall|k: Seq<char>| k != id implies #[trigger] db2.store().get_spec(k)
        == db1.store().get_spec(k) by {
        assert(!seq![id].contains(k));
    }
}

/// The name of the feed made from an OPML outline: its title, else its text.
pub open spec fn outline_name(o: crate::feed::Outline) -> Seq<char> {
    match o.title {
        Some(t) => t@,
        None => o.text@,
    }
}

/// The position of the first item of `s` numbered `id`.
pub open spec fn first_with_id(s: Seq<FeedItemMeta>, id: usize) -> Option<int>
    decreases s.len(),
{
    if s.len() == 0 {
        None
    } else {
        match first_with_id(s.drop_last(), id) {
            Some(k) => Some(k),
            None => if s.last().id == id {
                Some(s.len() - 1)
            } else {
                None
            },
        }
    }
}

/// Whether marking read up to the item numbered `id` in `s` marks the item
/// numbered `x`: some item numbered `x` is dated no later than that item.
pub open spec fn read_until(s: Seq<FeedItemMeta>, id: usize, x: usize) -> bool {
    match first_with_id(s, id) {
        Some(k) => exists|m: int|
            0 <= m < s.len() && s[m].id == x && s[m].item.date_spec() <= s[k].item.date_spec(),
        None => false,
    }
}

proof fn lemma_first_with_id_none(s: Seq<FeedItemMeta>, id: usize)
    requires
        forall|j: int| 0 <= j < s.len() ==> s[j].id != id,
    ensures
        first_with_id(s, id) is None,
    decreases s.len(),
{
    if s.len() > 0 {
        lemma_first_with_id_none(s.drop_last(), id);
    }
}

proof fn lemma_first_with_id_at(s: Seq<FeedItemMeta>, id: usize, k: int)
    requires
        0 <= k < s.len(),
        s[k].id == id,
        forall|j: int| 0 <= j < k ==> s[j].id != id,
    ensures
        first_with_id(s, id) == Some(k),
    decreases s.len(),
{
    if k < s.len() - 1 {
        lemma_first_with_id_at(s.drop_last(), id, k);
    } else {
        lemma_first_with_id_none(s.drop_last(), id);
    }
}

/// The items of one feed, each with the feed's id.
pub open spec fn feed_items(id: Seq<char>, items: Seq<FeedItemMeta>) -> Seq<(Seq<char>, FeedItemMeta)> {
    items.map_values(|m: FeedItemMeta| (id, m))
}

/// The items of all feeds, feed after feed, each with its feed's id.
pub open spec fn all_items(es: Seq<(Seq<char>, Feed)>) -> Seq<(Seq<char>, FeedItemMeta)>
    decreases es.len(),
{
    if es.len() == 0 {
        seq![]
    } else {
        all_items(es.drop_last()) + feed_items(es.last().0, es.last().1.items_spec())
    }
}

/// Each item paired with its effective date.
pub open spec fn keyed_all(s: Seq<(Seq<char>, FeedItemMeta)>) -> Seq<(i64, (Seq<char>, FeedItemMeta))> {
    s.map_values(|p: (Seq<char>, FeedItemMeta)| (p.1.item.date_spec(), p))
}

proof fn lemma_keyed_all_concat(a: Seq<(Seq<char>, FeedItemMeta)>, b: Seq<(Seq<char>, FeedItemMeta)>)
    ensures
        keyed_all(a + b) == keyed_all(a) + keyed_all(b),
{
    assert(keyed_all(a + b) =~= keyed_all(a) + keyed_all(b));
}

/// The plan of a refresh over the entries `es`: each feed with a url, with
/// the url and the identity keys of its items, in order.
pub open spec fn planned(es: Seq<(Seq<char>, Feed)>) -> Seq<(Seq<char>, Seq<char>, Seq<crate::refresh::KeyView>)>
    decreases es.len(),
{
    if es.len() == 0 {
        seq![]
    } else {
        let prev = planned(es.drop_last());
        match es.last().1.url_spec() {
            Some(u) => prev.push(
                (es.last().0, u, es.last().1.items_spec().map_values(|m: FeedItemMeta| m.item.key_spec())),
            ),
            None => prev,
        }
    }
}

/// Copies a list of ids.
fn clone_ids(ids: &Vec<FeedId>) -> (r: Vec<FeedId>)
    ensures
        crate::lookup::ids_view(r) == crate::lookup::ids_view(*ids),
{
    let mut r: Vec<FeedId> = Vec::new();
    let mut i: usize = 0;
    while i < ids.len()
        invariant
            i <= ids@.len(),
            crate::lookup::ids_view(r) == crate::lookup::ids_view(*ids).subrange(0, i as int),
        decreases ids@.len() - i,
    {
        let c = ids[i].clone();
        let ghost prev = r@;
        r.push(c);
        assert(r@ == prev.push(c));
        assert(crate::lookup::ids_view(r) =~= crate::lookup::ids_view(*ids).subrange(0, i as int).push(ids@[i as int]@));
        i = i + 1;
        assert(crate::lookup::ids_view(r) =~= crate::lookup::ids_view(*ids).subrange(0, i as int));
    }
    assert(crate::lookup::ids_view(*ids).subrange(0, i as int) =~= crate::lookup::ids_view(*ids));
    r
}

proof fn lemma_reimport_step(
    start: Database,
    done: Seq<Seq<char>>,
    id: Seq<char>,
    tags: Seq<Seq<char>>,
    before: Database,
    after: Database,
)
    requires
        Database::reimported(start, done, tags, before),
        Database::tags_added(before, id, tags, after),
    ensures
        Database::reimported(start, done.push(id), tags, after),
{
    let d2 = done.push(id);
    assert forall|k: Seq<char>| d2.contains(k) <==> (done.contains(k) || k == id) by {
        if d2.contains(k) {
            let j = choose|j: int| 0 <= j < d2.len() && d2[j] == k;
            if j < done.len() {
                assert(done[j] == k);
            }
        }
        if done.contains(k) {
            let j = choose|j: int| 0 <= j < done.len() && done[j] == k;
            assert(d2[j] == k);
        }
        if k == id {
            assert(d2[done.len() as int] == k);
        }
    }
    assert forall|k: Seq<char>| #[trigger] after.store().get_spec(k) is Some == start.store().get_spec(k) is Some by {
        if k != id {
            assert(after.store().get_spec(k) == before.store().get_spec(k));
        }
        assert(before.store().get_spec(k) is Some == start.store().get_spec(k) is Some);
    }
    assert forall|k: Seq<char>|
        !d2.contains(k) implies #[trigger] after.store().get_spec(k) == start.store().get_spec(k) by {
        assert(k != id);
        assert(after.store().get_spec(k) == before.store().get_spec(k));
    }
    assert forall|k: Seq<char>|
        d2.contains(k) && start.store().get_spec(k) is Some implies {
            &&& Feed::same_identity_but_tags(start.store().get_spec(k)->0, #[trigger] after.store().get_spec(k)->0)
            &&& forall|t: Seq<char>| #[trigger]
                after.store().get_spec(k)->0.tags_spec().contains(t) <==> (
                start.store().get_spec(k)->0.tags_spec().contains(t) || tags.contains(t))
        } by {
        assert(before.store().get_spec(k) is Some);
        if k == id {
            if done.contains(k) {
            } else {
                assert(before.store().get_spec(k) == start.store().get_spec(k));
            }
        } else {
            assert(after.store().get_spec(k) == before.store().get_spec(k));
        }
    }
}

} // verus!
