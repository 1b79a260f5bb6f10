//! The feed aggregate store (feeds keyed by id, in order of insertion) and
//! the per-feed read state.
use vstd::prelude::*;

use crate::assoc::{
    assoc, find_key, keys_unique, lemma_assoc_absent, lemma_assoc_found, lemma_assoc_push,
    lemma_assoc_update,
};
use crate::feed::Feed;
use crate::lookup::{FeedId, SourceLookup};

verus! {

/// The view of the store's entries: each id with its feed.
pub open spec fn entries_view(v: Seq<(FeedId, Feed)>) -> Seq<(Seq<char>, Feed)> {
    v.map_values(|e: (FeedId, Feed)| (e.0@, e.1))
}

/// All feeds, keyed by id.
pub struct Storage {
    sources: Vec<(FeedId, Feed)>,
}

impl Storage {
    /// Ids are distinct and every feed is well formed.
    pub closed spec fn wf(self) -> bool {
        &&& keys_unique(entries_view(self.sources@))
        &&& forall|i: int| 0 <= i < self.sources@.len() ==> (#[trigger] self.sources@[i]).1.wf()
    }

    /// The entries, in order of insertion.
    pub closed spec fn view_entries(self) -> Seq<(Seq<char>, Feed)> {
        entries_view(self.sources@)
    }

    /// The raw entries.
    pub closed spec fn raw(self) -> Seq<(FeedId, Feed)> {
        self.sources@
    }

    /// The feed stored under `id`.
    pub open spec fn get_spec(self, id: Seq<char>) -> Option<Feed> {
        assoc(self.view_entries(), id)
    }

    proof fn lemma_found(self, i: int)
        requires
            self.wf(),
            0 <= i < self.sources@.len(),
        ensures
            self.get_spec(self.sources@[i].0@) == Some(self.sources@[i].1),
    {
        lemma_assoc_found(entries_view(self.sources@), i);
    }

    proof fn lemma_absent(self, id: Seq<char>)
        requires
            forall|i: int| 0 <= i < self.sources@.len() ==> self.sources@[i].0@ != id,
        ensures
            self.get_spec(id) is None,
    {
        assert forall|i: int| 0 <= i < entries_view(self.sources@).len() implies entries_view(
            self.sources@,
        )[i].0 != id by {
            assert(entries_view(self.sources@)[i].0 == self.sources@[i].0@);
        }
        lemma_assoc_absent(entries_view(self.sources@), id);
    }

    /// The ids of the entries are distinct.
    pub proof fn lemma_entries_unique(self)
        requires
            self.wf(),
        ensures
            keys_unique(self.view_entries()),
    {
    }

    /// Every stored feed is well formed.
    pub proof fn lemma_feeds_wf(self, id: Seq<char>)
        requires
            self.wf(),
            self.get_spec(id) is Some,
        ensures
            self.get_spec(id)->0.wf(),
    {
        crate::assoc::lemma_assoc_some(entries_view(self.sources@), id);
        let i = choose|i: int|
            0 <= i < entries_view(self.sources@).len() && entries_view(self.sources@)[i].0 == id;
        lemma_assoc_found(entries_view(self.sources@), i);
        assert(self.sources@[i].1.wf());
    }

    /// An empty store.
    pub fn new() -> (r: Self)
        ensures
            r.wf(),
            r.view_entries().len() == 0,
            forall|id: Seq<char>| #[trigger] r.get_spec(id) is None,
    {
        let r = Storage { sources: Vec::new() };
        proof {
            assert forall|id: Seq<char>| #[trigger] r.get_spec(id) is None by {
                r.lemma_absent(id);
            }
        }
        r
    }

    /// Replaces the feed under `id`, or adds it where there is none.
    pub fn put(&mut self, id: FeedId, feed: Feed)
        requires
            old(self).wf(),
            feed.wf(),
        ensures
            final(self).wf(),
            forall|k: Seq<char>| #[trigger]
                final(self).get_spec(k) == if k == id@ {
                    Some(feed)
                } else {
                    old(self).get_spec(k)
                },
    {
        let ghost before = self.sources@;
        match find_key(&self.sources, id.as_str()) {
            Some(i) => {
                self.sources.set(i, (clone_id(&self.sources[i].0), feed));
                proof {
                    assert(entries_view(self.sources@) =~= entries_view(before).update(
                        i as int,
                        (entries_view(before)[i as int].0, feed),
                    ));
                    assert forall|k: Seq<char>| #[trigger]
                        self.get_spec(k) == if k == id@ {
                            Some(feed)
                        } else {
                            old(self).get_spec(k)
                        } by {
                        lemma_assoc_update(entries_view(before), i as int, feed, k);
                    }
                    lemma_assoc_update(entries_view(before), i as int, feed, id@);
                    assert forall|j: int| 0 <= j < self.sources@.len() implies (
                    #[trigger] self.sources@[j]).1.wf() by {
                        if j != i {
                            assert(self.sources@[j] == before[j]);
                        }
                    }
                }
            },
            None => {
                proof {
                    old(self).lemma_absent(id@);
                }
                let ghost idv = id@;
                self.sources.push((id, feed));
                proof {
                    assert(entries_view(self.sources@) =~= entries_view(before).push((idv, feed)));
                    assert forall|k: Seq<char>| #[trigger]
                        self.get_spec(k) == if k == idv {
                            Some(feed)
                        } else {
                            old(self).get_spec(k)
                        } by {
                        lemma_assoc_push(entries_view(before), idv, feed, k);
                    }
                    lemma_assoc_push(entries_view(before), idv, feed, idv);
                    assert forall|j: int| 0 <= j < self.sources@.len() implies (
                    #[trigger] self.sources@[j]).1.wf() by {
                        if j < before.len() {
                            assert(self.sources@[j] == before[j]);
                        }
                    }
                }
            },
        }
    }

    /// Takes the feed under `id` out of the store, if there is one, to be
    /// put back with `put_back`.
    pub(crate) fn take(&mut self, id: &str) -> (r: Option<(usize, FeedId, Feed)>)
        requires
            old(self).wf(),
        ensures
            match r {
                Some((i, k, f)) => {
                    &&& old(self).get_spec(id@) == Some(f)
                    &&& k@ == id@
                    &&& f.wf()
                    &&& i < old(self).raw().len()
                    &&& final(self).raw() == old(self).raw().remove(i as int)
                    &&& old(self).raw()[i as int] == (k, f)
                },
                None => old(self).get_spec(id@) is None && *final(self) == *old(self),
            },
    {
        match find_key(&self.sources, id) {
            Some(i) => {
                proof {
                    self.lemma_found(i as int);
                    let e = self.sources@[i as int];
                    assert(e.1.wf());
                }
                let (k, f) = self.sources.remove(i);
                Some((i, k, f))
            },
            None => {
                proof {
                    self.lemma_absent(id@);
                }
                None
            },
        }
    }

    /// Puts back, at its place, the entry that `take` took out of `orig`.
    pub(crate) fn put_back(&mut self, i: usize, k: FeedId, f: Feed, Ghost(orig): Ghost<Storage>)
        requires
            orig.wf(),
            f.wf(),
            i < orig.raw().len(),
            orig.raw()[i as int].0 == k,
            old(self).raw() == orig.raw().remove(i as int),
        ensures
            final(self).wf(),
            forall|key: Seq<char>| #[trigger]
                final(self).get_spec(key) == if key == k@ {
                    Some(f)
                } else {
                    orig.get_spec(key)
                },
    {
        let ghost kv = k@;
        self.sources.insert(i, (k, f));
        proof {
            let before = orig.sources@;
            assert(self.sources@ =~= before.update(i as int, (before[i as int].0, f)));
            assert(entries_view(self.sources@) =~= entries_view(before).update(
                i as int,
                (entries_view(before)[i as int].0, f),
            ));
            assert forall|key: Seq<char>| #[trigger]
                self.get_spec(key) == if key == kv {
                    Some(f)
                } else {
                    orig.get_spec(key)
                } by {
                lemma_assoc_update(entries_view(before), i as int, f, key);
            }
            lemma_assoc_update(entries_view(before), i as int, f, kv);
            assert forall|j: int| 0 <= j < self.sources@.len() implies (
            #[trigger] self.sources@[j]).1.wf() by {
                if j != i {
                    assert(self.sources@[j] == before[j]);
                }
            }
        }
    }

    /// The stored entries with their feeds, in order of insertion.
    pub fn iter(&self) -> (r: &Vec<(FeedId, Feed)>)
        ensures
            entries_view(r@) == self.view_entries(),
    {
        &self.sources
    }

    /// The feed stored under `feed_id`.
    pub fn get(&self, feed_id: &str) -> (r: Option<&Feed>)
        requires
            self.wf(),
        ensures
            match r {
                Some(f) => self.get_spec(feed_id@) == Some(*f),
                None => self.get_spec(feed_id@) is None,
            },
    {
        match find_key(&self.sources, feed_id) {
            Some(i) => {
                proof {
                    self.lemma_found(i as int);
                }
                Some(&self.sources[i].1)
            },
            None => {
                proof {
                    self.lemma_absent(feed_id@);
                }
                None
            },
        }
    }

    /// Files every stored feed in `lookup` under its name and url.
    pub fn write_to_cache(&self, lookup: &mut SourceLookup)
        requires
            old(lookup).wf(),
        ensures
            final(lookup).wf(),
            forall|n: Seq<char>, id: Seq<char>| #[trigger]
                final(lookup).title_ids(n).contains(id) <==> (old(lookup).title_ids(n).contains(id)
                    || exists|i: int|
                    0 <= i < self.view_entries().len() && self.view_entries()[i].0 == id
                        && self.view_entries()[i].1.name_spec() == n),
            forall|u: Seq<char>, id: Seq<char>| #[trigger]
                final(lookup).url_ids(u).contains(id) <==> (old(lookup).url_ids(u).contains(id)
                    || exists|i: int|
                    0 <= i < self.view_entries().len() && self.view_entries()[i].0 == id
                        && self.view_entries()[i].1.url_spec() == Some(u)),
    {
        let ghost l0 = *lookup;
        let ghost ev = self.view_entries();
        let mut i: usize = 0;
        while i < self.sources.len()
            invariant
                i <= self.sources@.len(),
                ev == entries_view(self.sources@),
                lookup.wf(),
                forall|n: Seq<char>, id: Seq<char>| #[trigger]
                    lookup.title_ids(n).contains(id) <==> (l0.title_ids(n).contains(id)
                        || exists|j: int|
                        0 <= j < i && ev[j].0 == id && ev[j].1.name_spec() == n),
                forall|u: Seq<char>, id: Seq<char>| #[trigger]
                    lookup.url_ids(u).contains(id) <==> (l0.url_ids(u).contains(id)
                        || exists|j: int|
                        0 <= j < i && ev[j].0 == id && ev[j].1.url_spec() == Some(u)),
            decreases self.sources@.len() - i,
        {
            let ghost prev = *lookup;
            let key = self.sources[i].1.key();
            lookup.touch(&self.sources[i].0, key);
            proof {
                let idv = ev[i as int].0;
                assert(idv == self.sources@[i as int].0@);
                assert forall|n: Seq<char>, id: Seq<char>| #[trigger]
                    lookup.title_ids(n).contains(id) <==> (l0.title_ids(n).contains(id)
                        || exists|j: int|
                        0 <= j < i + 1 && ev[j].0 == id && ev[j].1.name_spec() == n) by {
                    crate::assoc::lemma_add_unique_contains(prev.title_ids(n), idv);
                    if n == ev[i as int].1.name_spec() && id == idv {
                        assert(ev[i as int].0 == id);
                    }
                    if exists|j: int| 0 <= j < i + 1 && ev[j].0 == id && ev[j].1.name_spec() == n {
                        let j = choose|j: int|
                            0 <= j < i + 1 && ev[j].0 == id && ev[j].1.name_spec() == n;
                        if j < i {
                        }
                    }
                }
                assert forall|u: Seq<char>, id: Seq<char>| #[trigger]
                    lookup.url_ids(u).contains(id) <==> (l0.url_ids(u).contains(id)
                        || exists|j: int|
                        0 <= j < i + 1 && ev[j].0 == id && ev[j].1.url_spec() == Some(u)) by {
                    crate::assoc::lemma_add_unique_contains(prev.url_ids(u), idv);
                    if ev[i as int].1.url_spec() == Some(u) && id == idv {
                        assert(ev[i as int].0 == id);
                    }
                    if exists|j: int|
                        0 <= j < i + 1 && ev[j].0 == id && ev[j].1.url_spec() == Some(u) {
                        let j = choose|j: int|
                            0 <= j < i + 1 && ev[j].0 == id && ev[j].1.url_spec() == Some(u);
                        if j < i {
                        }
                    }
                }
            }
            i = i + 1;
        }
    }
}

/// The items of one feed that were marked read, by sequence id.
#[derive(Clone, Debug)]
pub struct FeedUserData {
    pub read_ids: Vec<usize>,
}

impl FeedUserData {
    /// The ids marked read.
    pub fn read_ids(&self) -> (r: &Vec<usize>)
        ensures
            r@ == self.read_ids@,
    {
        &self.read_ids
    }
}

/// The view of the read state: each feed id with the item ids marked read.
pub open spec fn user_view(v: Seq<(FeedId, FeedUserData)>) -> Seq<(Seq<char>, Seq<usize>)> {
    v.map_values(|e: (FeedId, FeedUserData)| (e.0@, e.1.read_ids@))
}

/// The read state of all feeds.
pub struct UserDataStorage {
    storage: Vec<(FeedId, FeedUserData)>,
}

impl UserDataStorage {
    /// Feed ids are distinct.
    pub closed spec fn wf(self) -> bool {
        keys_unique(user_view(self.storage@))
    }

    /// The item ids of feed `id` marked read.
    pub closed spec fn read_spec(self, id: Seq<char>) -> Seq<usize> {
        match assoc(user_view(self.storage@), id) {
            Some(r) => r,
            None => seq![],
        }
    }

    /// The read state loaded from storage, or an empty one where none could
    /// be loaded. Entries for the same feed id are united.
    pub fn open_or_default(loaded: Option<Vec<(FeedId, Vec<usize>)>>) -> (r: Self)
        ensures
            r.wf(),
            forall|id: Seq<char>, x: usize| #[trigger]
                r.read_spec(id).contains(x) <==> match loaded {
                    Some(v) => loaded_marks(v@, id, x),
                    None => false,
                },
    {
        let mut r = UserDataStorage { storage: Vec::new() };
        proof {
            assert forall|id: Seq<char>| #[trigger] r.read_spec(id).len() == 0 by {
                lemma_assoc_absent(user_view(r.storage@), id);
            }
        }
        match loaded {
            Some(entries) => {
                let ghost ev = entries@;
                let mut i: usize = 0;
                while i < entries.len()
                    invariant
                        i <= entries@.len(),
                        ev == entries@,
                        r.wf(),
                        forall|id: Seq<char>, x: usize| #[trigger]
                            r.read_spec(id).contains(x) <==> loaded_marks(ev.subrange(0, i as int), id, x),
                    decreases entries@.len() - i,
                {
                    let ghost before = r;
                    let mut j: usize = 0;
                    while j < entries[i].1.len()
                        invariant
                            i < entries@.len(),
                            ev == entries@,
                            j <= entries@[i as int].1@.len(),
                            r.wf(),
                            forall|id: Seq<char>, x: usize| #[trigger]
                                r.read_spec(id).contains(x) <==> (before.read_spec(id).contains(x) || (id
                                    == ev[i as int].0@ && ev[i as int].1@.subrange(0, j as int).contains(x))),
                        decreases entries@[i as int].1@.len() - j,
                    {
                        r.mark_read(&entries[i].0, entries[i].1[j]);
                        proof {
                            let w = ev[i as int].1@;
                            let a = w.subrange(0, j as int);
                            let b = w.subrange(0, j as int + 1);
                            assert(b =~= a.push(w[j as int]));
                            crate::assoc::lemma_add_unique_contains(a, w[j as int]);
                            assert forall|x: usize| b.contains(x) <==> (a.contains(x) || x == w[j as int]) by {
                                if b.contains(x) {
                                    let q = choose|q: int| 0 <= q < b.len() && b[q] == x;
                                    if q < a.len() {
                                        assert(a[q] == x);
                                    }
                                }
                                if a.contains(x) {
                                    let q = choose|q: int| 0 <= q < a.len() && a[q] == x;
                                    assert(b[q] == x);
                                }
                                if x == w[j as int] {
                                    assert(b[a.len() as int] == x);
                                }
                            }
                        }
                        j = j + 1;
                    }
                    proof {
                        assert(ev[i as int].1@.subrange(0, j as int) =~= ev[i as int].1@);
                        let pre = ev.subrange(0, i + 1);
                        assert(pre.drop_last() =~= ev.subrange(0, i as int));
                        assert(pre.last() == ev[i as int]);
                    }
                    i = i + 1;
                }
                assert(ev.subrange(0, i as int) =~= ev);
            },
            None => {},
        }
        r
    }

    /// The stored read state, feed by feed.
    pub fn entries(&self) -> (r: &Vec<(FeedId, FeedUserData)>)
        ensures
            forall|id: Seq<char>| #[trigger]
                self.read_spec(id) == match assoc(user_view(r@), id) {
                    Some(x) => x,
                    None => Seq::<usize>::empty(),
                },
    {
        &self.storage
    }

    /// Marks item `item_id` of feed `feed_id` read.
    pub fn mark_read(&mut self, feed_id: &FeedId, item_id: usize)
        requires
            old(self).wf(),
        ensures
            final(self).wf(),
            forall|id: Seq<char>, x: usize| #[trigger]
                final(self).read_spec(id).contains(x) <==> (old(self).read_spec(id).contains(x)
                    || (id == feed_id@ && x == item_id)),
    {
        let ghost before = self.storage@;
        match find_key(&self.storage, feed_id.as_str()) {
            Some(i) => {
                proof {
                    lemma_assoc_found(user_view(before), i as int);
                }
                let (k, mut d) = self.storage.remove(i);
                let ghost old_ids = d.read_ids@;
                if !contains_id(&d.read_ids, item_id) {
                    d.read_ids.push(item_id);
                }
                let ghost new_ids = d.read_ids@;
                self.storage.insert(i, (k, d));
                proof {
                    assert(user_view(self.storage@) =~= user_view(before).update(
                        i as int,
                        (user_view(before)[i as int].0, new_ids),
                    ));
                    crate::assoc::lemma_add_unique_contains(old_ids, item_id);
                    assert(new_ids == crate::assoc::add_unique(old_ids, item_id));
                    assert forall|id: Seq<char>, x: usize| #[trigger]
                        self.read_spec(id).contains(x) <==> (old(self).read_spec(id).contains(x)
                            || (id == feed_id@ && x == item_id)) by {
                        lemma_assoc_update(user_view(before), i as int, new_ids, id);
                    }
                    lemma_assoc_update(user_view(before), i as int, new_ids, feed_id@);
                }
            },
            None => {
                proof {
                    assert forall|j: int| 0 <= j < user_view(before).len() implies user_view(
                        before,
                    )[j].0 != feed_id@ by {
                        assert(user_view(before)[j].0 == before[j].0@);
                    }
                    lemma_assoc_absent(user_view(before), feed_id@);
                }
                let mut ids: Vec<usize> = Vec::new();
                ids.push(item_id);
                let ghost new_ids = ids@;
                self.storage.push((feed_id.clone(), FeedUserData { read_ids: ids }));
                proof {
                    assert(user_view(self.storage@) =~= user_view(before).push((feed_id@, new_ids)));
                    assert forall|id: Seq<char>, x: usize| #[trigger]
                        self.read_spec(id).contains(x) <==> (old(self).read_spec(id).contains(x)
                            || (id == feed_id@ && x == item_id)) by {
                        lemma_assoc_push(user_view(before), feed_id@, new_ids, id);
                        if id == feed_id@ {
                            assert(new_ids[0] == item_id);
                            if new_ids.contains(x) {
                                assert(new_ids.len() == 1);
                            }
                        }
                    }
                    lemma_assoc_push(user_view(before), feed_id@, new_ids, feed_id@);
                }
            },
        }
    }
}

/// Whether the loaded entries `v` mark item `x` of feed `id` read.
pub open spec fn loaded_marks(v: Seq<(FeedId, Vec<usize>)>, id: Seq<char>, x: usize) -> bool
    decreases v.len(),
{
    if v.len() == 0 {
        false
    } else {
        loaded_marks(v.drop_last(), id, x) || (v.last().0@ == id && v.last().1@.contains(x))
    }
}

/// Whether `v` lists `x`.
fn contains_id(v: &Vec<usize>, x: usize) -> (r: bool)
    ensures
        r == v@.contains(x),
{
    let mut i: usize = 0;
    while i < v.len()
        invariant
            i <= v@.len(),
            forall|j: int| 0 <= j < i ==> v@[j] != x,
        decreases v@.len() - i,
    {
        if v[i] == x {
            return true;
        }
        i = i + 1;
    }
    false
}

/// Whether a document written out as `new_size` bytes may replace the one
/// of `old_size` bytes on disk: only where it is not smaller, unless
/// shrinking was explicitly allowed. A refused write leaves the old
/// document in place.
pub fn replace_allowed(new_size: u64, old_size: u64, allow_shrink: bool) -> (r: bool)
    ensures
        r == (allow_shrink || new_size >= old_size),
        !allow_shrink && new_size < old_size ==> !r,
{
    allow_shrink || new_size >= old_size
}

/// Clones an id.
fn clone_id(k: &FeedId) -> (r: FeedId)
    ensures
        r == *k,
{
    k.clone()
}

} // verus!
