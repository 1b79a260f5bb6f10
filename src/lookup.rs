//! Identity and lookup: resolves a (name, source url) pair to an existing feed
//! id through a title index and a url index, or mints a content-derived id.
use sha2::Digest;
use vstd::prelude::*;
use vstd::string::*;
use vstd::utf8::encode_utf8;

use crate::assoc::{
    add_unique, assoc, find_key, keys_unique, lemma_assoc_absent, lemma_assoc_found,
    lemma_assoc_push, lemma_assoc_update,
};
use crate::text::{same_text, string_of};

verus! {

/// The stable identity of a feed.
pub type FeedId = String;

/// What identifies a source: its name and, where it has one, its url.
pub struct LookupKey<'a> {
    pub name: &'a str,
    pub feed_url: Option<&'a str>,
}

/// The view of an optional text.
pub open spec fn opt_str_view(o: Option<&str>) -> Option<Seq<char>> {
    match o {
        Some(s) => Some(s@),
        None => None,
    }
}

/// The views of a list of ids.
pub open spec fn ids_view(ids: Vec<FeedId>) -> Seq<Seq<char>> {
    ids@.map_values(|s: String| s@)
}

/// The view of an index: each key with the ids filed under it.
pub open spec fn index_view(v: Seq<(String, Vec<FeedId>)>) -> Seq<(Seq<char>, Seq<Seq<char>>)> {
    v.map_values(|e: (String, Vec<FeedId>)| (e.0@, ids_view(e.1)))
}

/// An index is well formed when its keys are distinct and every key lists
/// at least one id, none twice.
pub open spec fn index_wf(v: Seq<(String, Vec<FeedId>)>) -> bool {
    &&& keys_unique(index_view(v))
    &&& forall|i: int| 0 <= i < v.len() ==> (#[trigger] ids_view(v[i].1)).no_duplicates()
    &&& forall|i: int| 0 <= i < v.len() ==> (#[trigger] v[i].1)@.len() > 0
}

/// The ids filed under `k`; empty where none are.
pub open spec fn ids_under(v: Seq<(String, Vec<FeedId>)>, k: Seq<char>) -> Seq<Seq<char>> {
    match assoc(index_view(v), k) {
        Some(ids) => ids,
        None => seq![],
    }
}

/// The two indices over the stored feeds: source url to ids and title to ids.
pub struct SourceLookup {
    rss_lookup: Vec<(String, Vec<FeedId>)>,
    title_lookup: Vec<(String, Vec<FeedId>)>,
}

/// The id that the lookup resolves a (name, url) pair to: the one id filed
/// under the url, else the one id filed under the name, else none.
pub open spec fn resolve(
    url_ids: Seq<Seq<char>>,
    title_ids: Seq<Seq<char>>,
) -> Option<Seq<char>> {
    if url_ids.len() == 1 {
        Some(url_ids[0])
    } else if title_ids.len() == 1 {
        Some(title_ids[0])
    } else {
        None
    }
}

proof fn lemma_ids_under_at(v: Seq<(String, Vec<FeedId>)>, i: int)
    requires
        index_wf(v),
        0 <= i < v.len(),
    ensures
        ids_under(v, v[i].0@) == ids_view(v[i].1),
{
    lemma_assoc_found(index_view(v), i);
}

proof fn lemma_ids_under_none(v: Seq<(String, Vec<FeedId>)>, k: Seq<char>)
    requires
        forall|i: int| 0 <= i < v.len() ==> v[i].0@ != k,
    ensures
        ids_under(v, k) == Seq::<Seq<char>>::empty(),
{
    assert forall|i: int| 0 <= i < index_view(v).len() implies index_view(v)[i].0 != k by {
        assert(index_view(v)[i].0 == v[i].0@);
    }
    lemma_assoc_absent(index_view(v), k);
}

/// Whether `ids` lists `id`.
fn ids_contain(ids: &Vec<FeedId>, id: &str) -> (r: bool)
    ensures
        r == ids_view(*ids).contains(id@),
{
    let mut i: usize = 0;
    while i < ids.len()
        invariant
            i <= ids@.len(),
            forall|j: int| 0 <= j < i ==> ids@[j]@ != id@,
        decreases ids@.len() - i,
    {
        if same_text(ids[i].as_str(), id) {
            assert(ids_view(*ids)[i as int] == id@);
            return true;
        }
        i = i + 1;
    }
    proof {
        if ids_view(*ids).contains(id@) {
            let j = choose|j: int| 0 <= j < ids_view(*ids).len() && ids_view(*ids)[j] == id@;
            assert(ids@[j]@ == id@);
        }
    }
    false
}

/// Files `id` under `key` in the index `v`.
fn file_id(v: &mut Vec<(String, Vec<FeedId>)>, key: &str, id: &FeedId)
    requires
        index_wf(old(v)@),
    ensures
        index_wf(final(v)@),
        forall|k: Seq<char>|
            #![trigger ids_under(final(v)@, k)]
            ids_under(final(v)@, k) == if k == key@ {
                add_unique(ids_under(old(v)@, k), id@)
            } else {
                ids_under(old(v)@, k)
            },
{
    let ghost before = v@;
    match find_key(v, key) {
        Some(i) => {
            proof {
                lemma_ids_under_at(before, i as int);
            }
            let (k, mut ids) = v.remove(i);
            let ghost old_ids = ids_view(ids);
            if !ids_contain(&ids, id.as_str()) {
                ids.push(id.clone());
                assert(ids_view(ids) =~= old_ids.push(id@));
            }
            assert(ids_view(ids) == add_unique(old_ids, id@));
            v.insert(i, (k, ids));
            assert(v@ =~= before.update(i as int, (k, ids)));
            assert(index_view(v@) =~= index_view(before).update(
                i as int,
                (index_view(before)[i as int].0, ids_view(ids)),
            ));
            proof {
                assert forall|k2: Seq<char>| #[trigger]
                    ids_under(v@, k2) == if k2 == key@ {
                        add_unique(ids_under(before, k2), id@)
                    } else {
                        ids_under(before, k2)
                    } by {
                    lemma_assoc_update(index_view(before), i as int, ids_view(ids), k2);
                }
                lemma_assoc_update(index_view(before), i as int, ids_view(ids), key@);
                assert forall|j: int| 0 <= j < v@.len() implies (#[trigger] ids_view(
                    v@[j].1,
                )).no_duplicates() by {
                    if j != i {
                        assert(v@[j] == before[j]);
                    }
                }
            }
        },
        None => {
            proof {
                lemma_ids_under_none(before, key@);
                assert forall|i: int| 0 <= i < index_view(before).len() implies index_view(
                    before,
                )[i].0 != key@ by {
                    assert(index_view(before)[i].0 == before[i].0@);
                }
                lemma_assoc_absent(index_view(before), key@);
            }
            let mut ids: Vec<FeedId> = Vec::new();
            ids.push(id.clone());
            let ghost new_ids = ids_view(ids);
            assert(new_ids =~= seq![id@]);
            assert(add_unique(Seq::<Seq<char>>::empty(), id@) =~= seq![id@]);
            v.push((key.to_owned(), ids));
            assert(index_view(v@) =~= index_view(before).push((key@, new_ids)));
            proof {
                assert forall|k2: Seq<char>| #[trigger]
                    ids_under(v@, k2) == if k2 == key@ {
                        add_unique(ids_under(before, k2), id@)
                    } else {
                        ids_under(before, k2)
                    } by {
                    lemma_assoc_push(index_view(before), key@, new_ids, k2);
                }
                lemma_assoc_push(index_view(before), key@, new_ids, key@);
                assert forall|j: int| 0 <= j < v@.len() implies (#[trigger] ids_view(
                    v@[j].1,
                )).no_duplicates() by {
                    if j < before.len() {
                        assert(v@[j] == before[j]);
                    }
                }
            }
        },
    }
}

impl SourceLookup {
    /// Both indices are well formed.
    pub closed spec fn wf(self) -> bool {
        index_wf(self.rss_lookup@) && index_wf(self.title_lookup@)
    }

    /// The ids filed under the title `name`.
    pub closed spec fn title_ids(self, name: Seq<char>) -> Seq<Seq<char>> {
        ids_under(self.title_lookup@, name)
    }

    /// The ids filed under the source url `url`.
    pub closed spec fn url_ids(self, url: Seq<char>) -> Seq<Seq<char>> {
        ids_under(self.rss_lookup@, url)
    }

    /// No url lists an id twice.
    pub proof fn lemma_url_ids_no_duplicates(self, url: Seq<char>)
        requires
            self.wf(),
        ensures
            self.url_ids(url).no_duplicates(),
    {
        let v = self.rss_lookup@;
        if assoc(index_view(v), url) is Some {
            crate::assoc::lemma_assoc_some(index_view(v), url);
            let i = choose|i: int| 0 <= i < index_view(v).len() && index_view(v)[i].0 == url;
            lemma_assoc_found(index_view(v), i);
            assert(ids_view(v[i].1).no_duplicates());
        }
    }

    /// The ids filed under the url of `url`, where there is one.
    pub open spec fn url_ids_opt(self, url: Option<Seq<char>>) -> Seq<Seq<char>> {
        match url {
            Some(u) => self.url_ids(u),
            None => seq![],
        }
    }

    /// The url index entry for `url`, where there is one.
    pub closed spec fn url_entry(self, url: Seq<char>) -> Option<Seq<Seq<char>>> {
        assoc(index_view(self.rss_lookup@), url)
    }

    /// The id that the lookup resolves `name` and `url` to.
    pub open spec fn check_spec(self, name: Seq<char>, url: Option<Seq<char>>) -> Option<
        Seq<char>,
    > {
        resolve(self.url_ids_opt(url), self.title_ids(name))
    }

    /// Whether `after` is `before` with `id` filed under `name` and, where
    /// given, under `url`.
    pub open spec fn touched(
        before: Self,
        after: Self,
        id: Seq<char>,
        name: Seq<char>,
        url: Option<Seq<char>>,
    ) -> bool {
        &&& after.wf()
        &&& forall|n: Seq<char>|
            #![trigger after.title_ids(n)]
            after.title_ids(n) == if n == name {
                add_unique(before.title_ids(n), id)
            } else {
                before.title_ids(n)
            }
        &&& forall|u: Seq<char>|
            #![trigger after.url_ids(u)]
            after.url_ids(u) == if url == Some(u) {
                add_unique(before.url_ids(u), id)
            } else {
                before.url_ids(u)
            }
    }

    /// An empty lookup.
    pub fn new() -> (r: Self)
        ensures
            r.wf(),
            forall|n: Seq<char>| #[trigger] r.title_ids(n) == Seq::<Seq<char>>::empty(),
            forall|u: Seq<char>| #[trigger] r.url_ids(u) == Seq::<Seq<char>>::empty(),
    {
        let r = SourceLookup { rss_lookup: Vec::new(), title_lookup: Vec::new() };
        proof {
            assert forall|n: Seq<char>| #[trigger]
                r.title_ids(n) == Seq::<Seq<char>>::empty() by {
                lemma_ids_under_none(r.title_lookup@, n);
            }
            assert forall|u: Seq<char>| #[trigger] r.url_ids(u) == Seq::<Seq<char>>::empty() by {
                lemma_ids_under_none(r.rss_lookup@, u);
            }
        }
        r
    }

    /// Files `feed_id` under the key's title and, where it has one, its url.
    pub fn touch(&mut self, feed_id: &FeedId, key: LookupKey<'_>)
        requires
            old(self).wf(),
        ensures
            Self::touched(*old(self), *final(self), feed_id@, key.name@, opt_str_view(key.feed_url)),
    {
        file_id(&mut self.title_lookup, key.name, feed_id);
        match key.feed_url {
            Some(rss) => {
                file_id(&mut self.rss_lookup, rss, feed_id);
            },
            None => {},
        }
    }

    /// The existing id for a source: the one id filed under its url, else the
    /// one id filed under its name; `None` where there is none or more than one.
    pub fn check(&self, key: LookupKey<'_>) -> (r: Option<FeedId>)
        requires
            self.wf(),
        ensures
            match r {
                Some(id) => self.check_spec(key.name@, opt_str_view(key.feed_url)) == Some(id@),
                None => self.check_spec(key.name@, opt_str_view(key.feed_url)) is None,
            },
    {
        let u = match key.feed_url {
            Some(url) => find_key(&self.rss_lookup, url),
            None => None,
        };
        proof {
            match key.feed_url {
                Some(url) => match u {
                    Some(i) => lemma_ids_under_at(self.rss_lookup@, i as int),
                    None => lemma_ids_under_none(self.rss_lookup@, url@),
                },
                None => {},
            }
        }
        if let Some(i) = u {
            if self.rss_lookup[i].1.len() == 1 {
                return Some(self.rss_lookup[i].1[0].clone());
            }
        }
        let t = find_key(&self.title_lookup, key.name);
        proof {
            match t {
                Some(i) => lemma_ids_under_at(self.title_lookup@, i as int),
                None => lemma_ids_under_none(self.title_lookup@, key.name@),
            }
        }
        if let Some(i) = t {
            if self.title_lookup[i].1.len() == 1 {
                return Some(self.title_lookup[i].1[0].clone());
            }
        }
        None
    }

    /// The ids filed under the source url `url`, if any entry exists for it.
    pub fn check_rss(&self, url: &str) -> (r: Option<&Vec<FeedId>>)
        requires
            self.wf(),
        ensures
            match r {
                Some(ids) => self.url_entry(url@) == Some(ids_view(*ids)),
                None => self.url_entry(url@) is None,
            },
            self.url_entry(url@) is Some ==> self.url_ids(url@) == self.url_entry(url@)->0,
            r is None ==> self.url_ids(url@).len() == 0,
            r is Some <==> self.url_ids(url@).len() > 0,
    {
        match find_key(&self.rss_lookup, url) {
            Some(i) => {
                proof {
                    lemma_assoc_found(index_view(self.rss_lookup@), i as int);
                }
                Some(&self.rss_lookup[i].1)
            },
            None => {
                proof {
                    lemma_ids_under_none(self.rss_lookup@, url@);
                    assert forall|j: int|
                        0 <= j < index_view(self.rss_lookup@).len() implies index_view(
                        self.rss_lookup@,
                    )[j].0 != url@ by {
                        assert(index_view(self.rss_lookup@)[j].0 == self.rss_lookup@[j].0@);
                    }
                    lemma_assoc_absent(index_view(self.rss_lookup@), url@);
                }
                None
            },
        }
    }
}

/// Lowercase hexadecimal digits.
pub open spec fn hex_digits() -> Seq<char> {
    seq!['0', '1', '2', '3', '4', '5', '6', '7', '8', '9', 'a', 'b', 'c', 'd', 'e', 'f']
}

/// `b` written as lowercase hexadecimal, two digits per byte.
pub open spec fn hex_lower(b: Seq<u8>) -> Seq<char>
    decreases b.len(),
{
    if b.len() == 0 {
        seq![]
    } else {
        hex_lower(b.drop_last()) + seq![
            hex_digits()[(b.last() / 16) as int],
            hex_digits()[(b.last() % 16) as int],
        ]
    }
}

/// The SHA-256 digest of `data`.
pub uninterp spec fn sha256_of(data: Seq<u8>) -> Seq<u8>;

/// Relies on `sha2::Sha256::digest`, the SHA-256 digest of the bytes.
#[verifier::external_body]
fn sha256(data: &[u8]) -> (r: Vec<u8>)
    ensures
        r@ == sha256_of(data@),
{
    sha2::Sha256::digest(data).to_vec()
}

/// The id minted for a source never seen before: the hex-encoded SHA-256 of
/// the UTF-8 bytes of its name followed by those of its url.
pub open spec fn minted_id(name: Seq<char>, url: Option<Seq<char>>) -> Seq<char> {
    hex_lower(
        sha256_of(
            encode_utf8(name) + match url {
                Some(u) => encode_utf8(u),
                None => Seq::<u8>::empty(),
            },
        ),
    )
}

fn hex_encode(b: &Vec<u8>) -> (r: String)
    ensures
        r@ == hex_lower(b@),
{
    let digits = vec!['0', '1', '2', '3', '4', '5', '6', '7', '8', '9', 'a', 'b', 'c', 'd', 'e', 'f'];
    assert(digits@ =~= hex_digits());
    let mut out: Vec<char> = Vec::new();
    let mut i: usize = 0;
    while i < b.len()
        invariant
            i <= b@.len(),
            digits@ == hex_digits(),
            out@ == hex_lower(b@.subrange(0, i as int)),
        decreases b@.len() - i,
    {
        let x = b[i];
        out.push(digits[(x / 16) as usize]);
        out.push(digits[(x % 16) as usize]);
        i = i + 1;
        assert(b@.subrange(0, i as int).drop_last() =~= b@.subrange(0, i - 1));
        assert(out@ =~= hex_lower(b@.subrange(0, i as int)));
    }
    assert(b@.subrange(0, b@.len() as int) =~= b@);
    string_of(&out)
}

fn append_bytes(out: &mut Vec<u8>, s: &str)
    ensures
        final(out)@ == old(out)@ + encode_utf8(s@),
{
    let b = s.as_bytes();
    let mut i: usize = 0;
    let ghost start = out@;
    while i < b.len()
        invariant
            i <= b@.len(),
            b@ == encode_utf8(s@),
            out@ == start + b@.subrange(0, i as int),
        decreases b@.len() - i,
    {
        out.push(b[i]);
        i = i + 1;
        assert(out@ =~= start + b@.subrange(0, i as int));
    }
    assert(b@.subrange(0, b@.len() as int) =~= b@);
}

/// Mints the id of a source never seen before from its name and url.
pub fn mint_id(key: &LookupKey<'_>) -> (r: FeedId)
    ensures
        r@ == minted_id(key.name@, opt_str_view(key.feed_url)),
{
    let mut data: Vec<u8> = Vec::new();
    append_bytes(&mut data, key.name);
    match key.feed_url {
        Some(u) => append_bytes(&mut data, u),
        None => {
            assert(data@ =~= encode_utf8(key.name@) + Seq::<u8>::empty());
        },
    }
    let digest = sha256(data.as_slice());
    hex_encode(&digest)
}

} // verus!
