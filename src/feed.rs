//! The feed aggregate: one subscribed source with its headers, its items kept
//! in publish order, its tags and its title aliases.
use vstd::prelude::*;

use crate::lookup::{FeedId, LookupKey};
use crate::model::{
    header_eq, opt_view, same_header, FeedHeader, FeedHeaderMeta, FeedItem, FeedItemMeta,
};
use crate::order::{insert_by_key, keys_sorted, lemma_insert_by_key_at, lemma_insert_by_key_sorted};
use crate::text::{same_text, trim, trimmed};

verus! {

/// The attributes of an outline node of an OPML document.
#[derive(Clone, Debug)]
pub struct Outline {
    pub text: String,
    pub outline_type: Option<String>,
    pub title: Option<String>,
    pub xml_url: Option<String>,
    pub html_url: Option<String>,
    pub description: Option<String>,
}

impl Outline {
    /// A copy of the outline's attributes.
    pub fn copy(&self) -> (r: Outline)
        ensures
            r == *self,
    {
        Outline {
            text: self.text.clone(),
            outline_type: crate::model::opt_str_clone(&self.outline_type),
            title: crate::model::opt_str_clone(&self.title),
            xml_url: crate::model::opt_str_clone(&self.xml_url),
            html_url: crate::model::opt_str_clone(&self.html_url),
            description: crate::model::opt_str_clone(&self.description),
        }
    }
}

/// An outline node of an OPML document with the nodes nested under it.
#[derive(Debug)]
pub struct OutlineTree {
    pub outline: Outline,
    pub children: Vec<OutlineTree>,
}

/// The views of a list of strings.
pub open spec fn texts_view(v: Seq<String>) -> Seq<Seq<char>> {
    v.map_values(|s: String| s@)
}

/// Each stored item paired with its effective date.
pub open spec fn keyed_metas(s: Seq<FeedItemMeta>) -> Seq<(i64, FeedItemMeta)> {
    s.map_values(|m: FeedItemMeta| (m.item.date_spec(), m))
}

/// Whether the effective dates of the stored items never decrease.
pub open spec fn metas_sorted(s: Seq<FeedItemMeta>) -> bool {
    forall|i: int, j: int|
        0 <= i < j < s.len() ==> s[i].item.date_spec() <= s[j].item.date_spec()
}

/// `s` with `x` placed after every item whose date is not later than `x`'s.
pub open spec fn insert_item(s: Seq<FeedItemMeta>, x: FeedItemMeta) -> Seq<FeedItemMeta> {
    insert_by_key(keyed_metas(s), (x.item.date_spec(), x)).map_values(
        |p: (i64, FeedItemMeta)| p.1,
    )
}

/// `s` with the items of `new` inserted in turn, numbered from `next`.
pub open spec fn add_items(s: Seq<FeedItemMeta>, new: Seq<FeedItem>, next: nat) -> Seq<
    FeedItemMeta,
>
    decreases new.len(),
{
    if new.len() == 0 {
        s
    } else {
        insert_item(
            add_items(s, new.drop_last(), next),
            FeedItemMeta { id: (next + new.len() - 1) as usize, item: new.last() },
        )
    }
}

/// Whether `s` holds a header with the same values as `h`.
pub open spec fn has_header(s: Seq<FeedHeaderMeta>, h: FeedHeader) -> bool {
    exists|i: int| 0 <= i < s.len() && same_header(s[i].header, h)
}

/// One subscribed source and all items ever seen from it.
#[derive(Clone, Debug)]
pub struct Feed {
    name: String,
    feed_url: Option<String>,
    opml: Option<Outline>,
    feed_headers: Vec<FeedHeader>,
    feed_headers_v2: Vec<FeedHeaderMeta>,
    feed_headers_counter: usize,
    feeds: Vec<FeedItem>,
    feeds_v2: Vec<FeedItemMeta>,
    feeds_counter: usize,
    parent: Option<FeedId>,
    tags: Vec<String>,
    title_aliases: Vec<String>,
    display_name: Option<String>,
}

proof fn lemma_push_contains<A>(s: Seq<A>, x: A)
    ensures
        forall|t: A| #[trigger] s.push(x).contains(t) <==> (s.contains(t) || t == x),
        s.no_duplicates() && !s.contains(x) ==> s.push(x).no_duplicates(),
{
    assert forall|t: A| #[trigger] s.push(x).contains(t) <==> (s.contains(t) || t == x) by {
        if s.push(x).contains(t) {
            let k = choose|k: int| 0 <= k < s.push(x).len() && s.push(x)[k] == t;
            if k < s.len() {
                assert(s[k] == t);
            }
        }
        if s.contains(t) {
            let k = choose|k: int| 0 <= k < s.len() && s[k] == t;
            assert(s.push(x)[k] == t);
        }
        if t == x {
            assert(s.push(x)[s.len() as int] == t);
        }
    }
    if s.no_duplicates() && !s.contains(x) {
        assert forall|i: int, j: int|
            0 <= i < s.push(x).len() && 0 <= j < s.push(x).len() && i != j implies s.push(x)[i]
            != s.push(x)[j] by {
            if i == s.len() {
                assert(s[j] == s.push(x)[j]);
            } else if j == s.len() {
                assert(s[i] == s.push(x)[i]);
            }
        }
    }
}

proof fn lemma_remove_contains<A>(s: Seq<A>, i: int)
    requires
        s.no_duplicates(),
        0 <= i < s.len(),
    ensures
        forall|t: A| #[trigger] s.remove(i).contains(t) <==> (s.contains(t) && t != s[i]),
        s.remove(i).no_duplicates(),
{
    let r = s.remove(i);
    assert forall|t: A| #[trigger] r.contains(t) <==> (s.contains(t) && t != s[i]) by {
        if r.contains(t) {
            let k = choose|k: int| 0 <= k < r.len() && r[k] == t;
            if k < i {
                assert(s[k] == t);
            } else {
                assert(s[k + 1] == t);
            }
        }
        if s.contains(t) && t != s[i] {
            let k = choose|k: int| 0 <= k < s.len() && s[k] == t;
            if k < i {
                assert(r[k] == t);
            } else {
                assert(r[k - 1] == t);
            }
        }
    }
    assert forall|a: int, b: int|
        0 <= a < r.len() && 0 <= b < r.len() && a != b implies r[a] != r[b] by {
        let a2 = if a < i { a } else { a + 1 };
        let b2 = if b < i { b } else { b + 1 };
        assert(r[a] == s[a2] && r[b] == s[b2]);
    }
}

/// Whether `v` lists the text `s`.
fn texts_contain(v: &Vec<String>, s: &str) -> (r: bool)
    ensures
        r == texts_view(v@).contains(s@),
{
    let mut i: usize = 0;
    while i < v.len()
        invariant
            i <= v@.len(),
            forall|j: int| 0 <= j < i ==> v@[j]@ != s@,
        decreases v@.len() - i,
    {
        if same_text(v[i].as_str(), s) {
            assert(texts_view(v@)[i as int] == s@);
            return true;
        }
        i = i + 1;
    }
    proof {
        if texts_view(v@).contains(s@) {
            let j = choose|j: int| 0 <= j < texts_view(v@).len() && texts_view(v@)[j] == s@;
            assert(v@[j]@ == s@);
        }
    }
    false
}

/// Adds `s` to `v` unless it is listed already; says whether it was added.
fn insert_text(v: &mut Vec<String>, s: &str) -> (r: bool)
    requires
        texts_view(old(v)@).no_duplicates(),
    ensures
        texts_view(final(v)@).no_duplicates(),
        r == !texts_view(old(v)@).contains(s@),
        forall|t: Seq<char>|
            #![trigger texts_view(final(v)@).contains(t)]
            texts_view(final(v)@).contains(t) <==> (texts_view(old(v)@).contains(t) || t == s@),
{
    if texts_contain(v, s) {
        false
    } else {
        let ghost before = v@;
        v.push(s.to_owned());
        assert(texts_view(v@) =~= texts_view(before).push(s@));
        proof {
            lemma_push_contains(texts_view(before), s@);
        }
        true
    }
}

/// Removes the text `s` from `v`; says whether it was listed.
fn remove_text(v: &mut Vec<String>, s: &str) -> (r: bool)
    requires
        texts_view(old(v)@).no_duplicates(),
    ensures
        texts_view(final(v)@).no_duplicates(),
        r == texts_view(old(v)@).contains(s@),
        forall|t: Seq<char>|
            #![trigger texts_view(final(v)@).contains(t)]
            texts_view(final(v)@).contains(t) <==> (texts_view(old(v)@).contains(t) && t != s@),
{
    let ghost before = v@;
    let mut i: usize = 0;
    while i < v.len()
        invariant
            v@ == before,
            before == old(v)@,
            texts_view(before).no_duplicates(),
            i <= v@.len(),
            forall|j: int| 0 <= j < i ==> v@[j]@ != s@,
        decreases v@.len() - i,
    {
        if same_text(v[i].as_str(), s) {
            v.remove(i);
            proof {
                let a = texts_view(before);
                assert(texts_view(v@) =~= a.remove(i as int));
                assert(a[i as int] == s@);
                lemma_remove_contains(a, i as int);
            }
            return true;
        }
        i = i + 1;
    }
    proof {
        if texts_view(before).contains(s@) {
            let k = choose|k: int| 0 <= k < texts_view(before).len() && texts_view(before)[k] == s@;
            assert(before[k]@ == s@);
        }
    }
    false
}

impl Feed {
    /// The feed is well formed: its items are in order of effective date and
    /// its tags and title aliases are listed once each.
    pub closed spec fn wf(self) -> bool {
        &&& metas_sorted(self.feeds_v2@)
        &&& item_ids_below(self.feeds_v2@, self.feeds_counter as nat)
        &&& header_ids_below(self.feed_headers_v2@, self.feed_headers_counter as nat)
        &&& texts_view(self.tags@).no_duplicates()
        &&& texts_view(self.title_aliases@).no_duplicates()
    }

    /// The numbers of a well-formed feed's items and headers are below their
    /// counters, so every number handed out later differs from them.
    pub proof fn lemma_wf_ids_below(self)
        requires
            self.wf(),
        ensures
            item_ids_below(self.items_spec(), self.items_counter_spec()),
            header_ids_below(self.headers_spec(), self.headers_counter_spec()),
    {
    }

    /// The items of a well-formed feed are in order of effective date.
    pub proof fn lemma_wf_items_sorted(self)
        requires
            self.wf(),
        ensures
            metas_sorted(self.items_spec()),
    {
    }

    pub closed spec fn name_spec(self) -> Seq<char> {
        self.name@
    }

    pub closed spec fn url_spec(self) -> Option<Seq<char>> {
        opt_view(self.feed_url)
    }

    pub closed spec fn opml_spec(self) -> Option<Outline> {
        self.opml
    }

    pub closed spec fn parent_spec(self) -> Option<Seq<char>> {
        opt_view(self.parent)
    }

    pub closed spec fn display_name_spec(self) -> Option<Seq<char>> {
        opt_view(self.display_name)
    }

    pub closed spec fn tags_spec(self) -> Seq<Seq<char>> {
        texts_view(self.tags@)
    }

    pub closed spec fn aliases_spec(self) -> Seq<Seq<char>> {
        texts_view(self.title_aliases@)
    }

    pub closed spec fn headers_spec(self) -> Seq<FeedHeaderMeta> {
        self.feed_headers_v2@
    }

    pub closed spec fn legacy_headers_spec(self) -> Seq<FeedHeader> {
        self.feed_headers@
    }

    pub closed spec fn headers_counter_spec(self) -> nat {
        self.feed_headers_counter as nat
    }

    pub closed spec fn items_spec(self) -> Seq<FeedItemMeta> {
        self.feeds_v2@
    }

    pub closed spec fn legacy_items_spec(self) -> Seq<FeedItem> {
        self.feeds@
    }

    pub closed spec fn items_counter_spec(self) -> nat {
        self.feeds_counter as nat
    }

    /// Whether `after` differs from `before` at most in its items, its headers
    /// and their counters.
    pub open spec fn same_identity(before: Feed, after: Feed) -> bool {
        &&& after.name_spec() == before.name_spec()
        &&& after.url_spec() == before.url_spec()
        &&& after.opml_spec() == before.opml_spec()
        &&& after.parent_spec() == before.parent_spec()
        &&& after.display_name_spec() == before.display_name_spec()
        &&& after.tags_spec() == before.tags_spec()
        &&& after.aliases_spec() == before.aliases_spec()
    }

    /// A feed called `name` with no url, no items and no tags.
    pub fn new(name: String) -> (r: Self)
        ensures
            r.wf(),
            r.name_spec() == name@,
            r.url_spec() is None,
            r.opml_spec() is None,
            r.parent_spec() is None,
            r.display_name_spec() is None,
            r.tags_spec().len() == 0,
            r.aliases_spec().len() == 0,
            r.headers_spec().len() == 0,
            r.legacy_headers_spec().len() == 0,
            r.headers_counter_spec() == 0,
            r.items_spec().len() == 0,
            r.legacy_items_spec().len() == 0,
            r.items_counter_spec() == 0,
    {
        let r = Feed {
            name,
            feed_url: None,
            opml: None,
            feed_headers: Vec::new(),
            feed_headers_v2: Vec::new(),
            feed_headers_counter: 0,
            feeds: Vec::new(),
            feeds_v2: Vec::new(),
            feeds_counter: 0,
            parent: None,
            tags: Vec::new(),
            title_aliases: Vec::new(),
            display_name: None,
        };
        assert(texts_view(r.tags@) =~= Seq::<Seq<char>>::empty());
        assert(texts_view(r.title_aliases@) =~= Seq::<Seq<char>>::empty());
        r
    }

    /// The name to display: the display name where one is set, else the
    /// original name, without surrounding whitespace.
    pub fn display_name(&self) -> (r: &str)
        ensures
            r@ == trimmed(
                match self.display_name_spec() {
                    Some(d) => d,
                    None => self.name_spec(),
                },
            ),
    {
        match &self.display_name {
            Some(d) => trim(d.as_str()),
            None => trim(self.name.as_str()),
        }
    }

    /// The original name without surrounding whitespace.
    pub fn original_display_name(&self) -> (r: &str)
        ensures
            r@ == trimmed(self.name_spec()),
    {
        trim(self.name.as_str())
    }

    /// The key under which the feed is looked up: its name and its url.
    pub fn key(&self) -> (r: LookupKey<'_>)
        ensures
            r.name@ == self.name_spec(),
            match r.feed_url {
                Some(u) => self.url_spec() == Some(u@),
                None => self.url_spec() is None,
            },
    {
        LookupKey {
            name: self.name.as_str(),
            feed_url: match &self.feed_url {
                Some(u) => Some(u.as_str()),
                None => None,
            },
        }
    }

    /// The feed's tags.
    pub fn tags(&self) -> (r: &Vec<String>)
        ensures
            texts_view(r@) == self.tags_spec(),
    {
        &self.tags
    }

    /// Adds each of `tags` to the feed's tags; says whether any was new.
    pub fn extend_tags(&mut self, tags: &Vec<String>) -> (r: bool)
        requires
            old(self).wf(),
        ensures
            final(self).wf(),
            Self::same_identity_but_tags(*old(self), *final(self)),
            forall|t: Seq<char>| #[trigger]
                final(self).tags_spec().contains(t) <==> (old(self).tags_spec().contains(t)
                    || texts_view(tags@).contains(t)),
            r == exists|t: Seq<char>|
                texts_view(tags@).contains(t) && !old(self).tags_spec().contains(t),
    {
        let mut ret = false;
        let mut cur: Vec<String> = Vec::new();
        std::mem::swap(&mut cur, &mut self.tags);
        let ghost start = texts_view(cur@);
        let mut i: usize = 0;
        while i < tags.len()
            invariant
                i <= tags@.len(),
                texts_view(cur@).no_duplicates(),
                forall|t: Seq<char>| #[trigger]
                    texts_view(cur@).contains(t) <==> (start.contains(t) || texts_view(
                        tags@.subrange(0, i as int),
                    ).contains(t)),
                ret == exists|t: Seq<char>|
                    texts_view(tags@.subrange(0, i as int)).contains(t) && !start.contains(t),
            decreases tags@.len() - i,
        {
            let ghost prev = texts_view(tags@.subrange(0, i as int));
            let added = insert_text(&mut cur, tags[i].as_str());
            ret = ret || added;
            i = i + 1;
            proof {
                let nxt = texts_view(tags@.subrange(0, i as int));
                assert(nxt =~= prev.push(tags@[i - 1]@));
                lemma_push_contains(prev, tags@[i - 1]@);
                if added {
                    assert(nxt.contains(tags@[i - 1]@));
                }
                if ret && !added {
                    let t = choose|t: Seq<char>| prev.contains(t) && !start.contains(t);
                    assert(nxt.contains(t));
                }
                if !ret {
                    assert forall|t: Seq<char>| nxt.contains(t) implies start.contains(t) by {
                        if t != tags@[i - 1]@ {
                            assert(prev.contains(t));
                        }
                    }
                }
            }
        }
        assert(tags@.subrange(0, tags@.len() as int) =~= tags@);
        self.tags = cur;
        ret
    }

    /// Whether `after` equals `before` but for its tags.
    pub open spec fn same_identity_but_tags(before: Feed, after: Feed) -> bool {
        &&& after.name_spec() == before.name_spec()
        &&& after.url_spec() == before.url_spec()
        &&& after.opml_spec() == before.opml_spec()
        &&& after.parent_spec() == before.parent_spec()
        &&& after.display_name_spec() == before.display_name_spec()
        &&& after.aliases_spec() == before.aliases_spec()
        &&& after.headers_spec() == before.headers_spec()
        &&& after.legacy_headers_spec() == before.legacy_headers_spec()
        &&& after.headers_counter_spec() == before.headers_counter_spec()
        &&& after.items_spec() == before.items_spec()
        &&& after.legacy_items_spec() == before.legacy_items_spec()
        &&& after.items_counter_spec() == before.items_counter_spec()
    }

    /// Whether the feed carries the tag `tag`.
    pub fn contains_tag(&self, tag: &str) -> (r: bool)
        ensures
            r == self.tags_spec().contains(tag@),
    {
        texts_contain(&self.tags, tag)
    }

    /// Removes the tag `tag`; says whether the feed carried it.
    pub fn remove_tag(&mut self, tag: &str) -> (r: bool)
        requires
            old(self).wf(),
        ensures
            final(self).wf(),
            Self::same_identity_but_tags(*old(self), *final(self)),
            r == old(self).tags_spec().contains(tag@),
            forall|t: Seq<char>| #[trigger]
                final(self).tags_spec().contains(t) <==> (old(self).tags_spec().contains(t) && t
                    != tag@),
    {
        remove_text(&mut self.tags, tag)
    }

    /// The feed's titles: its name followed by its title aliases.
    pub fn titles(&self) -> (r: Vec<&str>)
        ensures
            r@.map_values(|s: &str| s@) == seq![self.name_spec()] + self.aliases_spec(),
    {
        let mut r: Vec<&str> = Vec::new();
        r.push(self.name.as_str());
        let mut i: usize = 0;
        while i < self.title_aliases.len()
            invariant
                i <= self.title_aliases@.len(),
                r@.map_values(|s: &str| s@) == seq![self.name@] + texts_view(
                    self.title_aliases@.subrange(0, i as int),
                ),
            decreases self.title_aliases@.len() - i,
        {
            let ghost prev = r@.map_values(|s: &str| s@);
            r.push(self.title_aliases[i].as_str());
            assert(r@.map_values(|s: &str| s@) =~= prev.push(self.title_aliases@[i as int]@));
            assert(texts_view(self.title_aliases@.subrange(0, i + 1)) =~= texts_view(
                self.title_aliases@.subrange(0, i as int),
            ).push(self.title_aliases@[i as int]@));
            i = i + 1;
        }
        assert(self.title_aliases@.subrange(0, i as int) =~= self.title_aliases@);
        assert(r@.map_values(|s: &str| s@) =~= seq![self.name@] + texts_view(self.title_aliases@));
        r
    }

    /// Sets the name to display in place of the original name.
    pub fn set_display_name(&mut self, name: String)
        requires
            old(self).wf(),
        ensures
            final(self).wf(),
            final(self).display_name_spec() == Some(name@),
            final(self).name_spec() == old(self).name_spec(),
            final(self).url_spec() == old(self).url_spec(),
            final(self).tags_spec() == old(self).tags_spec(),
            final(self).aliases_spec() == old(self).aliases_spec(),
            final(self).items_spec() == old(self).items_spec(),
            final(self).headers_spec() == old(self).headers_spec(),
            final(self).opml_spec() == old(self).opml_spec(),
            final(self).parent_spec() == old(self).parent_spec(),
            final(self).legacy_headers_spec() == old(self).legacy_headers_spec(),
            final(self).headers_counter_spec() == old(self).headers_counter_spec(),
            final(self).legacy_items_spec() == old(self).legacy_items_spec(),
            final(self).items_counter_spec() == old(self).items_counter_spec(),
    {
        self.display_name = Some(name);
    }

    /// Whether the counters leave room to number the legacy lists.
    pub open spec fn migration_fits(f: Feed) -> bool {
        &&& f.headers_counter_spec() + f.legacy_headers_spec().len() <= usize::MAX
        &&& f.items_counter_spec() + f.legacy_items_spec().len() <= usize::MAX
    }

    /// Whether `after` is `before` with its legacy lists moved into the
    /// numbered lists: headers appended and numbered from the header counter
    /// in their order, items numbered from the item counter and put in their
    /// places by date, the legacy lists emptied, nothing else changed.
    pub open spec fn migrated(before: Feed, after: Feed) -> bool {
        &&& Self::same_identity(before, after)
        &&& after.legacy_headers_spec().len() == 0
        &&& after.legacy_items_spec().len() == 0
        &&& after.headers_spec() == before.headers_spec() + numbered_headers(
            before.legacy_headers_spec(),
            before.headers_counter_spec(),
        )
        &&& after.headers_counter_spec() == before.headers_counter_spec()
            + before.legacy_headers_spec().len()
        &&& after.items_spec() == add_items(
            before.items_spec(),
            before.legacy_items_spec(),
            before.items_counter_spec(),
        )
        &&& after.items_counter_spec() == before.items_counter_spec()
            + before.legacy_items_spec().len()
    }

    /// Moves the items and headers of the legacy unnumbered lists into the
    /// numbered lists, numbering them from the counters in their original
    /// order; items go to their place by effective date. Running it again
    /// changes nothing.
    pub fn migrate_data(&mut self)
        requires
            old(self).wf(),
            old(self).headers_counter_spec() + old(self).legacy_headers_spec().len()
                <= usize::MAX,
            old(self).items_counter_spec() + old(self).legacy_items_spec().len() <= usize::MAX,
        ensures
            final(self).wf(),
            Self::migrated(*old(self), *final(self)),
            Self::same_identity(*old(self), *final(self)),
            final(self).legacy_headers_spec().len() == 0,
            final(self).legacy_items_spec().len() == 0,
            final(self).headers_spec() == old(self).headers_spec() + numbered_headers(
                old(self).legacy_headers_spec(),
                old(self).headers_counter_spec(),
            ),
            final(self).headers_counter_spec() == old(self).headers_counter_spec() + old(
                self,
            ).legacy_headers_spec().len(),
            final(self).items_spec() == add_items(
                old(self).items_spec(),
                old(self).legacy_items_spec(),
                old(self).items_counter_spec(),
            ),
            final(self).items_counter_spec() == old(self).items_counter_spec() + old(
                self,
            ).legacy_items_spec().len(),
            old(self).legacy_headers_spec().len() == 0 && old(self).legacy_items_spec().len()
                == 0 ==> {
                &&& final(self).headers_spec() == old(self).headers_spec()
                &&& final(self).items_spec() == old(self).items_spec()
                &&& final(self).headers_counter_spec() == old(self).headers_counter_spec()
                &&& final(self).items_counter_spec() == old(self).items_counter_spec()
            },
    {
        let mut legacy_h: Vec<FeedHeader> = Vec::new();
        std::mem::swap(&mut legacy_h, &mut self.feed_headers);
        let mut headers: Vec<FeedHeaderMeta> = Vec::new();
        std::mem::swap(&mut headers, &mut self.feed_headers_v2);
        let mut hc = self.feed_headers_counter;
        let ghost h0 = legacy_h@;
        let ghost c0 = hc as nat;
        let ghost v0 = headers@;
        let nh = legacy_h.len();
        let mut k: usize = 0;
        while legacy_h.len() > 0
            invariant
                nh == h0.len(),
                k + legacy_h@.len() == nh,
                legacy_h@ == h0.subrange(k as int, nh as int),
                hc == c0 + k,
                c0 + nh <= usize::MAX,
                headers@ == v0 + numbered_headers(h0.subrange(0, k as int), c0),
                header_ids_below(headers@, hc as nat),
            decreases legacy_h@.len(),
        {
            let h = legacy_h.remove(0);
            headers.push(FeedHeaderMeta::new(hc, h));
            hc = hc + 1;
            k = k + 1;
            assert(h0.subrange(0, k as int).drop_last() =~= h0.subrange(0, k - 1));
            assert(headers@ =~= v0 + numbered_headers(h0.subrange(0, k as int), c0));
            assert(legacy_h@ =~= h0.subrange(k as int, nh as int));
        }
        assert(h0.subrange(0, nh as int) =~= h0);
        assert(v0 + numbered_headers(Seq::<FeedHeader>::empty(), c0) =~= v0);
        self.feed_headers = legacy_h;
        self.feed_headers_v2 = headers;
        self.feed_headers_counter = hc;
        let mut legacy_i: Vec<FeedItem> = Vec::new();
        std::mem::swap(&mut legacy_i, &mut self.feeds);
        let mut items: Vec<FeedItemMeta> = Vec::new();
        std::mem::swap(&mut items, &mut self.feeds_v2);
        let mut ic = self.feeds_counter;
        let ghost i0 = legacy_i@;
        let ghost s0 = items@;
        let ghost ic0 = ic as nat;
        let ni = legacy_i.len();
        let mut j: usize = 0;
        while legacy_i.len() > 0
            invariant
                ni == i0.len(),
                j + legacy_i@.len() == ni,
                legacy_i@ == i0.subrange(j as int, ni as int),
                ic == ic0 + j,
                ic0 + ni <= usize::MAX,
                items@ == add_items(s0, i0.subrange(0, j as int), ic0),
                metas_sorted(items@),
                item_ids_below(items@, ic as nat),
            decreases legacy_i@.len(),
        {
            let it = legacy_i.remove(0);
            insert_meta(&mut items, FeedItemMeta::new(ic, it));
            ic = ic + 1;
            j = j + 1;
            proof {
                let pre = i0.subrange(0, j as int);
                assert(pre.drop_last() =~= i0.subrange(0, j - 1));
                assert(pre.last() == it);
            }
            assert(legacy_i@ =~= i0.subrange(j as int, ni as int));
        }
        assert(i0.subrange(0, ni as int) =~= i0);
        proof {
            if h0.len() == 0 && i0.len() == 0 {
                assert(headers@ =~= v0);
                assert(legacy_h@ =~= h0);
                assert(legacy_i@ =~= i0);
            }
        }
        self.feeds = legacy_i;
        self.feeds_v2 = items;
        self.feeds_counter = ic;
    }

    /// A feed restored from its stored parts. The items are put in order of
    /// effective date (equal dates keep their order) and repeated tags or
    /// aliases are kept once.
    pub fn restore(
        name: String,
        feed_url: Option<String>,
        opml: Option<Outline>,
        legacy_headers: Vec<FeedHeader>,
        headers: Vec<FeedHeaderMeta>,
        headers_counter: usize,
        legacy_items: Vec<FeedItem>,
        items: Vec<FeedItemMeta>,
        items_counter: usize,
        parent: Option<FeedId>,
        tags: Vec<String>,
        title_aliases: Vec<String>,
        display_name: Option<String>,
    ) -> (r: Self)
        requires
            forall|i: int| 0 <= i < headers@.len() ==> (#[trigger] headers@[i]).id < usize::MAX,
            forall|i: int| 0 <= i < items@.len() ==> (#[trigger] items@[i]).id < usize::MAX,
        ensures
            r.wf(),
            r.name_spec() == name@,
            r.url_spec() == opt_view(feed_url),
            r.opml_spec() == opml,
            r.parent_spec() == opt_view(parent),
            r.display_name_spec() == opt_view(display_name),
            r.legacy_headers_spec() == legacy_headers@,
            r.headers_spec() == headers@,
            r.headers_counter_spec() == next_header_id(headers@, headers_counter as nat),
            r.legacy_items_spec() == legacy_items@,
            r.items_spec() == insert_all(Seq::<FeedItemMeta>::empty(), items@),
            r.items_counter_spec() == next_item_id(items@, items_counter as nat),
            forall|t: Seq<char>| #[trigger]
                r.tags_spec().contains(t) <==> texts_view(tags@).contains(t),
            forall|t: Seq<char>| #[trigger]
                r.aliases_spec().contains(t) <==> texts_view(title_aliases@).contains(t),
    {
        let mut hc = headers_counter;
        let mut h: usize = 0;
        while h < headers.len()
            invariant
                h <= headers@.len(),
                forall|i: int| 0 <= i < headers@.len() ==> (#[trigger] headers@[i]).id < usize::MAX,
                hc == next_header_id(headers@.subrange(0, h as int), headers_counter as nat),
                header_ids_below(headers@.subrange(0, h as int), hc as nat),
            decreases headers@.len() - h,
        {
            assert(headers@.subrange(0, h + 1).drop_last() =~= headers@.subrange(0, h as int));
            if headers[h].id >= hc {
                hc = headers[h].id + 1;
            }
            h = h + 1;
        }
        assert(headers@.subrange(0, h as int) =~= headers@);
        let mut ic = items_counter;
        let mut sorted: Vec<FeedItemMeta> = Vec::new();
        let mut rest = items;
        let ghost src = rest@;
        let n = rest.len();
        let mut i: usize = 0;
        while rest.len() > 0
            invariant
                n == src.len(),
                i + rest@.len() == n,
                rest@ == src.subrange(i as int, n as int),
                forall|k: int| 0 <= k < src.len() ==> (#[trigger] src[k]).id < usize::MAX,
                sorted@ == insert_all(Seq::<FeedItemMeta>::empty(), src.subrange(0, i as int)),
                metas_sorted(sorted@),
                ic == next_item_id(src.subrange(0, i as int), items_counter as nat),
                item_ids_below(sorted@, ic as nat),
            decreases rest@.len(),
        {
            let x = rest.remove(0);
            assert(x == src[i as int]);
            assert(src.subrange(0, i + 1).drop_last() =~= src.subrange(0, i as int));
            if x.id >= ic {
                ic = x.id + 1;
            }
            insert_meta(&mut sorted, x);
            i = i + 1;
            proof {
                let pre = src.subrange(0, i as int);
                assert(pre.drop_last() =~= src.subrange(0, i - 1));
            }
            assert(rest@ =~= src.subrange(i as int, n as int));
        }
        assert(src.subrange(0, n as int) =~= src);
        let mut tag_list: Vec<String> = Vec::new();
        let mut alias_list: Vec<String> = Vec::new();
        assert(texts_view(tag_list@) =~= Seq::<Seq<char>>::empty());
        assert(texts_view(alias_list@) =~= Seq::<Seq<char>>::empty());
        copy_texts(&mut tag_list, &tags);
        copy_texts(&mut alias_list, &title_aliases);
        Feed {
            name,
            feed_url,
            opml,
            feed_headers: legacy_headers,
            feed_headers_v2: headers,
            feed_headers_counter: hc,
            feeds: legacy_items,
            feeds_v2: sorted,
            feeds_counter: ic,
            parent,
            tags: tag_list,
            title_aliases: alias_list,
            display_name,
        }
    }

    /// Merges a feed submitted again for this feed's id: the url and the
    /// OPML outline are filled in where missing (a value already set is
    /// kept), the tags are united, and nothing else changes.
    pub fn merge_from(&mut self, item: Feed)
        requires
            old(self).wf(),
        ensures
            final(self).wf(),
            Self::merged(*old(self), item, *final(self)),
    {
        update_or_warn(&mut self.feed_url, item.feed_url);
        update_or_warn(&mut self.opml, item.opml);
        let mut tags: Vec<String> = Vec::new();
        std::mem::swap(&mut tags, &mut self.tags);
        copy_texts(&mut tags, &item.tags);
        self.tags = tags;
    }

    /// Whether `after` is `before` with `item` merged in: url and OPML outline
    /// filled in where missing, tags united, all else unchanged.
    pub open spec fn merged(before: Feed, item: Feed, after: Feed) -> bool {
        &&& filled(before.url_spec(), item.url_spec(), after.url_spec())
        &&& filled(before.opml_spec(), item.opml_spec(), after.opml_spec())
        &&& forall|t: Seq<char>| #[trigger]
            after.tags_spec().contains(t) <==> (before.tags_spec().contains(t)
                || item.tags_spec().contains(t))
        &&& after.name_spec() == before.name_spec()
        &&& after.parent_spec() == before.parent_spec()
        &&& after.display_name_spec() == before.display_name_spec()
        &&& after.aliases_spec() == before.aliases_spec()
        &&& after.headers_spec() == before.headers_spec()
        &&& after.legacy_headers_spec() == before.legacy_headers_spec()
        &&& after.headers_counter_spec() == before.headers_counter_spec()
        &&& after.items_spec() == before.items_spec()
        &&& after.legacy_items_spec() == before.legacy_items_spec()
        &&& after.items_counter_spec() == before.items_counter_spec()
    }

    /// Whether `after` is `before` refreshed with fetched `headers` and new
    /// `items`: headers not stored yet are appended and numbered, items are
    /// numbered and put in their place by date; a batch that would run a
    /// counter past `usize::MAX` is left out.
    pub open spec fn refreshed(
        before: Feed,
        headers: Seq<FeedHeader>,
        items: Seq<FeedItem>,
        after: Feed,
    ) -> bool {
        &&& Self::same_identity(before, after)
        &&& after.legacy_headers_spec() == before.legacy_headers_spec()
        &&& after.legacy_items_spec() == before.legacy_items_spec()
        &&& if before.headers_counter_spec() + headers.len() <= usize::MAX {
            &&& after.headers_spec() == add_headers(
                before.headers_spec(),
                headers,
                before.headers_counter_spec(),
            )
            &&& after.headers_counter_spec() == before.headers_counter_spec() + (
            after.headers_spec().len() - before.headers_spec().len())
        } else {
            &&& after.headers_spec() == before.headers_spec()
            &&& after.headers_counter_spec() == before.headers_counter_spec()
        }
        &&& if before.items_counter_spec() + items.len() <= usize::MAX {
            &&& after.items_spec() == add_items(
                before.items_spec(),
                items,
                before.items_counter_spec(),
            )
            &&& after.items_counter_spec() == before.items_counter_spec() + items.len()
        } else {
            &&& after.items_spec() == before.items_spec()
            &&& after.items_counter_spec() == before.items_counter_spec()
        }
    }

    /// Adds fetched headers and new items: each header not stored yet (by
    /// value) is appended under the next number, and each item is numbered
    /// and put in its place by effective date.
    pub fn refresh(&mut self, headers: Vec<FeedHeader>, items: Vec<FeedItem>)
        requires
            old(self).wf(),
        ensures
            final(self).wf(),
            Self::refreshed(*old(self), headers@, items@, *final(self)),
    {
        let ghost hs = headers@;
        if headers.len() <= usize::MAX - self.feed_headers_counter {
            let ghost s0 = self.feed_headers_v2@;
            let ghost c0 = self.feed_headers_counter as nat;
            let mut stored: Vec<FeedHeaderMeta> = Vec::new();
            std::mem::swap(&mut stored, &mut self.feed_headers_v2);
            let mut hc = self.feed_headers_counter;
            let mut rest = headers;
            let n = rest.len();
            let mut i: usize = 0;
            while rest.len() > 0
                invariant
                    n == hs.len(),
                    i + rest@.len() == n,
                    rest@ == hs.subrange(i as int, n as int),
                    c0 + n <= usize::MAX,
                    stored@ == add_headers(s0, hs.subrange(0, i as int), c0),
                    hc == c0 + (stored@.len() - s0.len()),
                    header_ids_below(stored@, hc as nat),
                    stored@.len() <= s0.len() + i,
                decreases rest@.len(),
            {
                let h = rest.remove(0);
                proof {
                    let pre = hs.subrange(0, i + 1);
                    assert(pre.drop_last() =~= hs.subrange(0, i as int));
                    lemma_add_headers_len(s0, hs.subrange(0, i as int), c0);
                }
                if !contains_header(&stored, &h) {
                    stored.push(FeedHeaderMeta::new(hc, h));
                    hc = hc + 1;
                }
                i = i + 1;
                assert(rest@ =~= hs.subrange(i as int, n as int));
            }
            assert(hs.subrange(0, n as int) =~= hs);
            self.feed_headers_v2 = stored;
            self.feed_headers_counter = hc;
        }
        let ghost its = items@;
        if items.len() <= usize::MAX - self.feeds_counter {
            let ghost s0 = self.feeds_v2@;
            let ghost c0 = self.feeds_counter as nat;
            let mut stored: Vec<FeedItemMeta> = Vec::new();
            std::mem::swap(&mut stored, &mut self.feeds_v2);
            let mut ic = self.feeds_counter;
            let mut rest = items;
            let n = rest.len();
            let mut j: usize = 0;
            while rest.len() > 0
                invariant
                    n == its.len(),
                    j + rest@.len() == n,
                    rest@ == its.subrange(j as int, n as int),
                    ic == c0 + j,
                    c0 + n <= usize::MAX,
                    stored@ == add_items(s0, its.subrange(0, j as int), c0),
                    metas_sorted(stored@),
                    item_ids_below(stored@, ic as nat),
                decreases rest@.len(),
            {
                let it = rest.remove(0);
                insert_meta(&mut stored, FeedItemMeta::new(ic, it));
                ic = ic + 1;
                j = j + 1;
                proof {
                    let pre = its.subrange(0, j as int);
                    assert(pre.drop_last() =~= its.subrange(0, j - 1));
                }
                assert(rest@ =~= its.subrange(j as int, n as int));
            }
            assert(its.subrange(0, n as int) =~= its);
            self.feeds_v2 = stored;
            self.feeds_counter = ic;
        }
    }

    /// Whether the header counter leaves room for the legacy headers.
    pub fn headers_counter_fits(&self) -> (r: bool)
        ensures
            r == (self.headers_counter_spec() + self.legacy_headers_spec().len() <= usize::MAX),
    {
        self.feed_headers.len() <= usize::MAX - self.feed_headers_counter
    }

    /// Whether the item counter leaves room for the legacy items.
    pub fn items_counter_fits(&self) -> (r: bool)
        ensures
            r == (self.items_counter_spec() + self.legacy_items_spec().len() <= usize::MAX),
    {
        self.feeds.len() <= usize::MAX - self.feeds_counter
    }

    /// The display name set by the user, if any.
    pub fn custom_display_name(&self) -> (r: Option<&str>)
        ensures
            match r {
                Some(d) => self.display_name_spec() == Some(d@),
                None => self.display_name_spec() is None,
            },
    {
        match &self.display_name {
            Some(d) => Some(d.as_str()),
            None => None,
        }
    }

    /// The next header number.
    pub fn headers_counter(&self) -> (r: usize)
        ensures
            r == self.headers_counter_spec(),
    {
        self.feed_headers_counter
    }

    /// The next item number.
    pub fn items_counter(&self) -> (r: usize)
        ensures
            r == self.items_counter_spec(),
    {
        self.feeds_counter
    }

    /// The headers of the legacy unnumbered list.
    pub fn legacy_headers(&self) -> (r: &Vec<FeedHeader>)
        ensures
            r@ == self.legacy_headers_spec(),
    {
        &self.feed_headers
    }

    /// The items of the legacy unnumbered list.
    pub fn legacy_items(&self) -> (r: &Vec<FeedItem>)
        ensures
            r@ == self.legacy_items_spec(),
    {
        &self.feeds
    }

    /// The numbered headers.
    pub fn feed_headers(&self) -> (r: &Vec<FeedHeaderMeta>)
        ensures
            r@ == self.headers_spec(),
    {
        &self.feed_headers_v2
    }

    /// Whether a header with the same values as `h` is stored.
    pub fn contains_feed_header(&self, h: &FeedHeader) -> (r: bool)
        ensures
            r == has_header(self.headers_spec(), *h),
    {
        let mut i: usize = 0;
        while i < self.feed_headers_v2.len()
            invariant
                i <= self.feed_headers_v2@.len(),
                forall|j: int| 0 <= j < i ==> !same_header(self.feed_headers_v2@[j].header, *h),
            decreases self.feed_headers_v2@.len() - i,
        {
            if header_eq(&self.feed_headers_v2[i].header, h) {
                return true;
            }
            i = i + 1;
        }
        false
    }

    /// Stores `header` under the next header number.
    pub fn push_feed_header(&mut self, header: FeedHeader)
        requires
            old(self).wf(),
            old(self).headers_counter_spec() < usize::MAX,
        ensures
            final(self).wf(),
            Self::same_identity(*old(self), *final(self)),
            final(self).headers_spec() == old(self).headers_spec().push(
                FeedHeaderMeta { id: old(self).headers_counter_spec() as usize, header },
            ),
            final(self).headers_counter_spec() == old(self).headers_counter_spec() + 1,
            final(self).items_spec() == old(self).items_spec(),
            final(self).items_counter_spec() == old(self).items_counter_spec(),
            final(self).legacy_headers_spec() == old(self).legacy_headers_spec(),
            final(self).legacy_items_spec() == old(self).legacy_items_spec(),
    {
        self.feed_headers_v2.push(FeedHeaderMeta::new(self.feed_headers_counter, header));
        self.feed_headers_counter = self.feed_headers_counter + 1;
    }

    /// The numbered items, oldest first.
    pub fn items(&self) -> (r: &Vec<FeedItemMeta>)
        ensures
            r@ == self.items_spec(),
    {
        &self.feeds_v2
    }

    /// Stores `item` under the next item number, in its place by effective
    /// date: after every stored item whose date is not later.
    pub fn push_item(&mut self, item: FeedItem)
        requires
            old(self).wf(),
            old(self).items_counter_spec() < usize::MAX,
        ensures
            final(self).wf(),
            Self::same_identity(*old(self), *final(self)),
            final(self).items_spec() == insert_item(
                old(self).items_spec(),
                FeedItemMeta { id: old(self).items_counter_spec() as usize, item },
            ),
            final(self).items_counter_spec() == old(self).items_counter_spec() + 1,
            final(self).headers_spec() == old(self).headers_spec(),
            final(self).headers_counter_spec() == old(self).headers_counter_spec(),
            final(self).legacy_headers_spec() == old(self).legacy_headers_spec(),
            final(self).legacy_items_spec() == old(self).legacy_items_spec(),
    {
        insert_meta(&mut self.feeds_v2, FeedItemMeta::new(self.feeds_counter, item));
        self.feeds_counter = self.feeds_counter + 1;
    }

    /// The original name.
    pub fn name(&self) -> (r: &str)
        ensures
            r@ == self.name_spec(),
    {
        self.name.as_str()
    }

    /// The source url, where the feed has one.
    pub fn feed_url(&self) -> (r: Option<&str>)
        ensures
            match r {
                Some(u) => self.url_spec() == Some(u@),
                None => self.url_spec() is None,
            },
    {
        match &self.feed_url {
            Some(u) => Some(u.as_str()),
            None => None,
        }
    }

    /// Sets the source url.
    pub fn set_feed_url(&mut self, url: Option<String>)
        requires
            old(self).wf(),
        ensures
            final(self).wf(),
            final(self).url_spec() == opt_view(url),
            final(self).name_spec() == old(self).name_spec(),
            final(self).opml_spec() == old(self).opml_spec(),
            final(self).parent_spec() == old(self).parent_spec(),
            final(self).tags_spec() == old(self).tags_spec(),
            final(self).items_spec() == old(self).items_spec(),
            final(self).display_name_spec() == old(self).display_name_spec(),
            final(self).aliases_spec() == old(self).aliases_spec(),
            final(self).headers_spec() == old(self).headers_spec(),
            final(self).legacy_headers_spec() == old(self).legacy_headers_spec(),
            final(self).headers_counter_spec() == old(self).headers_counter_spec(),
            final(self).legacy_items_spec() == old(self).legacy_items_spec(),
            final(self).items_counter_spec() == old(self).items_counter_spec(),
    {
        self.feed_url = url;
    }

    /// The OPML outline the feed was imported from, where there is one.
    pub fn opml(&self) -> (r: Option<&Outline>)
        ensures
            match r {
                Some(o) => self.opml_spec() == Some(*o),
                None => self.opml_spec() is None,
            },
    {
        match &self.opml {
            Some(o) => Some(o),
            None => None,
        }
    }

    /// Sets the OPML outline.
    pub fn set_opml(&mut self, opml: Option<Outline>)
        requires
            old(self).wf(),
        ensures
            final(self).wf(),
            final(self).opml_spec() == opml,
            final(self).name_spec() == old(self).name_spec(),
            final(self).url_spec() == old(self).url_spec(),
            final(self).parent_spec() == old(self).parent_spec(),
            final(self).tags_spec() == old(self).tags_spec(),
            final(self).items_spec() == old(self).items_spec(),
            final(self).display_name_spec() == old(self).display_name_spec(),
            final(self).aliases_spec() == old(self).aliases_spec(),
            final(self).headers_spec() == old(self).headers_spec(),
            final(self).legacy_headers_spec() == old(self).legacy_headers_spec(),
            final(self).headers_counter_spec() == old(self).headers_counter_spec(),
            final(self).legacy_items_spec() == old(self).legacy_items_spec(),
            final(self).items_counter_spec() == old(self).items_counter_spec(),
    {
        self.opml = opml;
    }

    /// The id of the feed's parent in an OPML hierarchy.
    pub fn parent(&self) -> (r: Option<&str>)
        ensures
            match r {
                Some(p) => self.parent_spec() == Some(p@),
                None => self.parent_spec() is None,
            },
    {
        match &self.parent {
            Some(p) => Some(p.as_str()),
            None => None,
        }
    }

    /// Sets the id of the feed's parent.
    pub fn set_parent(&mut self, parent: Option<String>)
        requires
            old(self).wf(),
        ensures
            final(self).wf(),
            final(self).parent_spec() == opt_view(parent),
            final(self).name_spec() == old(self).name_spec(),
            final(self).url_spec() == old(self).url_spec(),
            final(self).opml_spec() == old(self).opml_spec(),
            final(self).tags_spec() == old(self).tags_spec(),
            final(self).items_spec() == old(self).items_spec(),
            final(self).display_name_spec() == old(self).display_name_spec(),
            final(self).aliases_spec() == old(self).aliases_spec(),
            final(self).headers_spec() == old(self).headers_spec(),
            final(self).legacy_headers_spec() == old(self).legacy_headers_spec(),
            final(self).headers_counter_spec() == old(self).headers_counter_spec(),
            final(self).legacy_items_spec() == old(self).legacy_items_spec(),
            final(self).items_counter_spec() == old(self).items_counter_spec(),
    {
        self.parent = parent;
    }

    /// The title aliases.
    pub fn title_aliases(&self) -> (r: &Vec<String>)
        ensures
            texts_view(r@) == self.aliases_spec(),
    {
        &self.title_aliases
    }

    /// Adds `name`, without surrounding whitespace, to the title aliases; says
    /// whether it was new.
    pub fn title_alias_insert(&mut self, name: &str) -> (r: bool)
        requires
            old(self).wf(),
        ensures
            final(self).wf(),
            r == !old(self).aliases_spec().contains(trimmed(name@)),
            forall|t: Seq<char>| #[trigger]
                final(self).aliases_spec().contains(t) <==> (old(self).aliases_spec().contains(t)
                    || t == trimmed(name@)),
            final(self).tags_spec() == old(self).tags_spec(),
            final(self).items_spec() == old(self).items_spec(),
    {
        insert_text(&mut self.title_aliases, trim(name))
    }

    /// Removes `name`, without surrounding whitespace, from the title aliases;
    /// says whether it was there.
    pub fn title_alias_remove(&mut self, name: &str) -> (r: bool)
        requires
            old(self).wf(),
        ensures
            final(self).wf(),
            r == old(self).aliases_spec().contains(trimmed(name@)),
            forall|t: Seq<char>| #[trigger]
                final(self).aliases_spec().contains(t) <==> (old(self).aliases_spec().contains(t)
                    && t != trimmed(name@)),
            final(self).tags_spec() == old(self).tags_spec(),
            final(self).items_spec() == old(self).items_spec(),
    {
        remove_text(&mut self.title_aliases, trim(name))
    }
}

/// The headers of `s` numbered from `next`, in order.
pub open spec fn numbered_headers(s: Seq<FeedHeader>, next: nat) -> Seq<FeedHeaderMeta>
    decreases s.len(),
{
    if s.len() == 0 {
        seq![]
    } else {
        numbered_headers(s.drop_last(), next).push(
            FeedHeaderMeta { id: (next + s.len() - 1) as usize, header: s.last() },
        )
    }
}

/// `s` with each header of `hs` that is not stored yet (by value) appended
/// in turn, numbered from `next`.
pub open spec fn add_headers(s: Seq<FeedHeaderMeta>, hs: Seq<FeedHeader>, next: nat) -> Seq<
    FeedHeaderMeta,
>
    decreases hs.len(),
{
    if hs.len() == 0 {
        s
    } else {
        let prev = add_headers(s, hs.drop_last(), next);
        if has_header(prev, hs.last()) {
            prev
        } else {
            prev.push(FeedHeaderMeta { id: (next + prev.len() - s.len()) as usize, header: hs.last() })
        }
    }
}

proof fn lemma_add_headers_len(s: Seq<FeedHeaderMeta>, hs: Seq<FeedHeader>, next: nat)
    ensures
        s.len() <= add_headers(s, hs, next).len() <= s.len() + hs.len(),
        add_headers(s, hs, next).subrange(0, s.len() as int) == s,
    decreases hs.len(),
{
    if hs.len() > 0 {
        lemma_add_headers_len(s, hs.drop_last(), next);
        let prev = add_headers(s, hs.drop_last(), next);
        assert(prev.push(FeedHeaderMeta { id: (next + prev.len() - s.len()) as usize, header: hs.last() }).subrange(0, s.len() as int) =~= prev.subrange(0, s.len() as int));
    }
}

/// Whether `x` is an empty option or `after` equals `before` where `before`
/// held nothing: the merge policy of a field that is filled in once.
pub open spec fn filled<T>(before: Option<T>, value: Option<T>, after: Option<T>) -> bool {
    after == if before is None {
        value
    } else {
        before
    }
}

/// Fills `dst` with `value` where `dst` is empty; a value already set is kept.
pub fn update_or_warn<T>(dst: &mut Option<T>, value: Option<T>)
    ensures
        filled(*old(dst), value, *final(dst)),
{
    if dst.is_none() {
        *dst = value;
    }
}

/// `s` with the items of `xs` put in their places in turn.
pub open spec fn insert_all(s: Seq<FeedItemMeta>, xs: Seq<FeedItemMeta>) -> Seq<FeedItemMeta>
    decreases xs.len(),
{
    if xs.len() == 0 {
        s
    } else {
        insert_item(insert_all(s, xs.drop_last()), xs.last())
    }
}

/// Whether a header with the same values as `h` is in `s`.
fn contains_header(s: &Vec<FeedHeaderMeta>, h: &FeedHeader) -> (r: bool)
    ensures
        r == has_header(s@, *h),
{
    let mut i: usize = 0;
    while i < s.len()
        invariant
            i <= s@.len(),
            forall|j: int| 0 <= j < i ==> !same_header(s@[j].header, *h),
        decreases s@.len() - i,
    {
        if header_eq(&s[i].header, h) {
            return true;
        }
        i = i + 1;
    }
    false
}

/// Adds each text of `src` to `dst` unless it is listed already.
fn copy_texts(dst: &mut Vec<String>, src: &Vec<String>)
    requires
        texts_view(old(dst)@).no_duplicates(),
    ensures
        texts_view(final(dst)@).no_duplicates(),
        forall|t: Seq<char>| #[trigger]
            texts_view(final(dst)@).contains(t) <==> (texts_view(old(dst)@).contains(t)
                || texts_view(src@).contains(t)),
{
    let ghost start = texts_view(dst@);
    let mut i: usize = 0;
    while i < src.len()
        invariant
            i <= src@.len(),
            texts_view(dst@).no_duplicates(),
            start == texts_view(old(dst)@),
            forall|t: Seq<char>| #[trigger]
                texts_view(dst@).contains(t) <==> (start.contains(t) || texts_view(
                    src@.subrange(0, i as int),
                ).contains(t)),
        decreases src@.len() - i,
    {
        let ghost prev = texts_view(src@.subrange(0, i as int));
        insert_text(dst, src[i].as_str());
        i = i + 1;
        proof {
            let nxt = texts_view(src@.subrange(0, i as int));
            assert(nxt =~= prev.push(src@[i - 1]@));
            lemma_push_contains(prev, src@[i - 1]@);
        }
    }
    assert(src@.subrange(0, src@.len() as int) =~= src@);
}

/// The first item number that the counter `c` and the items `s` leave free:
/// `c`, raised past every number in `s`.
pub open spec fn next_item_id(s: Seq<FeedItemMeta>, c: nat) -> nat
    decreases s.len(),
{
    if s.len() == 0 {
        c
    } else {
        let prev = next_item_id(s.drop_last(), c);
        if s.last().id >= prev {
            (s.last().id + 1) as nat
        } else {
            prev
        }
    }
}

/// The first header number that the counter `c` and the headers `s` leave free.
pub open spec fn next_header_id(s: Seq<FeedHeaderMeta>, c: nat) -> nat
    decreases s.len(),
{
    if s.len() == 0 {
        c
    } else {
        let prev = next_header_id(s.drop_last(), c);
        if s.last().id >= prev {
            (s.last().id + 1) as nat
        } else {
            prev
        }
    }
}

/// Adding items keeps every stored one and adds each new one.
pub proof fn lemma_add_items_len(s: Seq<FeedItemMeta>, new: Seq<FeedItem>, next: nat)
    ensures
        add_items(s, new, next).len() == s.len() + new.len(),
    decreases new.len(),
{
    if new.len() > 0 {
        lemma_add_items_len(s, new.drop_last(), next);
        let prev = add_items(s, new.drop_last(), next);
        let x = FeedItemMeta { id: (next + new.len() - 1) as usize, item: new.last() };
        crate::order::lemma_insert_by_key_len(keyed_metas(prev), (x.item.date_spec(), x));
    }
}

/// Whether every item of `s` is numbered below `b`.
pub open spec fn item_ids_below(s: Seq<FeedItemMeta>, b: nat) -> bool {
    forall|i: int| 0 <= i < s.len() ==> (#[trigger] s[i]).id < b
}

/// Whether every header of `s` is numbered below `b`.
pub open spec fn header_ids_below(s: Seq<FeedHeaderMeta>, b: nat) -> bool {
    forall|i: int| 0 <= i < s.len() ==> (#[trigger] s[i]).id < b
}

/// Puts `x` into `v`, kept in order of effective date, after every item whose
/// date is not later.
fn insert_meta(v: &mut Vec<FeedItemMeta>, x: FeedItemMeta)
    requires
        metas_sorted(old(v)@),
    ensures
        final(v)@ == insert_item(old(v)@, x),
        metas_sorted(final(v)@),
        forall|b: nat|
            item_ids_below(old(v)@, b) && x.id < b ==> #[trigger] item_ids_below(final(v)@, b),
{
    let ghost before = v@;
    let d = x.publish_date_or_old();
    let mut p: usize = 0;
    while p < v.len() && v[p].publish_date_or_old() <= d
        invariant
            v@ == before,
            p <= v@.len(),
            forall|j: int| 0 <= j < p ==> v@[j].item.date_spec() <= d,
        decreases v@.len() - p,
    {
        p = p + 1;
    }
    proof {
        let k = keyed_metas(before);
        assert(keys_sorted(k));
        lemma_insert_by_key_at(k, (d, x), p as int);
        lemma_insert_by_key_sorted(k, (d, x));
    }
    v.insert(p, x);
    proof {
        let k = keyed_metas(before);
        let ins = insert_by_key(k, (d, x));
        assert(ins =~= k.subrange(0, p as int) + seq![(d, x)] + k.subrange(
            p as int,
            k.len() as int,
        ));
        assert(v@ =~= ins.map_values(|q: (i64, FeedItemMeta)| q.1));
        assert forall|i: int| 0 <= i < v@.len() implies #[trigger] ins[i].0
            == v@[i].item.date_spec() by {}
        assert forall|i: int, j: int| 0 <= i < j < v@.len() implies v@[i].item.date_spec()
            <= v@[j].item.date_spec() by {
            assert(ins[i].0 <= ins[j].0);
        }
        assert(v@ =~= before.insert(p as int, x));
        assert forall|b: nat|
            item_ids_below(before, b) && x.id < b implies #[trigger] item_ids_below(v@, b) by {
            assert forall|i: int| 0 <= i < v@.len() implies (#[trigger] v@[i]).id < b by {
                if i < p {
                    assert(v@[i] == before[i]);
                } else if i > p {
                    assert(v@[i] == before[i - 1]);
                }
            }
        }
    }
}

} // verus!
