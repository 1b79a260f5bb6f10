//! The canonical shape of feed documents: an RSS 2.0 channel or a generic
//! (Atom / JSON Feed) document, split into one header and a list of items.
use std::collections::BTreeMap;

use rss::extension::Extension as RssExtension;
use vstd::prelude::*;

use crate::date::{effective_date, effective_date_of, OLD_DATE};
use crate::text::string_of;
use crate::order::{lemma_sort_by_key_sorted, sort_by_key, sort_pairs, strip_keys};
use crate::text::{trim, trimmed};

verus! {

broadcast use vstd::seq_lib::group_to_multiset_ensures;

/// The view of an optional string.
pub open spec fn opt_view(o: Option<String>) -> Option<Seq<char>> {
    match o {
        Some(s) => Some(s@),
        None => None,
    }
}

/// The decimal digits of `n` (no leading zeros; `0` for zero).
pub open spec fn digits(n: nat) -> Seq<char>
    decreases n,
{
    if n < 10 {
        seq![digit_char(n)]
    } else {
        digits(n / 10).push(digit_char(n % 10))
    }
}

/// The decimal digit for `d` below ten.
pub open spec fn digit_char(d: nat) -> char {
    seq!['0', '1', '2', '3', '4', '5', '6', '7', '8', '9'][d as int]
}

/// `n` written in decimal, with a leading `-` when negative.
pub open spec fn decimal(n: int) -> Seq<char> {
    if n < 0 {
        seq!['-'] + digits((-n) as nat)
    } else {
        digits(n as nat)
    }
}

fn digits_of(n: u64) -> (r: Vec<char>)
    ensures
        r@ == digits(n as nat),
    decreases n,
{
    let table = vec!['0', '1', '2', '3', '4', '5', '6', '7', '8', '9'];
    assert(table@ =~= seq!['0', '1', '2', '3', '4', '5', '6', '7', '8', '9']);
    if n < 10 {
        let mut r: Vec<char> = Vec::new();
        r.push(table[n as usize]);
        assert(r@ =~= seq![digit_char(n as nat)]);
        r
    } else {
        let mut r = digits_of(n / 10);
        r.push(table[(n % 10) as usize]);
        r
    }
}

/// `n` written in decimal.
pub fn decimal_text(n: i64) -> (r: String)
    ensures
        r@ == decimal(n as int),
{
    if n < 0 {
        let m: u64 = if n == i64::MIN {
            9223372036854775808u64
        } else {
            (-n) as u64
        };
        let d = digits_of(m);
        let mut c: Vec<char> = Vec::new();
        c.push('-');
        let mut i: usize = 0;
        while i < d.len()
            invariant
                i <= d@.len(),
                c@ == seq!['-'] + d@.subrange(0, i as int),
            decreases d@.len() - i,
        {
            c.push(d[i]);
            i = i + 1;
            assert(c@ =~= seq!['-'] + d@.subrange(0, i as int));
        }
        assert(d@.subrange(0, i as int) =~= d@);
        string_of(&c)
    } else {
        string_of(&digits_of(n as u64))
    }
}

/// Whether two optional instants are equal.
pub fn opt_i64_eq(a: Option<i64>, b: Option<i64>) -> (r: bool)
    ensures
        r == (a == b),
{
    match (a, b) {
        (Some(x), Some(y)) => x == y,
        (None, None) => true,
        _ => false,
    }
}

/// Whether two optional strings hold the same text.
pub fn opt_str_eq(a: &Option<String>, b: &Option<String>) -> (r: bool)
    ensures
        r == (opt_view(*a) == opt_view(*b)),
{
    match a {
        Some(x) => match b {
            Some(y) => String::eq(x, y),
            None => false,
        },
        None => b.is_none(),
    }
}

/// Clones an optional string.
pub fn opt_str_clone(a: &Option<String>) -> (r: Option<String>)
    ensures
        r == *a,
{
    match a {
        Some(x) => Some(x.clone()),
        None => None,
    }
}

/// The format a generic feed document was written in.
#[derive(Clone, Copy, Debug, PartialEq, Eq, Structural)]
pub enum FeedType {
    Atom,
    JSON,
    RSS0,
    RSS1,
    RSS2,
}

/// Text of a generic feed, or a link to it.
#[derive(Clone, Debug)]
pub struct Text {
    pub src: Option<String>,
    pub content: String,
}

/// A link to a resource related to a generic feed or entry.
#[derive(Clone, Debug)]
pub struct Link {
    pub href: String,
    pub rel: Option<String>,
    pub media_type: Option<String>,
    pub title: Option<String>,
}

/// An entry of a generic feed. `published` is the publish date, in seconds
/// since the Unix epoch.
#[derive(Clone, Debug)]
pub struct Entry {
    pub id: String,
    pub title: Option<Text>,
    pub links: Vec<Link>,
    pub summary: Option<Text>,
    pub published: Option<i64>,
}

/// An item of an RSS 2.0 channel.
#[derive(Clone, Debug)]
pub struct Item {
    pub title: Option<String>,
    pub link: Option<String>,
    pub description: Option<String>,
    pub author: Option<String>,
    pub guid: Option<String>,
    pub pub_date: Option<String>,
    pub content: Option<String>,
    pub extensions: ExtensionMap,
}

/// The extension elements of an RSS item, by namespace prefix and then by
/// local name, as the RSS reader hands them over.
pub type ExtensionMap = BTreeMap<String, BTreeMap<String, Vec<RssExtension>>>;

/// An extension element of an RSS document, carried through unchanged.
#[verifier::external_type_specification]
#[verifier::external_body]
pub struct ExRssExtension(RssExtension);

/// A parsed RSS 2.0 channel with its items.
#[derive(Clone, Debug)]
pub struct Channel {
    pub title: String,
    pub link: String,
    pub description: String,
    pub language: Option<String>,
    pub pub_date: Option<String>,
    pub last_build_date: Option<String>,
    pub items: Vec<Item>,
}

/// The channel-level data of an RSS 2.0 channel.
#[derive(Clone, Debug)]
pub struct ChannelHeader {
    pub title: String,
    pub link: String,
    pub description: String,
    pub language: Option<String>,
    pub pub_date: Option<String>,
    pub last_build_date: Option<String>,
}

/// A parsed generic (Atom / JSON Feed) document with its entries.
#[derive(Clone, Debug)]
pub struct GenericFeed {
    pub feed_type: FeedType,
    pub id: String,
    pub title: Option<Text>,
    pub description: Option<Text>,
    pub updated: Option<i64>,
    pub published: Option<i64>,
    pub language: Option<String>,
    pub ttl: Option<u32>,
    pub entries: Vec<Entry>,
}

/// The feed-level data of a generic document.
#[derive(Clone, Debug)]
pub struct GenericHeader {
    pub feed_type: FeedType,
    pub id: String,
    pub title: Option<String>,
    pub description: Option<String>,
    pub updated: Option<i64>,
    pub published: Option<i64>,
    pub language: Option<String>,
    pub ttl: Option<u32>,
}

/// The header of a feed, of either format.
#[derive(Clone, Debug)]
pub enum FeedHeader {
    Rss(ChannelHeader),
    FeedRs(GenericHeader),
}

/// An item of a feed, of either format.
#[derive(Clone, Debug)]
pub enum FeedItem {
    Rss(Item),
    FeedRs(Entry),
}

/// A downloaded and parsed feed document.
#[derive(Clone, Debug)]
pub enum FeedDownload {
    Rss(Channel),
    Feed(GenericFeed),
}

/// A stored header with its sequence id.
#[derive(Clone, Debug)]
pub struct FeedHeaderMeta {
    pub id: usize,
    pub header: FeedHeader,
}

/// A stored item with its sequence id.
#[derive(Clone, Debug)]
pub struct FeedItemMeta {
    pub id: usize,
    pub item: FeedItem,
}

/// The identity key of an item: its title and raw date as the source wrote them.
pub type ItemKey = (Option<String>, Option<String>);

/// The view of an identity key.
pub open spec fn key_view(k: ItemKey) -> (Option<Seq<char>>, Option<Seq<char>>) {
    (opt_view(k.0), opt_view(k.1))
}

/// The text of an optional generic text.
pub open spec fn text_content(t: Option<Text>) -> Option<Seq<char>> {
    match t {
        Some(t) => Some(t.content@),
        None => None,
    }
}

/// Whether two headers hold the same values.
pub open spec fn same_header(a: FeedHeader, b: FeedHeader) -> bool {
    match (a, b) {
        (FeedHeader::Rss(x), FeedHeader::Rss(y)) => {
            &&& x.title@ == y.title@
            &&& x.link@ == y.link@
            &&& x.description@ == y.description@
            &&& opt_view(x.language) == opt_view(y.language)
            &&& opt_view(x.pub_date) == opt_view(y.pub_date)
            &&& opt_view(x.last_build_date) == opt_view(y.last_build_date)
        },
        (FeedHeader::FeedRs(x), FeedHeader::FeedRs(y)) => {
            &&& x.feed_type == y.feed_type
            &&& x.id@ == y.id@
            &&& opt_view(x.title) == opt_view(y.title)
            &&& opt_view(x.description) == opt_view(y.description)
            &&& x.updated == y.updated
            &&& x.published == y.published
            &&& opt_view(x.language) == opt_view(y.language)
            &&& x.ttl == y.ttl
        },
        _ => false,
    }
}

/// Whether two headers hold the same values.
pub fn header_eq(a: &FeedHeader, b: &FeedHeader) -> (r: bool)
    ensures
        r == same_header(*a, *b),
{
    match (a, b) {
        (FeedHeader::Rss(x), FeedHeader::Rss(y)) => {
            x.title == y.title && x.link == y.link && x.description == y.description
                && opt_str_eq(&x.language, &y.language) && opt_str_eq(&x.pub_date, &y.pub_date)
                && opt_str_eq(&x.last_build_date, &y.last_build_date)
        },
        (FeedHeader::FeedRs(x), FeedHeader::FeedRs(y)) => {
            x.feed_type == y.feed_type && x.id == y.id && opt_str_eq(&x.title, &y.title)
                && opt_str_eq(&x.description, &y.description) && opt_i64_eq(x.updated, y.updated)
                && opt_i64_eq(x.published, y.published) && opt_str_eq(&x.language, &y.language)
                && match (x.ttl, y.ttl) {
                (Some(a), Some(b)) => a == b,
                (None, None) => true,
                _ => false,
            }
        },
        _ => false,
    }
}

impl FeedItem {
    /// The identity key of the item.
    pub open spec fn key_spec(self) -> (Option<Seq<char>>, Option<Seq<char>>) {
        match self {
            FeedItem::Rss(i) => (opt_view(i.title), opt_view(i.pub_date)),
            FeedItem::FeedRs(e) => (
                text_content(e.title),
                match e.published {
                    Some(t) => Some(decimal(t as int)),
                    None => None,
                },
            ),
        }
    }

    /// The effective publish date: the instant of the item's date, with
    /// spelled-out weekday names repaired for RSS, or the sentinel.
    pub open spec fn date_spec(self) -> i64 {
        match self {
            FeedItem::Rss(i) => effective_date(opt_view(i.pub_date), true),
            FeedItem::FeedRs(e) => match e.published {
                Some(t) => t,
                None => OLD_DATE,
            },
        }
    }

    /// The trimmed title of the item, if it has one.
    pub open spec fn title_spec(self) -> Option<Seq<char>> {
        match self {
            FeedItem::Rss(i) => match i.title {
                Some(t) => Some(trimmed(t@)),
                None => None,
            },
            FeedItem::FeedRs(e) => match e.title {
                Some(t) => Some(trimmed(t.content@)),
                None => None,
            },
        }
    }

    /// The link to the item's content: the RSS link, or the first link of an entry.
    pub open spec fn link_spec(self) -> Option<Seq<char>> {
        match self {
            FeedItem::Rss(i) => opt_view(i.link),
            FeedItem::FeedRs(e) => if e.links@.len() > 0 {
                Some(e.links@[0].href@)
            } else {
                None
            },
        }
    }

    /// The identity key of the item.
    pub fn key(&self) -> (r: ItemKey)
        ensures
            key_view(r) == self.key_spec(),
    {
        match self {
            FeedItem::Rss(i) => (opt_str_clone(&i.title), opt_str_clone(&i.pub_date)),
            FeedItem::FeedRs(e) => {
                let t = match &e.title {
                    Some(t) => Some(t.content.clone()),
                    None => None,
                };
                let d = match e.published {
                    Some(x) => Some(decimal_text(x)),
                    None => None,
                };
                (t, d)
            },
        }
    }

    /// The effective publish date (seconds since the Unix epoch).
    pub fn publish_date_or_old(&self) -> (r: i64)
        ensures
            r == self.date_spec(),
    {
        match self {
            FeedItem::Rss(i) => effective_date_of(&i.pub_date, true),
            FeedItem::FeedRs(e) => match e.published {
                Some(t) => t,
                None => OLD_DATE,
            },
        }
    }

    /// The item's title without surrounding whitespace.
    pub fn display_title(&self) -> (r: Option<&str>)
        ensures
            match r {
                Some(t) => self.title_spec() == Some(t@),
                None => self.title_spec() is None,
            },
    {
        match self {
            FeedItem::Rss(i) => match &i.title {
                Some(t) => Some(trim(t.as_str())),
                None => None,
            },
            FeedItem::FeedRs(e) => match &e.title {
                Some(t) => Some(trim(t.content.as_str())),
                None => None,
            },
        }
    }

    /// The link to the item's content.
    pub fn content_link(&self) -> (r: Option<&str>)
        ensures
            match r {
                Some(t) => self.link_spec() == Some(t@),
                None => self.link_spec() is None,
            },
    {
        match self {
            FeedItem::Rss(i) => match &i.link {
                Some(l) => Some(l.as_str()),
                None => None,
            },
            FeedItem::FeedRs(e) => if e.links.len() > 0 {
                Some(e.links[0].href.as_str())
            } else {
                None
            },
        }
    }

    /// Sorts `items` by effective publish date, oldest first; items with equal
    /// dates keep their relative order.
    pub fn sort(items: &mut Vec<FeedItem>)
        ensures
            final(items)@ == sorted_items(old(items)@),
            dates_sorted(final(items)@),
    {
        let mut keyed: Vec<(i64, FeedItem)> = Vec::new();
        let ghost src = items@;
        let n = items.len();
        while items.len() > 0
            invariant
                n == src.len(),
                keyed@.len() + items@.len() == n,
                items@ == src.subrange(keyed@.len() as int, n as int),
                keyed@ == keyed_by_date(src.subrange(0, keyed@.len() as int)),
            decreases items@.len(),
        {
            let ghost k = keyed@.len() as int;
            let x = items.remove(0);
            let d = x.publish_date_or_old();
            keyed.push((d, x));
            assert(keyed@ =~= keyed_by_date(src.subrange(0, k + 1)));
            assert(items@ =~= src.subrange(k + 1, n as int));
        }
        assert(src.subrange(0, n as int) =~= src);
        let sorted = sort_pairs(keyed);
        *items = strip_keys(sorted);
        proof {
            lemma_strip_keys_sorted(src);
        }
    }
}

/// Each item paired with its effective date.
pub open spec fn keyed_by_date(s: Seq<FeedItem>) -> Seq<(i64, FeedItem)> {
    s.map_values(|x: FeedItem| (x.date_spec(), x))
}

/// The items of `s` in stable order of effective date.
pub open spec fn sorted_items(s: Seq<FeedItem>) -> Seq<FeedItem> {
    sort_by_key(keyed_by_date(s)).map_values(|p: (i64, FeedItem)| p.1)
}

/// Whether the effective dates of `s` never decrease.
pub open spec fn dates_sorted(s: Seq<FeedItem>) -> bool {
    forall|i: int, j: int| 0 <= i < j < s.len() ==> s[i].date_spec() <= s[j].date_spec()
}

/// The stable date order keeps every item and puts them oldest first.
pub proof fn lemma_strip_keys_sorted(src: Seq<FeedItem>)
    ensures
        dates_sorted(sorted_items(src)),
        sorted_items(src).len() == src.len(),
{
    let k = keyed_by_date(src);
    let s = sort_by_key(k);
    lemma_sort_by_key_sorted(k);
    assert forall|i: int| 0 <= i < s.len() implies s[i].0 == (#[trigger] s[i]).1.date_spec() by {
        assert(s.to_multiset().count(s[i]) > 0);
        assert(k.to_multiset().count(s[i]) > 0);
        assert(k.contains(s[i]));
        let j = choose|j: int| 0 <= j < k.len() && k[j] == s[i];
    }
}

impl FeedItemMeta {
    /// An item with the sequence id `id`.
    pub fn new(id: usize, item: FeedItem) -> (r: Self)
        ensures
            r.id == id,
            r.item == item,
    {
        FeedItemMeta { id, item }
    }

    /// The item's sequence id.
    pub fn id(&self) -> (r: usize)
        ensures
            r == self.id,
    {
        self.id
    }

    /// The effective publish date of the item.
    pub fn publish_date_or_old(&self) -> (r: i64)
        ensures
            r == self.item.date_spec(),
    {
        self.item.publish_date_or_old()
    }

    /// The item's title without surrounding whitespace.
    pub fn display_title(&self) -> (r: Option<&str>)
        ensures
            match r {
                Some(t) => self.item.title_spec() == Some(t@),
                None => self.item.title_spec() is None,
            },
    {
        self.item.display_title()
    }

    /// The link to the item's content.
    pub fn content_link(&self) -> (r: Option<&str>)
        ensures
            match r {
                Some(t) => self.item.link_spec() == Some(t@),
                None => self.item.link_spec() is None,
            },
    {
        self.item.content_link()
    }
}

impl FeedHeaderMeta {
    /// A header with the sequence id `id`.
    pub fn new(id: usize, header: FeedHeader) -> (r: Self)
        ensures
            r.id == id,
            r.header == header,
    {
        FeedHeaderMeta { id, header }
    }

    /// The header's sequence id.
    pub fn id(&self) -> (r: usize)
        ensures
            r == self.id,
    {
        self.id
    }
}

} // verus!
