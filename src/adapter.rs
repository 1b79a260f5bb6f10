//! The feed format adapter: reads a downloaded document as RSS 2.0, prefers
//! that reading over a generic (Atom / JSON Feed) one, and splits a document
//! into a header and items.
use vstd::prelude::*;

use crate::model::{
    ExtensionMap, Channel, ChannelHeader, Entry, FeedDownload, FeedHeader, FeedItem, FeedType, GenericFeed,
    GenericHeader, Item, Link, Text,
};

verus! {

/// Whether `body` is a document that the RSS 2.0 reader accepts.
pub uninterp spec fn rss_accepts(body: Seq<u8>) -> bool;

/// Relies on `rss::Channel::read_from`, which parses an RSS 2.0 document and
/// fails on anything else; the fields are copied over as they are (a guid by
/// its value).
#[verifier::external_body]
fn read_rss(body: &[u8]) -> (r: Option<Channel>)
    ensures
        r is Some <==> rss_accepts(body@),
{
    let c = rss::Channel::read_from(body).ok()?;
    let items = c.items.into_iter().map(|i| Item::new(i.title, i.link, i.description, i.author,
        i.guid.map(|g| g.value), i.pub_date, i.content, i.extensions)).collect();
    Some(Channel::new(c.title, c.link, c.description, c.language, c.pub_date, c.last_build_date, items))
}

/// Parses a downloaded document as RSS 2.0; `None` where the RSS reader does
/// not accept it (the document may then still be a generic feed).
pub fn parse_rss(body: &[u8]) -> (r: Option<FeedDownload>)
    ensures
        r is Some <==> rss_accepts(body@),
        r is Some ==> r->0 is Rss,
{
    match read_rss(body) {
        Some(c) => Some(FeedDownload::Rss(c)),
        None => None,
    }
}

/// The document to use: the RSS reading where there is one, else the
/// generic reading.
pub fn pick_document(rss: Option<FeedDownload>, generic: Option<GenericFeed>) -> (r: Option<FeedDownload>)
    ensures
        rss is Some ==> r == rss,
        rss is None ==> r == match generic {
            Some(g) => Some(FeedDownload::Feed(g)),
            None => None,
        },
{
    match rss {
        Some(d) => Some(d),
        None => match generic {
            Some(g) => Some(FeedDownload::Feed(g)),
            None => None,
        },
    }
}

impl Text {
    /// A text with the given source link and content.
    pub fn new(src: Option<String>, content: String) -> (r: Self)
        ensures
            r.src == src,
            r.content == content,
    {
        Text { src, content }
    }
}

impl Link {
    /// A link with the given fields.
    pub fn new(
        href: String,
        rel: Option<String>,
        media_type: Option<String>,
        title: Option<String>,
    ) -> (r: Self)
        ensures
            r.href == href,
            r.rel == rel,
            r.media_type == media_type,
            r.title == title,
    {
        Link { href, rel, media_type, title }
    }
}

impl Entry {
    /// An entry with the given fields.
    pub fn new(
        id: String,
        title: Option<Text>,
        links: Vec<Link>,
        summary: Option<Text>,
        published: Option<i64>,
    ) -> (r: Self)
        ensures
            r.id == id,
            r.title == title,
            r.links == links,
            r.summary == summary,
            r.published == published,
    {
        Entry { id, title, links, summary, published }
    }
}

impl Item {
    /// An RSS item with the given fields.
    pub fn new(
        title: Option<String>,
        link: Option<String>,
        description: Option<String>,
        author: Option<String>,
        guid: Option<String>,
        pub_date: Option<String>,
        content: Option<String>,
        extensions: ExtensionMap,
    ) -> (r: Self)
        ensures
            r.title == title,
            r.link == link,
            r.description == description,
            r.author == author,
            r.guid == guid,
            r.pub_date == pub_date,
            r.content == content,
            r.extensions == extensions,
    {
        Item { title, link, description, author, guid, pub_date, content, extensions }
    }
}

impl Channel {
    /// A channel with the given fields and items.
    pub fn new(
        title: String,
        link: String,
        description: String,
        language: Option<String>,
        pub_date: Option<String>,
        last_build_date: Option<String>,
        items: Vec<Item>,
    ) -> (r: Self)
        ensures
            r.title == title,
            r.link == link,
            r.description == description,
            r.language == language,
            r.pub_date == pub_date,
            r.last_build_date == last_build_date,
            r.items == items,
    {
        Channel { title, link, description, language, pub_date, last_build_date, items }
    }
}

impl GenericFeed {
    /// A generic feed with the given fields and entries.
    pub fn new(
        feed_type: FeedType,
        id: String,
        title: Option<Text>,
        description: Option<Text>,
        updated: Option<i64>,
        published: Option<i64>,
        language: Option<String>,
        ttl: Option<u32>,
        entries: Vec<Entry>,
    ) -> (r: Self)
        ensures
            r.feed_type == feed_type,
            r.id == id,
            r.title == title,
            r.description == description,
            r.updated == updated,
            r.published == published,
            r.language == language,
            r.ttl == ttl,
            r.entries == entries,
    {
        GenericFeed { feed_type, id, title, description, updated, published, language, ttl, entries }
    }
}

impl ChannelHeader {
    /// Splits a channel into its channel-level data and its items.
    pub fn split(channel: Channel) -> (r: (ChannelHeader, Vec<Item>))
        ensures
            r.0.title == channel.title,
            r.0.link == channel.link,
            r.0.description == channel.description,
            r.0.language == channel.language,
            r.0.pub_date == channel.pub_date,
            r.0.last_build_date == channel.last_build_date,
            r.1 == channel.items,
    {
        let Channel { title, link, description, language, pub_date, last_build_date, items } =
            channel;
        (ChannelHeader { title, link, description, language, pub_date, last_build_date }, items)
    }
}

/// The content of an optional text, moved out.
fn text_into(t: Option<Text>) -> (r: Option<String>)
    ensures
        match t {
            Some(x) => r == Some(x.content),
            None => r is None,
        },
{
    match t {
        Some(x) => Some(x.content),
        None => None,
    }
}

impl GenericHeader {
    /// Splits a generic feed into its feed-level data and its entries.
    pub fn split(feed: GenericFeed) -> (r: (GenericHeader, Vec<Entry>))
        ensures
            r.0.feed_type == feed.feed_type,
            r.0.id == feed.id,
            r.0.title == (match feed.title {
                Some(t) => Some(t.content),
                None => None,
            }),
            r.0.description == (match feed.description {
                Some(t) => Some(t.content),
                None => None,
            }),
            r.0.updated == feed.updated,
            r.0.published == feed.published,
            r.0.language == feed.language,
            r.0.ttl == feed.ttl,
            r.1 == feed.entries,
    {
        let GenericFeed { feed_type, id, title, description, updated, published, language, ttl, entries } =
            feed;
        (
            GenericHeader {
                feed_type,
                id,
                title: text_into(title),
                description: text_into(description),
                updated,
                published,
                language,
                ttl,
            },
            entries,
        )
    }
}

/// The RSS items of `s`, as feed items.
pub open spec fn rss_items(s: Seq<Item>) -> Seq<FeedItem> {
    s.map_values(|i: Item| FeedItem::Rss(i))
}

/// The entries of `s`, as feed items.
pub open spec fn generic_items(s: Seq<Entry>) -> Seq<FeedItem> {
    s.map_values(|e: Entry| FeedItem::FeedRs(e))
}

/// The header of a downloaded document.
pub open spec fn download_header(d: FeedDownload) -> FeedHeader {
    match d {
        FeedDownload::Rss(c) => FeedHeader::Rss(
            ChannelHeader {
                title: c.title,
                link: c.link,
                description: c.description,
                language: c.language,
                pub_date: c.pub_date,
                last_build_date: c.last_build_date,
            },
        ),
        FeedDownload::Feed(f) => FeedHeader::FeedRs(
            GenericHeader {
                feed_type: f.feed_type,
                id: f.id,
                title: match f.title {
                    Some(t) => Some(t.content),
                    None => None,
                },
                description: match f.description {
                    Some(t) => Some(t.content),
                    None => None,
                },
                updated: f.updated,
                published: f.published,
                language: f.language,
                ttl: f.ttl,
            },
        ),
    }
}

/// The items of a downloaded document, in document order.
pub open spec fn download_items(d: FeedDownload) -> Seq<FeedItem> {
    match d {
        FeedDownload::Rss(c) => rss_items(c.items@),
        FeedDownload::Feed(f) => generic_items(f.entries@),
    }
}

impl FeedDownload {
    /// The title that the document gives its feed; empty where it gives none.
    pub fn title(&self) -> (r: &str)
        ensures
            match self {
                FeedDownload::Rss(c) => r@ == c.title@,
                FeedDownload::Feed(f) => match f.title {
                    Some(t) => r@ == t.content@,
                    None => r@.len() == 0,
                },
            },
    {
        match self {
            FeedDownload::Rss(c) => c.title.as_str(),
            FeedDownload::Feed(f) => match &f.title {
                Some(t) => t.content.as_str(),
                None => {
                    proof {
                        reveal_strlit("");
                    }
                    ""
                },
            },
        }
    }

    /// Splits the document into its header and its items, in document order.
    pub fn split_header(self) -> (r: (FeedHeader, Vec<FeedItem>))
        ensures
            r.0 == download_header(self),
            r.1@ == download_items(self),
    {
        match self {
            FeedDownload::Rss(c) => {
                let (h, items) = ChannelHeader::split(c);
                let ghost src = items@;
                let mut rest = items;
                let mut out: Vec<FeedItem> = Vec::new();
                let n = rest.len();
                while rest.len() > 0
                    invariant
                        n == src.len(),
                        out@.len() + rest@.len() == n,
                        rest@ == src.subrange(out@.len() as int, n as int),
                        out@ == rss_items(src.subrange(0, out@.len() as int)),
                    decreases rest@.len(),
                {
                    let ghost k = out@.len() as int;
                    let x = rest.remove(0);
                    out.push(FeedItem::Rss(x));
                    assert(out@ =~= rss_items(src.subrange(0, k + 1)));
                    assert(rest@ =~= src.subrange(k + 1, n as int));
                }
                assert(src.subrange(0, n as int) =~= src);
                (FeedHeader::Rss(h), out)
            },
            FeedDownload::Feed(f) => {
                let (h, entries) = GenericHeader::split(f);
                let ghost src = entries@;
                let mut rest = entries;
                let mut out: Vec<FeedItem> = Vec::new();
                let n = rest.len();
                while rest.len() > 0
                    invariant
                        n == src.len(),
                        out@.len() + rest@.len() == n,
                        rest@ == src.subrange(out@.len() as int, n as int),
                        out@ == generic_items(src.subrange(0, out@.len() as int)),
                    decreases rest@.len(),
                {
                    let ghost k = out@.len() as int;
                    let x = rest.remove(0);
                    out.push(FeedItem::FeedRs(x));
                    assert(out@ =~= generic_items(src.subrange(0, k + 1)));
                    assert(rest@ =~= src.subrange(k + 1, n as int));
                }
                assert(src.subrange(0, n as int) =~= src);
                (FeedHeader::FeedRs(h), out)
            },
        }
    }
}

} // verus!
