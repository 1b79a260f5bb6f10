//! Title cleanup: item titles without the feed's own title (or one of its
//! aliases) repeated in front.
use vstd::prelude::*;

use crate::feed::Feed;
use crate::model::FeedItemMeta;
use crate::order::{lemma_sort_map_payload, map_payload, sort_by_key, sort_pairs, strip_keys};
use crate::text::{strip_char, strip_prefix, trim, trimmed, without_prefix};

verus! {

/// `t` trimmed, without `p` in front, then without a leading `-` and then a
/// leading `:`, trimming after each step.
pub open spec fn strip_one(t: Seq<char>, p: Seq<char>) -> Seq<char> {
    let t1 = trimmed(without_prefix(trimmed(t), p));
    let t2 = trimmed(without_prefix(t1, seq!['-']));
    trimmed(without_prefix(t2, seq![':']))
}

/// `t` with the prefixes of `ps` stripped in turn, first to last.
pub open spec fn strip_all(t: Seq<char>, ps: Seq<Seq<char>>) -> Seq<char>
    decreases ps.len(),
{
    if ps.len() == 0 {
        t
    } else {
        strip_all(strip_one(t, ps[0]), ps.drop_first())
    }
}

/// A length as a sort key (lengths beyond `i64::MAX` all count as `i64::MAX`).
pub open spec fn len_key(n: nat) -> i64 {
    if n > i64::MAX {
        i64::MAX
    } else {
        n as i64
    }
}

/// Each title trimmed, paired with its length.
pub open spec fn keyed_by_len(ts: Seq<Seq<char>>) -> Seq<(i64, Seq<char>)> {
    ts.map_values(|t: Seq<char>| (len_key(trimmed(t).len()), trimmed(t)))
}

/// The trimmed titles, longest first: the reverse of their stable order by length.
pub open spec fn prefixes_longest_first(ts: Seq<Seq<char>>) -> Seq<Seq<char>> {
    sort_by_key(keyed_by_len(ts)).map_values(|p: (i64, Seq<char>)| p.1).reverse()
}

/// An item title with the feed's titles (`ts`: its name, then its aliases)
/// stripped from its front, longest first.
pub open spec fn title_without_prefixes(title: Seq<char>, ts: Seq<Seq<char>>) -> Seq<char> {
    strip_all(title, prefixes_longest_first(ts))
}

fn reversed<T: Copy>(v: &Vec<T>) -> (r: Vec<T>)
    ensures
        r@ == v@.reverse(),
{
    let mut r: Vec<T> = Vec::new();
    let mut i: usize = v.len();
    while i > 0
        invariant
            i <= v@.len(),
            r@ == v@.subrange(i as int, v@.len() as int).reverse(),
        decreases i,
    {
        i = i - 1;
        r.push(v[i]);
        assert(r@ =~= v@.subrange(i as int, v@.len() as int).reverse());
    }
    assert(v@.subrange(0, v@.len() as int) =~= v@);
    r
}

impl FeedItemMeta {
    /// `t` trimmed, without `prefix` in front, then without a leading `-`
    /// and a leading `:`, trimming after each step.
    pub fn strip_prefix<'a>(t: &'a str, prefix: &str) -> (r: &'a str)
        ensures
            r@ == strip_one(t@, prefix@),
    {
        let t = trim(t);
        let t = trim(strip_prefix(t, prefix));
        let t = trim(strip_char(t, '-'));
        trim(strip_char(t, ':'))
    }

    /// The item's title without the feed's name or any of its title aliases
    /// in front (tried longest first), nor the separator after it.
    pub fn display_title_without_prefixes<'a>(&'a self, feed: &Feed) -> (r: Option<&'a str>)
        ensures
            match r {
                Some(t) => exists|d: Seq<char>|
                    self.item.title_spec() == Some(d) && t@ == title_without_prefixes(
                        d,
                        seq![feed.name_spec()] + feed.aliases_spec(),
                    ),
                None => self.item.title_spec() is None,
            },
    {
        let t0 = match self.display_title() {
            Some(t) => t,
            None => return None,
        };
        let titles = feed.titles();
        let ghost ts = titles@.map_values(|s: &str| s@);
        let mut keyed: Vec<(i64, &str)> = Vec::new();
        let mut i: usize = 0;
        while i < titles.len()
            invariant
                i <= titles@.len(),
                ts == titles@.map_values(|s: &str| s@),
                map_payload(keyed@, |s: &str| s@) == keyed_by_len(ts.subrange(0, i as int)),
            decreases titles@.len() - i,
        {
            let p = trim(titles[i]);
            let ghost prev = keyed@;
            let n = p.unicode_len();
            let key: i64 = if n as u128 > i64::MAX as u128 {
                i64::MAX
            } else {
                n as i64
            };
            keyed.push((key, p));
            assert(key == len_key(p@.len()));
            assert(ts[i as int] == titles@[i as int]@);
            assert(map_payload(keyed@, |s: &str| s@) =~= map_payload(prev, |s: &str| s@).push(
                (key, p@),
            ));
            assert(keyed_by_len(ts.subrange(0, i + 1)) =~= keyed_by_len(
                ts.subrange(0, i as int),
            ).push((len_key(trimmed(ts[i as int]).len()), trimmed(ts[i as int]))));
            i = i + 1;
        }
        assert(ts.subrange(0, i as int) =~= ts);
        let ghost k0 = keyed@;
        let sorted = sort_pairs(keyed);
        proof {
            lemma_sort_map_payload(k0, |s: &str| s@);
        }
        let ps = strip_keys(sorted);
        let ps = reversed(&ps);
        let ghost pv = ps@.map_values(|s: &str| s@);
        assert(pv =~= prefixes_longest_first(ts)) by {
            let a = sort_by_key(keyed_by_len(ts));
            assert(a =~= map_payload(sorted@, |s: &str| s@));
            assert(pv.len() == a.len());
            assert forall|j: int| 0 <= j < pv.len() implies pv[j] == a.map_values(
                |p: (i64, Seq<char>)| p.1,
            ).reverse()[j] by {}
        }
        let mut t = t0;
        let mut j: usize = 0;
        assert(pv.subrange(0, pv.len() as int) =~= pv);
        while j < ps.len()
            invariant
                j <= ps@.len(),
                pv == ps@.map_values(|s: &str| s@),
                strip_all(t0@, pv) == strip_all(t@, pv.subrange(j as int, pv.len() as int)),
            decreases ps@.len() - j,
        {
            let ghost rest = pv.subrange(j as int, pv.len() as int);
            assert(rest[0] == ps@[j as int]@);
            assert(rest.drop_first() =~= pv.subrange(j + 1, pv.len() as int));
            t = Self::strip_prefix(t, ps[j]);
            j = j + 1;
        }
        assert(pv.subrange(j as int, pv.len() as int) =~= Seq::<Seq<char>>::empty());
        assert(self.item.title_spec() == Some(t0@));
        assert(t@ == title_without_prefixes(t0@, seq![feed.name_spec()] + feed.aliases_spec()));
        Some(t)
    }
}

} // verus!
