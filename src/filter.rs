//! Tag filters: a comma-separated list of tags a feed must carry (`name`),
//! must not carry (`!name`), and `=` for "no other tags".
use vstd::prelude::*;

use crate::feed::Feed;
use crate::text::{string_of, trim, trimmed};

verus! {

/// The characters a tag may hold: lowercase ASCII letters and `_`.
pub open spec fn tag_char(c: char) -> bool {
    ('a' <= c && c <= 'z') || c == '_'
}

/// Whether `s` is a tag: not empty, and made of tag characters only.
pub open spec fn valid_tag(s: Seq<char>) -> bool {
    s.len() > 0 && forall|i: int| 0 <= i < s.len() ==> tag_char(#[trigger] s[i])
}

/// A valid tag.
#[derive(Clone, Debug)]
pub struct Tag(String);

impl Tag {
    pub closed spec fn view(self) -> Seq<char> {
        self.0@
    }

    /// The tag written in `raw` (surrounding whitespace ignored); `None`
    /// where that is empty or holds a character other than `a`-`z` and `_`.
    pub fn new(raw: &str) -> (r: Option<Tag>)
        ensures
            match r {
                Some(t) => valid_tag(trimmed(raw@)) && t.view() == trimmed(raw@),
                None => !valid_tag(trimmed(raw@)),
            },
    {
        let t = trim(raw);
        let n = t.unicode_len();
        if n == 0 {
            return None;
        }
        let mut i: usize = 0;
        while i < n
            invariant
                n == t@.len(),
                t@ == trimmed(raw@),
                i <= n,
                forall|j: int| 0 <= j < i ==> tag_char(#[trigger] t@[j]),
            decreases n - i,
        {
            let c = t.get_char(i);
            if !(('a' <= c && c <= 'z') || c == '_') {
                assert(!tag_char(t@[i as int]));
                return None;
            }
            i = i + 1;
        }
        Some(Tag(t.to_owned()))
    }

    /// The tag's text.
    pub fn as_str(&self) -> (r: &str)
        ensures
            r@ == self.view(),
    {
        self.0.as_str()
    }
}

/// One condition of a filter.
#[derive(Clone, Debug)]
pub enum FilterPattern {
    Has(Tag),
    HasNot(Tag),
}

/// The view of a condition: whether the tag is required, and the tag.
pub open spec fn pattern_view(p: FilterPattern) -> (bool, Seq<char>) {
    match p {
        FilterPattern::Has(t) => (true, t.view()),
        FilterPattern::HasNot(t) => (false, t.view()),
    }
}

/// The pieces of `s` between commas (`n` commas give `n + 1` pieces).
pub open spec fn comma_pieces(s: Seq<char>) -> Seq<Seq<char>>
    decreases s.len(),
{
    if s.len() == 0 {
        seq![seq![]]
    } else {
        let prev = comma_pieces(s.drop_last());
        if s.last() == ',' {
            prev.push(seq![])
        } else {
            prev.update(prev.len() - 1, prev.last().push(s.last()))
        }
    }
}

/// The condition a trimmed piece stands for: `!tag` excludes, `tag` requires;
/// anything that is no tag stands for none.
pub open spec fn piece_pattern(p: Seq<char>) -> Option<(bool, Seq<char>)> {
    if p.len() > 0 && p[0] == '!' {
        if valid_tag(trimmed(p.drop_first())) {
            Some((false, trimmed(p.drop_first())))
        } else {
            None
        }
    } else if valid_tag(trimmed(p)) {
        Some((true, trimmed(p)))
    } else {
        None
    }
}

/// The conditions of the pieces, in order (a piece `=` stands for none).
pub open spec fn patterns_of(ps: Seq<Seq<char>>) -> Seq<(bool, Seq<char>)>
    decreases ps.len(),
{
    if ps.len() == 0 {
        seq![]
    } else {
        let prev = patterns_of(ps.drop_last());
        let p = trimmed(ps.last());
        if p == seq!['='] {
            prev
        } else {
            match piece_pattern(p) {
                Some(x) => prev.push(x),
                None => prev,
            }
        }
    }
}

/// Whether a piece of `ps` is `=`.
pub open spec fn exact_of(ps: Seq<Seq<char>>) -> bool {
    exists|i: int| 0 <= i < ps.len() && trimmed(#[trigger] ps[i]) == seq!['=']
}

/// A parsed tag filter.
pub struct Filter {
    pattern: Vec<FilterPattern>,
    raw: String,
    exact: bool,
}

/// The number of required tags among the conditions.
pub open spec fn required_count(ps: Seq<(bool, Seq<char>)>) -> nat
    decreases ps.len(),
{
    if ps.len() == 0 {
        0
    } else {
        required_count(ps.drop_last()) + if ps.last().0 {
            1nat
        } else {
            0nat
        }
    }
}

/// Whether a feed with tags `tags` passes the conditions: it carries every
/// required tag, no excluded one, and, when exact, as many tags as there are
/// required ones.
pub open spec fn passes(ps: Seq<(bool, Seq<char>)>, exact: bool, tags: Seq<Seq<char>>) -> bool {
    &&& forall|i: int| 0 <= i < ps.len() ==> (#[trigger] ps[i]).0 ==> tags.contains(ps[i].1)
    &&& forall|i: int| 0 <= i < ps.len() ==> !(#[trigger] ps[i]).0 ==> !tags.contains(ps[i].1)
    &&& (exact ==> required_count(ps) == tags.len())
}

fn split_commas(s: &str) -> (r: Vec<String>)
    ensures
        r@.map_values(|x: String| x@) == comma_pieces(s@),
{
    let n = s.unicode_len();
    let mut pieces: Vec<String> = Vec::new();
    let mut cur: Vec<char> = Vec::new();
    let mut i: usize = 0;
    while i < n
        invariant
            n == s@.len(),
            i <= n,
            pieces@.map_values(|x: String| x@).push(cur@) == comma_pieces(s@.subrange(0, i as int)),
        decreases n - i,
    {
        let c = s.get_char(i);
        let ghost before = pieces@.map_values(|x: String| x@).push(cur@);
        proof {
            let sub = s@.subrange(0, i + 1);
            assert(sub.drop_last() =~= s@.subrange(0, i as int));
            assert(sub.last() == c);
        }
        if c == ',' {
            let done = string_of(&cur);
            pieces.push(done);
            cur = Vec::new();
            assert(pieces@.map_values(|x: String| x@).push(cur@) =~= before.push(seq![]));
        } else {
            cur.push(c);
            assert(pieces@.map_values(|x: String| x@).push(cur@) =~= before.update(
                before.len() - 1,
                before.last().push(c),
            ));
        }
        i = i + 1;
    }
    assert(s@.subrange(0, n as int) =~= s@);
    let ghost pv = pieces@.map_values(|x: String| x@);
    let last = string_of(&cur);
    pieces.push(last);
    assert(pieces@.map_values(|x: String| x@) =~= pv.push(cur@));
    pieces
}

impl Filter {
    /// The conditions, in order.
    pub closed spec fn patterns_spec(self) -> Seq<(bool, Seq<char>)> {
        self.pattern@.map_values(|p: FilterPattern| pattern_view(p))
    }

    /// Whether the filter asks for no tags beyond the required ones.
    pub closed spec fn exact_spec(self) -> bool {
        self.exact
    }

    /// The text the filter was read from.
    pub closed spec fn raw_spec(self) -> Seq<char> {
        self.raw@
    }

    /// Reads a filter from its text (absent text reads as empty): the pieces
    /// between commas, trimmed, are `=` (exact), `!tag` (excluded) or `tag`
    /// (required); pieces that are none of these are ignored.
    pub fn new(raw: Option<String>) -> (r: Self)
        ensures
            r.raw_spec() == match raw {
                Some(s) => s@,
                None => Seq::<char>::empty(),
            },
            r.patterns_spec() == patterns_of(comma_pieces(r.raw_spec())),
            r.exact_spec() == exact_of(comma_pieces(r.raw_spec())),
    {
        let raw = match raw {
            Some(s) => s,
            None => String::new(),
        };
        let pieces = split_commas(raw.as_str());
        let ghost pv = pieces@.map_values(|x: String| x@);
        let mut pattern: Vec<FilterPattern> = Vec::new();
        let mut exact = false;
        let mut i: usize = 0;
        while i < pieces.len()
            invariant
                i <= pieces@.len(),
                pv == pieces@.map_values(|x: String| x@),
                pattern@.map_values(|p: FilterPattern| pattern_view(p)) == patterns_of(
                    pv.subrange(0, i as int),
                ),
                exact == exact_of(pv.subrange(0, i as int)),
            decreases pieces@.len() - i,
        {
            let ghost before = pattern@.map_values(|p: FilterPattern| pattern_view(p));
            let ghost sub = pv.subrange(0, i + 1);
            proof {
                assert(sub.drop_last() =~= pv.subrange(0, i as int));
                assert(sub.last() == pieces@[i as int]@);
            }
            let piece = trim(pieces[i].as_str());
            let n = piece.unicode_len();
            let is_eq = n == 1 && piece.get_char(0) == '=';
            proof {
                if is_eq {
                    assert(piece@ =~= seq!['=']);
                } else if piece@ == seq!['='] {
                    assert(piece@[0] == '=');
                }
                if exact_of(sub) {
                    let k = choose|k: int| 0 <= k < sub.len() && trimmed(#[trigger] sub[k]) == seq!['='];
                    if k < i {
                        assert(pv.subrange(0, i as int)[k] == sub[k]);
                    }
                }
                if exact_of(pv.subrange(0, i as int)) {
                    let k = choose|k: int| 0 <= k < i && trimmed(#[trigger] pv.subrange(0, i as int)[k]) == seq!['='];
                    assert(sub[k] == pv.subrange(0, i as int)[k]);
                }
                if is_eq {
                    assert(trimmed(sub[i as int]) == seq!['=']);
                }
            }
            if is_eq {
                exact = true;
            } else {
                let neg = n > 0 && piece.get_char(0) == '!';
                let body = if neg {
                    piece.substring_char(1, n)
                } else {
                    piece
                };
                proof {
                    if neg {
                        assert(body@ =~= piece@.drop_first());
                    }
                    if n > 0 && piece@[0] == '!' {
                        assert(neg);
                    }
                }
                match Tag::new(body) {
                    Some(tag) => {
                        let pat = if neg {
                            FilterPattern::HasNot(tag)
                        } else {
                            FilterPattern::Has(tag)
                        };
                        let ghost pview = pattern_view(pat);
                        pattern.push(pat);
                        assert(pattern@.map_values(|p: FilterPattern| pattern_view(p)) =~= before.push(
                            pview,
                        ));
                    },
                    None => {},
                }
            }
            i = i + 1;
        }
        assert(pv.subrange(0, i as int) =~= pv);
        Filter { pattern, raw, exact }
    }

    /// Whether a feed passes the filter: it carries every required tag and
    /// no excluded one, and, for an exact filter, exactly as many tags as
    /// the filter requires.
    pub fn matches(&self, feed: &Feed) -> (r: bool)
        ensures
            r == passes(self.patterns_spec(), self.exact_spec(), feed.tags_spec()),
    {
        let ghost ps = self.patterns_spec();
        let mut count: usize = 0;
        let mut i: usize = 0;
        while i < self.pattern.len()
            invariant
                i <= self.pattern@.len(),
                ps == self.patterns_spec(),
                count == required_count(ps.subrange(0, i as int)),
                count <= i,
                forall|j: int| 0 <= j < i ==> (#[trigger] ps[j]).0 ==> feed.tags_spec().contains(ps[j].1),
                forall|j: int| 0 <= j < i ==> !(#[trigger] ps[j]).0 ==> !feed.tags_spec().contains(ps[j].1),
            decreases self.pattern@.len() - i,
        {
            proof {
                let sub = ps.subrange(0, i + 1);
                assert(sub.drop_last() =~= ps.subrange(0, i as int));
                assert(sub.last() == ps[i as int]);
            }
            match &self.pattern[i] {
                FilterPattern::Has(tag) => {
                    if !feed.contains_tag(tag.as_str()) {
                        return false;
                    }
                    count = count + 1;
                },
                FilterPattern::HasNot(tag) => {
                    if feed.contains_tag(tag.as_str()) {
                        return false;
                    }
                },
            }
            i = i + 1;
        }
        assert(ps.subrange(0, i as int) =~= ps);
        !self.exact || count == feed.tags().len()
    }

    /// The text the filter was read from.
    pub fn raw(&self) -> (r: &str)
        ensures
            r@ == self.raw_spec(),
    {
        self.raw.as_str()
    }

    /// The text the filter was read from, or `None` where it is empty.
    pub fn raw_opt(&self) -> (r: Option<&str>)
        ensures
            match r {
                Some(s) => s@ == self.raw_spec() && s@.len() > 0,
                None => self.raw_spec().len() == 0,
            },
    {
        if self.raw.as_str().unicode_len() == 0 {
            None
        } else {
            Some(self.raw.as_str())
        }
    }
}

} // verus!
