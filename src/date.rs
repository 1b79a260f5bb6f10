//! Publish dates: weekday-name repair, RFC 2822 parsing and the sentinel
//! used for dates that are absent or cannot be read.
use vstd::prelude::*;
use vstd::string::*;

use crate::text::string_of;

verus! {

/// The instant (seconds since the Unix epoch) that `s` denotes as an RFC 2822
/// date, or `None` where `s` is no such date.
pub uninterp spec fn rfc2822_instant(s: Seq<char>) -> Option<i64>;

/// Relies on `chrono::DateTime::parse_from_rfc2822`, which reads the date with
/// its offset; `timestamp` gives the instant it denotes.
#[verifier::external_body]
fn parse_rfc2822(s: &str) -> (r: Option<i64>)
    ensures
        r == rfc2822_instant(s@),
{
    chrono::DateTime::parse_from_rfc2822(s).ok().map(|d| d.timestamp())
}

/// The date given to items whose date is absent or unreadable:
/// 1996-12-19T16:39:57-08:00.
pub const OLD_DATE: i64 = 851042397;

/// The sentinel date, far in the past, that sorts unreadable items first.
pub fn old_date() -> (r: i64)
    ensures
        r == OLD_DATE,
{
    OLD_DATE
}

/// `s` with every occurrence of `p`, taken left to right without overlap,
/// replaced by `q`.
pub open spec fn replace_all(s: Seq<char>, p: Seq<char>, q: Seq<char>) -> Seq<char>
    decreases s.len(),
{
    if p.len() == 0 || s.len() < p.len() {
        s
    } else if s.subrange(0, p.len() as int) == p {
        q + replace_all(s.subrange(p.len() as int, s.len() as int), p, q)
    } else {
        seq![s[0]] + replace_all(s.drop_first(), p, q)
    }
}

/// The full English weekday names, each with its three-letter abbreviation.
pub open spec fn weekday(i: int) -> (Seq<char>, Seq<char>) {
    if i == 0 {
        (seq!['M', 'o', 'n', 'd', 'a', 'y'], seq!['M', 'o', 'n'])
    } else if i == 1 {
        (seq!['T', 'u', 'e', 's', 'd', 'a', 'y'], seq!['T', 'u', 'e'])
    } else if i == 2 {
        (seq!['W', 'e', 'd', 'n', 'e', 's', 'd', 'a', 'y'], seq!['W', 'e', 'd'])
    } else if i == 3 {
        (seq!['T', 'h', 'u', 'r', 's', 'd', 'a', 'y'], seq!['T', 'h', 'u'])
    } else if i == 4 {
        (seq!['F', 'r', 'i', 'd', 'a', 'y'], seq!['F', 'r', 'i'])
    } else if i == 5 {
        (seq!['S', 'a', 't', 'u', 'r', 'd', 'a', 'y'], seq!['S', 'a', 't'])
    } else {
        (seq!['S', 'u', 'n', 'd', 'a', 'y'], seq!['S', 'u', 'n'])
    }
}

/// `s` with the first `n` weekday names (Monday first) replaced by their
/// abbreviations, one name after the other.
pub open spec fn abbreviate_weekdays_upto(s: Seq<char>, n: int) -> Seq<char>
    decreases n,
{
    if n <= 0 {
        s
    } else {
        replace_all(abbreviate_weekdays_upto(s, n - 1), weekday(n - 1).0, weekday(n - 1).1)
    }
}

/// `s` with all seven full weekday names replaced by their abbreviations.
pub open spec fn abbreviate_weekdays(s: Seq<char>) -> Seq<char> {
    abbreviate_weekdays_upto(s, 7)
}

/// The effective date of a raw RFC 2822 date after weekday repair: the
/// instant it denotes, or the sentinel.
pub open spec fn effective_date(raw: Option<Seq<char>>, repair: bool) -> i64 {
    match raw {
        Some(s) => match rfc2822_instant(if repair { abbreviate_weekdays(s) } else { s }) {
            Some(t) => t,
            None => OLD_DATE,
        },
        None => OLD_DATE,
    }
}

fn chars_of(s: &str) -> (r: Vec<char>)
    ensures
        r@ == s@,
{
    let n = s.unicode_len();
    let mut r: Vec<char> = Vec::new();
    let mut i: usize = 0;
    while i < n
        invariant
            n == s@.len(),
            0 <= i <= n,
            r@ == s@.subrange(0, i as int),
        decreases n - i,
    {
        r.push(s.get_char(i));
        i = i + 1;
        assert(r@ =~= s@.subrange(0, i as int));
    }
    assert(s@.subrange(0, n as int) =~= s@);
    r
}

fn matches_at(s: &Vec<char>, i: usize, p: &Vec<char>) -> (r: bool)
    requires
        i <= s@.len(),
    ensures
        r == (p@.len() <= s@.len() - i && s@.subrange(i as int, i + p@.len()) == p@),
{
    if p.len() > s.len() - i {
        return false;
    }
    let mut k: usize = 0;
    while k < p.len()
        invariant
            i <= s@.len(),
            i + p@.len() <= s@.len(),
            0 <= k <= p@.len(),
            forall|j: int| 0 <= j < k ==> s@[i + j] == p@[j],
        decreases p@.len() - k,
    {
        assert(i + k < s.len());
        if s[i + k] != p[k] {
            assert(s@.subrange(i as int, i + p@.len())[k as int] != p@[k as int]);
            return false;
        }
        k = k + 1;
    }
    assert(s@.subrange(i as int, i + p@.len()) =~= p@);
    true
}

proof fn lemma_replace_all_step(s: Seq<char>, i: int, p: Seq<char>, q: Seq<char>)
    requires
        0 <= i,
        p.len() > 0,
        i + p.len() <= s.len(),
    ensures
        s.subrange(i, i + p.len()) == p ==> replace_all(s.subrange(i, s.len() as int), p, q) == q
            + replace_all(s.subrange(i + p.len(), s.len() as int), p, q),
        s.subrange(i, i + p.len()) != p ==> replace_all(s.subrange(i, s.len() as int), p, q)
            == seq![s[i]] + replace_all(s.subrange(i + 1, s.len() as int), p, q),
{
    let t = s.subrange(i, s.len() as int);
    assert(t.subrange(0, p.len() as int) =~= s.subrange(i, i + p.len()));
    assert(t.subrange(p.len() as int, t.len() as int) =~= s.subrange(i + p.len(), s.len() as int));
    assert(t.drop_first() =~= s.subrange(i + 1, s.len() as int));
}

/// `s` with every occurrence of `p`, left to right, replaced by `q`.
fn replace_chars(s: &Vec<char>, p: &Vec<char>, q: &Vec<char>) -> (r: Vec<char>)
    requires
        p@.len() > 0,
    ensures
        r@ == replace_all(s@, p@, q@),
{
    let n = s.len();
    let mut r: Vec<char> = Vec::new();
    let mut i: usize = 0;
    assert(s@.subrange(0, n as int) =~= s@);
    assert(r@ + replace_all(s@, p@, q@) =~= replace_all(s@, p@, q@));
    while i < n
        invariant
            n == s@.len(),
            p@.len() > 0,
            0 <= i <= n,
            r@ + replace_all(s@.subrange(i as int, n as int), p@, q@) == replace_all(s@, p@, q@),
        decreases n - i,
    {
        if matches_at(s, i, p) {
            proof {
                lemma_replace_all_step(s@, i as int, p@, q@);
            }
            let mut k: usize = 0;
            let ghost r0 = r@;
            while k < q.len()
                invariant
                    0 <= k <= q@.len(),
                    r@ == r0 + q@.subrange(0, k as int),
                decreases q@.len() - k,
            {
                r.push(q[k]);
                k = k + 1;
                assert(r@ =~= r0 + q@.subrange(0, k as int));
            }
            assert(q@.subrange(0, q@.len() as int) =~= q@);
            assert(r@ + replace_all(s@.subrange(i + p@.len(), n as int), p@, q@) =~= r0 + (q@
                + replace_all(s@.subrange(i + p@.len(), n as int), p@, q@)));
            i = i + p.len();
        } else {
            let ghost r0 = r@;
            if p.len() <= n - i {
                proof {
                    lemma_replace_all_step(s@, i as int, p@, q@);
                }
            } else {
                let ghost t = s@.subrange(i as int, n as int);
                assert(t.len() < p@.len());
                let ghost rest = s@.subrange(i as int, n as int);
                assert(replace_all(rest, p@, q@) == rest);
                let ghost rest2 = s@.subrange(i + 1, n as int);
                assert(replace_all(rest2, p@, q@) == rest2);
                assert(rest =~= seq![s@[i as int]] + rest2);
            }
            r.push(s[i]);
            assert(r@ + replace_all(s@.subrange(i + 1, n as int), p@, q@) =~= r0 + (seq![s@[i as int]]
                + replace_all(s@.subrange(i + 1, n as int), p@, q@)));
            i = i + 1;
        }
    }
    assert(r@ + replace_all(s@.subrange(n as int, n as int), p@, q@) =~= r@);
    r
}

fn weekday_names(i: usize) -> (r: (Vec<char>, Vec<char>))
    requires
        i < 7,
    ensures
        r.0@ == weekday(i as int).0,
        r.1@ == weekday(i as int).1,
{
    if i == 0 {
        (vec!['M', 'o', 'n', 'd', 'a', 'y'], vec!['M', 'o', 'n'])
    } else if i == 1 {
        (vec!['T', 'u', 'e', 's', 'd', 'a', 'y'], vec!['T', 'u', 'e'])
    } else if i == 2 {
        (vec!['W', 'e', 'd', 'n', 'e', 's', 'd', 'a', 'y'], vec!['W', 'e', 'd'])
    } else if i == 3 {
        (vec!['T', 'h', 'u', 'r', 's', 'd', 'a', 'y'], vec!['T', 'h', 'u'])
    } else if i == 4 {
        (vec!['F', 'r', 'i', 'd', 'a', 'y'], vec!['F', 'r', 'i'])
    } else if i == 5 {
        (vec!['S', 'a', 't', 'u', 'r', 'd', 'a', 'y'], vec!['S', 'a', 't'])
    } else {
        (vec!['S', 'u', 'n', 'd', 'a', 'y'], vec!['S', 'u', 'n'])
    }
}

/// `s` with the full weekday names ("Monday" ... "Sunday") replaced by their
/// three-letter abbreviations, as RFC 2822 spells them.
pub fn abbreviate_weekday_names(s: &str) -> (r: String)
    ensures
        r@ == abbreviate_weekdays(s@),
{
    let mut cur = chars_of(s);
    let mut i: usize = 0;
    while i < 7
        invariant
            0 <= i <= 7,
            cur@ == abbreviate_weekdays_upto(s@, i as int),
        decreases 7 - i,
    {
        let (p, q) = weekday_names(i);
        cur = replace_chars(&cur, &p, &q);
        i = i + 1;
    }
    string_of(&cur)
}

/// The effective date of a raw date string: the instant it denotes once the
/// weekday names are repaired (when `repair` holds), else the sentinel.
pub fn effective_date_of(raw: &Option<String>, repair: bool) -> (r: i64)
    ensures
        r == effective_date(
            match raw {
                Some(s) => Some(s@),
                None => None,
            },
            repair,
        ),
{
    match raw {
        Some(s) => {
            let parsed = if repair {
                let fixed = abbreviate_weekday_names(s.as_str());
                parse_rfc2822(fixed.as_str())
            } else {
                parse_rfc2822(s.as_str())
            };
            match parsed {
                Some(t) => t,
                None => OLD_DATE,
            }
        },
        None => OLD_DATE,
    }
}

} // verus!
