//! Association lists keyed by text: a vector of (key, value) pairs whose keys
//! are distinct, read through the last entry with a key.
use vstd::prelude::*;

use crate::text::same_text;

verus! {

/// The value of the last entry of `s` under `k`.
pub open spec fn assoc<V>(s: Seq<(Seq<char>, V)>, k: Seq<char>) -> Option<V>
    decreases s.len(),
{
    if s.len() == 0 {
        None
    } else if s.last().0 == k {
        Some(s.last().1)
    } else {
        assoc(s.drop_last(), k)
    }
}

/// Whether the keys of `s` are pairwise distinct.
pub open spec fn keys_unique<V>(s: Seq<(Seq<char>, V)>) -> bool {
    forall|i: int, j: int| 0 <= i < j < s.len() ==> s[i].0 != s[j].0
}

/// `s` with `x` appended unless it is already there.
pub open spec fn add_unique<A>(s: Seq<A>, x: A) -> Seq<A> {
    if s.contains(x) {
        s
    } else {
        s.push(x)
    }
}

pub proof fn lemma_add_unique_contains<A>(s: Seq<A>, x: A)
    ensures
        forall|t: A| #[trigger] add_unique(s, x).contains(t) <==> (s.contains(t) || t == x),
{
    assert forall|t: A| #[trigger] add_unique(s, x).contains(t) <==> (s.contains(t) || t == x) by {
        if !s.contains(x) {
            if s.push(x).contains(t) {
                let k = choose|k: int| 0 <= k < s.push(x).len() && s.push(x)[k] == t;
                if k < s.len() {
                    assert(s[k] == t);
                }
            }
            if s.contains(t) {
                let k = choose|k: int| 0 <= k < s.len() && s[k] == t;
                assert(s.push(x)[k] == t);
            }
            if t == x {
                assert(s.push(x)[s.len() as int] == t);
            }
        }
    }
}

pub proof fn lemma_assoc_found<V>(s: Seq<(Seq<char>, V)>, i: int)
    requires
        keys_unique(s),
        0 <= i < s.len(),
    ensures
        assoc(s, s[i].0) == Some(s[i].1),
    decreases s.len(),
{
    if i < s.len() - 1 {
        lemma_assoc_found(s.drop_last(), i);
    }
}

pub proof fn lemma_assoc_absent<V>(s: Seq<(Seq<char>, V)>, k: Seq<char>)
    requires
        forall|i: int| 0 <= i < s.len() ==> s[i].0 != k,
    ensures
        assoc(s, k) is None,
    decreases s.len(),
{
    if s.len() > 0 {
        lemma_assoc_absent(s.drop_last(), k);
    }
}

pub proof fn lemma_assoc_some<V>(s: Seq<(Seq<char>, V)>, k: Seq<char>)
    requires
        assoc(s, k) is Some,
    ensures
        exists|i: int| 0 <= i < s.len() && s[i].0 == k,
    decreases s.len(),
{
    if s.last().0 != k {
        lemma_assoc_some(s.drop_last(), k);
        let i = choose|i: int| 0 <= i < s.drop_last().len() && s.drop_last()[i].0 == k;
        assert(s[i].0 == k);
    } else {
        assert(s[s.len() - 1].0 == k);
    }
}

pub proof fn lemma_assoc_update<V>(s: Seq<(Seq<char>, V)>, i: int, v: V, k: Seq<char>)
    requires
        keys_unique(s),
        0 <= i < s.len(),
    ensures
        assoc(s.update(i, (s[i].0, v)), k) == if k == s[i].0 {
            Some(v)
        } else {
            assoc(s, k)
        },
        keys_unique(s.update(i, (s[i].0, v))),
    decreases s.len(),
{
    let t = s.update(i, (s[i].0, v));
    if i < s.len() - 1 {
        assert(t.drop_last() =~= s.drop_last().update(i, (s[i].0, v)));
        lemma_assoc_update(s.drop_last(), i, v, k);
    } else {
        assert(t.drop_last() =~= s.drop_last());
        if k == s[i].0 {
        } else {
        }
    }
}

pub proof fn lemma_assoc_push<V>(s: Seq<(Seq<char>, V)>, k0: Seq<char>, v: V, k: Seq<char>)
    requires
        keys_unique(s),
        assoc(s, k0) is None,
    ensures
        assoc(s.push((k0, v)), k) == if k == k0 {
            Some(v)
        } else {
            assoc(s, k)
        },
        keys_unique(s.push((k0, v))),
{
    assert(s.push((k0, v)).drop_last() =~= s);
    assert forall|i: int, j: int| 0 <= i < j < s.push((k0, v)).len() implies s.push((k0, v))[i].0
        != s.push((k0, v))[j].0 by {
        if j == s.len() {
            if s[i].0 == k0 {
                lemma_assoc_found(s, i);
            }
        }
    }
}

/// The position of the entry of `v` under `k`, if there is one.
pub fn find_key<V>(v: &Vec<(String, V)>, k: &str) -> (r: Option<usize>)
    ensures
        match r {
            Some(i) => i < v@.len() && v@[i as int].0@ == k@,
            None => forall|i: int| 0 <= i < v@.len() ==> v@[i].0@ != k@,
        },
{
    let mut i: usize = 0;
    while i < v.len()
        invariant
            i <= v@.len(),
            forall|j: int| 0 <= j < i ==> v@[j].0@ != k@,
        decreases v@.len() - i,
    {
        if same_text(v[i].0.as_str(), k) {
            return Some(i);
        }
        i = i + 1;
    }
    None
}

} // verus!
