//! A stable insertion order by integer key, used to keep items in publish order.
use vstd::multiset::Multiset;
use vstd::prelude::*;

verus! {

broadcast use vstd::seq_lib::group_to_multiset_ensures;

/// `s` with `x` placed after every leading element whose key is at most `x`'s
/// key: in a sequence sorted by key, after all elements with key `<= x.0`.
pub open spec fn insert_by_key<T>(s: Seq<(i64, T)>, x: (i64, T)) -> Seq<(i64, T)>
    decreases s.len(),
{
    if s.len() == 0 {
        seq![x]
    } else if x.0 < s[0].0 {
        seq![x] + s
    } else {
        seq![s[0]] + insert_by_key(s.drop_first(), x)
    }
}

/// The stable sort of `s` by key: each element in turn is inserted after the
/// elements before it whose key is not greater, so equal keys keep their order.
pub open spec fn sort_by_key<T>(s: Seq<(i64, T)>) -> Seq<(i64, T)>
    decreases s.len(),
{
    if s.len() == 0 {
        s
    } else {
        insert_by_key(sort_by_key(s.drop_last()), s.last())
    }
}

/// Whether the keys of `s` never decrease.
pub open spec fn keys_sorted<T>(s: Seq<(i64, T)>) -> bool {
    forall|i: int, j: int| 0 <= i < j < s.len() ==> s[i].0 <= s[j].0
}

pub proof fn lemma_insert_by_key_at<T>(s: Seq<(i64, T)>, x: (i64, T), p: int)
    requires
        0 <= p <= s.len(),
        forall|j: int| 0 <= j < p ==> s[j].0 <= x.0,
        p == s.len() || x.0 < s[p].0,
    ensures
        insert_by_key(s, x) == s.subrange(0, p) + seq![x] + s.subrange(p, s.len() as int),
    decreases p,
{
    if p == 0 {
        if s.len() == 0 {
            assert(s.subrange(0, 0) + seq![x] + s.subrange(0, 0) =~= seq![x]);
        } else {
            assert(s.subrange(0, 0) + seq![x] + s.subrange(0, s.len() as int) =~= seq![x] + s);
        }
    } else {
        let t = s.drop_first();
        lemma_insert_by_key_at(t, x, p - 1);
        assert(seq![s[0]] + (t.subrange(0, p - 1) + seq![x] + t.subrange(p - 1, t.len() as int))
            =~= s.subrange(0, p) + seq![x] + s.subrange(p, s.len() as int));
    }
}

pub proof fn lemma_insert_by_key_sorted<T>(s: Seq<(i64, T)>, x: (i64, T))
    requires
        keys_sorted(s),
    ensures
        keys_sorted(insert_by_key(s, x)),
        insert_by_key(s, x).to_multiset() == s.to_multiset().insert(x),
        insert_by_key(s, x).len() == s.len() + 1,
    decreases s.len(),
{
    if s.len() == 0 {
        assert(seq![x].to_multiset() =~= Multiset::empty().insert(x)) by {
            assert(seq![x] =~= Seq::<(i64, T)>::empty().push(x));
        }
    } else if x.0 < s[0].0 {
        assert(seq![x] + s =~= s.insert(0, x));
    } else {
        let t = s.drop_first();
        assert(keys_sorted(t)) by {
            assert forall|i: int, j: int| 0 <= i < j < t.len() implies t[i].0 <= t[j].0 by {
                assert(t[i] == s[i + 1] && t[j] == s[j + 1]);
            }
        }
        lemma_insert_by_key_sorted(t, x);
        let r = insert_by_key(t, x);
        assert(s =~= t.insert(0, s[0]));
        assert(seq![s[0]] + r =~= r.insert(0, s[0]));
        assert forall|i: int, j: int|
            0 <= i < j < (seq![s[0]] + r).len() implies (seq![s[0]] + r)[i].0 <= (seq![
            s[0]] + r)[j].0 by {
            if i == 0 {
                let e = (seq![s[0]] + r)[j];
                assert(e == r[j - 1]);
                assert(r.to_multiset().count(e) > 0);
                assert(r.contains(e));
                let k = choose|k: int| 0 <= k < r.len() && r[k] == e;
                assert(t.to_multiset().insert(x).count(e) > 0);
                if e != x {
                    assert(t.to_multiset().count(e) > 0);
                    assert(t.contains(e));
                    let m = choose|m: int| 0 <= m < t.len() && t[m] == e;
                    assert(s[m + 1] == e);
                }
            }
        }
    }
}

/// Inserting adds exactly one element.
pub proof fn lemma_insert_by_key_len<T>(s: Seq<(i64, T)>, x: (i64, T))
    ensures
        insert_by_key(s, x).len() == s.len() + 1,
    decreases s.len(),
{
    if s.len() > 0 && x.0 >= s[0].0 {
        lemma_insert_by_key_len(s.drop_first(), x);
    }
}

pub proof fn lemma_sort_by_key_sorted<T>(s: Seq<(i64, T)>)
    ensures
        keys_sorted(sort_by_key(s)),
        sort_by_key(s).to_multiset() == s.to_multiset(),
        sort_by_key(s).len() == s.len(),
    decreases s.len(),
{
    if s.len() > 0 {
        lemma_sort_by_key_sorted(s.drop_last());
        lemma_insert_by_key_sorted(sort_by_key(s.drop_last()), s.last());
        assert(s =~= s.drop_last().push(s.last()));
    }
}

/// `s` with `f` applied to each element, keys unchanged.
pub open spec fn map_payload<T, U>(s: Seq<(i64, T)>, f: spec_fn(T) -> U) -> Seq<(i64, U)> {
    s.map_values(|p: (i64, T)| (p.0, f(p.1)))
}

proof fn lemma_insert_map_payload<T, U>(s: Seq<(i64, T)>, x: (i64, T), f: spec_fn(T) -> U)
    ensures
        insert_by_key(map_payload(s, f), (x.0, f(x.1))) == map_payload(insert_by_key(s, x), f),
    decreases s.len(),
{
    if s.len() == 0 {
        assert(map_payload(seq![x], f) =~= seq![(x.0, f(x.1))]);
    } else if x.0 < s[0].0 {
        assert(map_payload(seq![x] + s, f) =~= seq![(x.0, f(x.1))] + map_payload(s, f));
    } else {
        lemma_insert_map_payload(s.drop_first(), x, f);
        assert(map_payload(s, f).drop_first() =~= map_payload(s.drop_first(), f));
        assert(map_payload(seq![s[0]] + insert_by_key(s.drop_first(), x), f) =~= seq![
            (s[0].0, f(s[0].1)),
        ] + map_payload(insert_by_key(s.drop_first(), x), f));
    }
}

/// Sorting by key does not look at the elements: mapping them before or
/// after the sort gives the same sequence.
pub proof fn lemma_sort_map_payload<T, U>(s: Seq<(i64, T)>, f: spec_fn(T) -> U)
    ensures
        sort_by_key(map_payload(s, f)) == map_payload(sort_by_key(s), f),
    decreases s.len(),
{
    if s.len() > 0 {
        lemma_sort_map_payload(s.drop_last(), f);
        assert(map_payload(s, f).drop_last() =~= map_payload(s.drop_last(), f));
        lemma_insert_map_payload(sort_by_key(s.drop_last()), s.last(), f);
    }
}

/// The place at which `x` goes into `s` (sorted by key): after every element
/// whose key is not greater.
fn insert_position<T>(s: &Vec<(i64, T)>, x: i64) -> (p: usize)
    requires
        keys_sorted(s@),
    ensures
        p <= s@.len(),
        forall|j: int| 0 <= j < p ==> s@[j].0 <= x,
        p == s@.len() || x < s@[p as int].0,
{
    let mut p: usize = 0;
    while p < s.len() && s[p].0 <= x
        invariant
            p <= s@.len(),
            forall|j: int| 0 <= j < p ==> s@[j].0 <= x,
        decreases s@.len() - p,
    {
        p = p + 1;
    }
    p
}

/// Puts `x` into `v`, kept sorted by key, after all elements whose key is not
/// greater than `x`'s.
pub fn insert_sorted<T>(v: &mut Vec<(i64, T)>, x: (i64, T))
    requires
        keys_sorted(old(v)@),
    ensures
        final(v)@ == insert_by_key(old(v)@, x),
        keys_sorted(final(v)@),
{
    proof {
        lemma_insert_by_key_sorted(v@, x);
    }
    let p = insert_position(v, x.0);
    proof {
        lemma_insert_by_key_at(v@, x, p as int);
    }
    let ghost before = v@;
    v.insert(p, x);
    assert(v@ =~= before.subrange(0, p as int) + seq![x] + before.subrange(
        p as int,
        before.len() as int,
    ));
}

/// The stable sort of `v` by key.
pub fn sort_pairs<T>(v: Vec<(i64, T)>) -> (r: Vec<(i64, T)>)
    ensures
        r@ == sort_by_key(v@),
        keys_sorted(r@),
{
    let ghost s = v@;
    let mut rest = v;
    let mut out: Vec<(i64, T)> = Vec::new();
    let mut i: usize = 0;
    let n = rest.len();
    while rest.len() > 0
        invariant
            n == s.len(),
            i + rest@.len() == n,
            rest@ == s.subrange(i as int, n as int),
            out@ == sort_by_key(s.subrange(0, i as int)),
            keys_sorted(out@),
        decreases rest@.len(),
    {
        let x = rest.remove(0);
        proof {
            assert(s.subrange(0, i + 1).drop_last() =~= s.subrange(0, i as int));
            assert(s.subrange(0, i + 1).last() == x);
        }
        insert_sorted(&mut out, x);
        i = i + 1;
        assert(rest@ =~= s.subrange(i as int, n as int));
    }
    assert(s.subrange(0, n as int) =~= s);
    out
}

/// The elements of `v` without their keys, in order.
pub fn strip_keys<T>(v: Vec<(i64, T)>) -> (r: Vec<T>)
    ensures
        r@ == v@.map_values(|p: (i64, T)| p.1),
{
    let ghost s = v@;
    let mut rest = v;
    let mut out: Vec<T> = Vec::new();
    let n = rest.len();
    while rest.len() > 0
        invariant
            n == s.len(),
            out@.len() + rest@.len() == n,
            rest@ == s.subrange(out@.len() as int, n as int),
            out@ == s.subrange(0, out@.len() as int).map_values(|p: (i64, T)| p.1),
        decreases rest@.len(),
    {
        let ghost k = out@.len() as int;
        let x = rest.remove(0);
        out.push(x.1);
        assert(out@ =~= s.subrange(0, k + 1).map_values(|p: (i64, T)| p.1));
        assert(rest@ =~= s.subrange(k + 1, n as int));
    }
    assert(s.subrange(0, n as int) =~= s);
    out
}

} // verus!
