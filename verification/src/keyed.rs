//! Small maps from names to values, kept as vectors of pairs in which no
//! name occurs twice.
use vstd::prelude::*;
use crate::text::{copy_str, str_eq};

verus! {

/// Entry `i` of `v` has the key `k`.
pub open spec fn key_at<V>(v: Seq<(String, V)>, i: int, k: Seq<char>) -> bool {
    0 <= i < v.len() && v[i].0@ == k
}

/// Some entry of `v` has the key `k`.
pub open spec fn has_key<V>(v: Seq<(String, V)>, k: Seq<char>) -> bool {
    exists|i: int| #[trigger] key_at(v, i, k)
}

/// The value stored under `k`, if any.
pub open spec fn lookup<V>(v: Seq<(String, V)>, k: Seq<char>) -> Option<V> {
    if has_key(v, k) {
        Some(v[choose|i: int| #[trigger] key_at(v, i, k)].1)
    } else {
        None
    }
}

/// The entries of `v` have distinct keys.
pub open spec fn distinct_keys<V>(v: Seq<(String, V)>) -> bool {
    forall|i: int, j: int| 0 <= i < v.len() && 0 <= j < v.len() && #[trigger] v[i].0@ == #[trigger] v[j].0@ ==> i == j
}

/// Where keys are distinct, the value under the key of entry `i` is that
/// entry's value.
pub proof fn lemma_lookup_at<V>(v: Seq<(String, V)>, i: int)
    requires
        distinct_keys(v),
        0 <= i < v.len(),
    ensures
        lookup(v, v[i].0@) == Some(v[i].1),
{
    assert(key_at(v, i, v[i].0@));
}

/// The index of the entry with key `k`, if there is one.
pub fn index_of_key<V>(v: &Vec<(String, V)>, k: &str) -> (r: Option<usize>)
    ensures
        match r {
            Some(i) => key_at(v@, i as int, k@),
            None => !has_key(v@, k@),
        },
{
    let mut i: usize = 0;
    while i < v.len()
        invariant
            i <= v@.len(),
            forall|j: int| 0 <= j < i ==> !key_at(v@, j, k@),
        decreases v@.len() - i,
    {
        if str_eq(v[i].0.as_str(), k) {
            return Some(i);
        }
        i = i + 1;
    }
    None
}

/// Stores `val` under `k`, replacing what was stored there.
pub fn put<V>(v: &mut Vec<(String, V)>, k: &str, val: V)
    requires
        distinct_keys(old(v)@),
    ensures
        distinct_keys(final(v)@),
        forall|g: Seq<char>| #[trigger] lookup(final(v)@, g) == if g == k@ { Some(val) } else { lookup(old(v)@, g) },
        forall|g: Seq<char>| #[trigger] has_key(final(v)@, g) == (g == k@ || has_key(old(v)@, g)),
        has_key(old(v)@, k@) ==> exists|i: int|
            #[trigger] key_at(old(v)@, i, k@) && final(v)@ == old(v)@.update(i, final(v)@[i])
                && final(v)@[i].1 == val,
        !has_key(old(v)@, k@) ==> final(v)@.len() == old(v)@.len() + 1 && final(v)@.drop_last()
            == old(v)@ && final(v)@.last().1 == val,
{
    let ghost old_v = v@;
    match index_of_key(v, k) {
        Some(i) => {
            v.set(i, (copy_str(k), val));
            proof {
                let nv = v@;
                assert(nv == old_v.update(i as int, nv[i as int]));
                assert forall|a: int, b: int| 0 <= a < nv.len() && 0 <= b < nv.len() && #[trigger] nv[a].0@ == #[trigger] nv[b].0@ implies a == b by {
                    assert(old_v[a].0@ == nv[a].0@);
                    assert(old_v[b].0@ == nv[b].0@);
                }
                assert forall|g: Seq<char>| #[trigger] has_key(nv, g) == (g == k@ || has_key(old_v, g)) by {
                    if has_key(nv, g) {
                        let j = choose|j: int| #[trigger] key_at(nv, j, g);
                        assert(key_at(old_v, j, g));
                    }
                    if has_key(old_v, g) {
                        let j = choose|j: int| #[trigger] key_at(old_v, j, g);
                        assert(key_at(nv, j, g));
                    }
                    if g == k@ {
                        assert(key_at(nv, i as int, g));
                    }
                }
                assert forall|g: Seq<char>| #[trigger] lookup(nv, g) == if g == k@ { Some(val) } else { lookup(old_v, g) } by {
                    if has_key(nv, g) {
                        let j = choose|j: int| #[trigger] key_at(nv, j, g);
                        lemma_lookup_at(nv, j);
                        lemma_lookup_at(old_v, j);
                    }
                    if has_key(old_v, g) {
                        let j = choose|j: int| #[trigger] key_at(old_v, j, g);
                        assert(key_at(nv, j, g));
                    }
                }
            }
        },
        None => {
            v.push((copy_str(k), val));
            proof {
                let nv = v@;
                assert(nv.drop_last() =~= old_v);
                let n = old_v.len() as int;
                assert forall|a: int, b: int| 0 <= a < nv.len() && 0 <= b < nv.len() && #[trigger] nv[a].0@ == #[trigger] nv[b].0@ implies a == b by {
                    if a < n && b == n {
                        assert(key_at(old_v, a, k@));
                    }
                    if b < n && a == n {
                        assert(key_at(old_v, b, k@));
                    }
                }
                assert forall|g: Seq<char>| #[trigger] has_key(nv, g) == (g == k@ || has_key(old_v, g)) by {
                    if has_key(nv, g) {
                        let j = choose|j: int| #[trigger] key_at(nv, j, g);
                        if j < n {
                            assert(key_at(old_v, j, g));
                        }
                    }
                    if has_key(old_v, g) {
                        let j = choose|j: int| #[trigger] key_at(old_v, j, g);
                        assert(key_at(nv, j, g));
                    }
                    if g == k@ {
                        assert(key_at(nv, n, g));
                    }
                }
                assert forall|g: Seq<char>| #[trigger] lookup(nv, g) == if g == k@ { Some(val) } else { lookup(old_v, g) } by {
                    if has_key(nv, g) {
                        let j = choose|j: int| #[trigger] key_at(nv, j, g);
                        lemma_lookup_at(nv, j);
                        if j < n {
                            lemma_lookup_at(old_v, j);
                        }
                    }
                    if has_key(old_v, g) {
                        let j = choose|j: int| #[trigger] key_at(old_v, j, g);
                        assert(key_at(nv, j, g));
                    }
                }
            }
        },
    }
}

/// Removes the entry with key `k` and returns its value, if there is one.
pub fn take<V>(v: &mut Vec<(String, V)>, k: &str) -> (r: Option<V>)
    requires
        distinct_keys(old(v)@),
    ensures
        r == lookup(old(v)@, k@),
        distinct_keys(final(v)@),
        forall|g: Seq<char>| #[trigger] lookup(final(v)@, g) == if g == k@ { None } else { lookup(old(v)@, g) },
        forall|g: Seq<char>| #[trigger] has_key(final(v)@, g) == (g != k@ && has_key(old(v)@, g)),
{
    let ghost old_v = v@;
    match index_of_key(v, k) {
        Some(i) => {
            proof {
                lemma_lookup_at(old_v, i as int);
            }
            let e = v.remove(i);
            proof {
                let nv = v@;
                let ii = i as int;
                assert forall|j: int| 0 <= j < nv.len() implies #[trigger] nv[j] == if j < ii { old_v[j] } else { old_v[j + 1] } by {}
                assert forall|a: int, b: int| 0 <= a < nv.len() && 0 <= b < nv.len() && #[trigger] nv[a].0@ == #[trigger] nv[b].0@ implies a == b by {
                    let a2 = if a < ii { a } else { a + 1 };
                    let b2 = if b < ii { b } else { b + 1 };
                    assert(old_v[a2].0@ == old_v[b2].0@);
                }
                assert forall|g: Seq<char>| #[trigger] has_key(nv, g) == (g != k@ && has_key(old_v, g)) by {
                    if has_key(nv, g) {
                        let j = choose|j: int| #[trigger] key_at(nv, j, g);
                        let j2 = if j < ii { j } else { j + 1 };
                        assert(key_at(old_v, j2, g));
                        assert(old_v[j2].0@ == g);
                        if g == k@ {
                            assert(old_v[ii].0@ == old_v[j2].0@);
                        }
                    }
                    if g != k@ && has_key(old_v, g) {
                        let j = choose|j: int| #[trigger] key_at(old_v, j, g);
                        assert(j != ii);
                        let j2 = if j < ii { j } else { j - 1 };
                        assert(key_at(nv, j2, g));
                    }
                }
                assert forall|g: Seq<char>| #[trigger] lookup(nv, g) == if g == k@ { None } else { lookup(old_v, g) } by {
                    if has_key(nv, g) {
                        let j = choose|j: int| #[trigger] key_at(nv, j, g);
                        let j2 = if j < ii { j } else { j + 1 };
                        lemma_lookup_at(nv, j);
                        lemma_lookup_at(old_v, j2);
                    }
                }
            }
            Some(e.1)
        },
        None => {
            proof {
                assert forall|g: Seq<char>| #[trigger] lookup(v@, g) == if g == k@ { None } else { lookup(old_v, g) } by {}
            }
            None
        },
    }
}

/// The value stored under `k`, if any.
pub fn get_copy<V: Copy>(v: &Vec<(String, V)>, k: &str) -> (r: Option<V>)
    requires
        distinct_keys(v@),
    ensures
        r == lookup(v@, k@),
{
    match index_of_key(v, k) {
        Some(i) => {
            proof {
                lemma_lookup_at(v@, i as int);
            }
            Some(v[i].1)
        },
        None => None,
    }
}

} // verus!
