//! Stable sorting by string keys, as `sort_by` with `str` comparisons does.
use vstd::prelude::*;
use crate::text::{chars_lt, lex_lt, to_chars};

verus! {

/// Keys made of several strings compare field by field, each field in the
/// order of strings (`a.0.cmp(b.0).then(a.1.cmp(b.1))` and so on).
pub open spec fn key_lt(a: Seq<Seq<char>>, b: Seq<Seq<char>>) -> bool
    decreases a.len(),
{
    if a.len() == 0 || b.len() == 0 {
        false
    } else if lex_lt(a[0], b[0]) {
        true
    } else if a[0] == b[0] {
        key_lt(a.drop_first(), b.drop_first())
    } else {
        false
    }
}

/// Where `x` goes when it is inserted, after all elements that are not
/// greater than it, into the sorted sequence of indices `s`.
pub open spec fn insert_pos(s: Seq<int>, keys: Seq<Seq<Seq<char>>>, x: int) -> int
    decreases s.len(),
{
    if s.len() == 0 {
        0
    } else if key_lt(keys[x], keys[s.last()]) {
        insert_pos(s.drop_last(), keys, x)
    } else {
        s.len() as int
    }
}

/// The indices `0..n` ordered by their keys; indices with equal keys keep
/// their order (a stable sort, by insertion).
pub open spec fn sorted_indices(keys: Seq<Seq<Seq<char>>>, n: nat) -> Seq<int>
    decreases n,
{
    if n == 0 {
        Seq::empty()
    } else {
        let s = sorted_indices(keys, (n - 1) as nat);
        let p = insert_pos(s, keys, n - 1);
        s.take(p).push(n - 1) + s.skip(p)
    }
}

/// Indices as integers.
pub open spec fn as_ints(v: Seq<usize>) -> Seq<int> {
    v.map_values(|x: usize| x as int)
}

/// The view of a key.
pub open spec fn key_view(k: Vec<Vec<char>>) -> Seq<Seq<char>> {
    k@.map_values(|f: Vec<char>| f@)
}

/// The views of a list of keys.
pub open spec fn keys_view(ks: Seq<Vec<Vec<char>>>) -> Seq<Seq<Seq<char>>> {
    ks.map_values(|k: Vec<Vec<char>>| key_view(k))
}

pub proof fn lemma_insert_pos(s: Seq<int>, keys: Seq<Seq<Seq<char>>>, x: int)
    ensures
        0 <= insert_pos(s, keys, x) <= s.len(),
    decreases s.len(),
{
    if s.len() > 0 && key_lt(keys[x], keys[s.last()]) {
        lemma_insert_pos(s.drop_last(), keys, x);
    }
}

pub proof fn lemma_sorted_len(keys: Seq<Seq<Seq<char>>>, n: nat)
    ensures
        sorted_indices(keys, n).len() == n,
        forall|i: int| 0 <= i < n ==> 0 <= #[trigger] sorted_indices(keys, n)[i] < n,
    decreases n,
{
    if n > 0 {
        let s = sorted_indices(keys, (n - 1) as nat);
        lemma_sorted_len(keys, (n - 1) as nat);
        lemma_insert_pos(s, keys, n - 1);
        let p = insert_pos(s, keys, n - 1);
        let r = s.take(p).push(n - 1) + s.skip(p);
        assert forall|i: int| 0 <= i < n implies 0 <= #[trigger] r[i] < n by {
            if i < p {
                assert(r[i] == s[i]);
            } else if i > p {
                assert(r[i] == s[i - 1]);
            }
        }
    }
}

/// Key comparison.
pub fn key_less(a: &Vec<Vec<char>>, b: &Vec<Vec<char>>) -> (r: bool)
    ensures
        r == key_lt(key_view(*a), key_view(*b)),
{
    let ghost av = key_view(*a);
    let ghost bv = key_view(*b);
    let mut i: usize = 0;
    assert(av.skip(0) =~= av);
    assert(bv.skip(0) =~= bv);
    while i < a.len() && i < b.len()
        invariant
            av == key_view(*a),
            bv == key_view(*b),
            i <= a@.len(),
            i <= b@.len(),
            key_lt(av, bv) == key_lt(av.skip(i as int), bv.skip(i as int)),
        decreases a@.len() - i,
    {
        assert(av.skip(i as int)[0] == a@[i as int]@);
        assert(bv.skip(i as int)[0] == b@[i as int]@);
        if chars_lt(&a[i], &b[i]) {
            return true;
        }
        if chars_lt(&b[i], &a[i]) {
            proof {
                lemma_lex_lt_asym(b@[i as int]@, a@[i as int]@);
            }
            return false;
        }
        proof {
            lemma_lex_total(a@[i as int]@, b@[i as int]@);
        }
        assert(av.skip(i as int).drop_first() =~= av.skip(i + 1));
        assert(bv.skip(i as int).drop_first() =~= bv.skip(i + 1));
        i = i + 1;
    }
    false
}

pub proof fn lemma_lex_lt_asym(a: Seq<char>, b: Seq<char>)
    requires
        lex_lt(a, b),
    ensures
        !lex_lt(b, a),
        a != b,
    decreases a.len(),
{
    if a.len() > 0 && b.len() > 0 && a[0] == b[0] {
        lemma_lex_lt_asym(a.drop_first(), b.drop_first());
    }
}

pub proof fn lemma_lex_total(a: Seq<char>, b: Seq<char>)
    ensures
        lex_lt(a, b) || lex_lt(b, a) || a == b,
    decreases a.len(),
{
    if a.len() > 0 && b.len() > 0 && a[0] == b[0] {
        lemma_lex_total(a.drop_first(), b.drop_first());
        if a.drop_first() == b.drop_first() {
            assert(a =~= seq![a[0]] + a.drop_first());
            assert(b =~= seq![b[0]] + b.drop_first());
        }
    } else if a.len() == 0 && b.len() == 0 {
        assert(a =~= b);
    }
}

pub proof fn lemma_lex_trans(a: Seq<char>, b: Seq<char>, c: Seq<char>)
    requires
        lex_lt(a, b),
        lex_lt(b, c),
    ensures
        lex_lt(a, c),
    decreases a.len(),
{
    if a.len() > 0 && b.len() > 0 && c.len() > 0 && a[0] == b[0] && b[0] == c[0] {
        lemma_lex_trans(a.drop_first(), b.drop_first(), c.drop_first());
    }
}

pub proof fn lemma_key_asym(a: Seq<Seq<char>>, b: Seq<Seq<char>>)
    requires
        key_lt(a, b),
    ensures
        !key_lt(b, a),
        a != b,
    decreases a.len(),
{
    if lex_lt(a[0], b[0]) {
        lemma_lex_lt_asym(a[0], b[0]);
    } else {
        lemma_key_asym(a.drop_first(), b.drop_first());
    }
}

pub proof fn lemma_key_trans(a: Seq<Seq<char>>, b: Seq<Seq<char>>, c: Seq<Seq<char>>)
    requires
        key_lt(a, b),
        key_lt(b, c),
    ensures
        key_lt(a, c),
    decreases a.len(),
{
    if lex_lt(a[0], b[0]) && lex_lt(b[0], c[0]) {
        lemma_lex_trans(a[0], b[0], c[0]);
    } else if lex_lt(a[0], b[0]) {
    } else if lex_lt(b[0], c[0]) {
    } else {
        lemma_key_trans(a.drop_first(), b.drop_first(), c.drop_first());
    }
}

pub proof fn lemma_key_total(a: Seq<Seq<char>>, b: Seq<Seq<char>>)
    requires
        a.len() == b.len(),
    ensures
        key_lt(a, b) || key_lt(b, a) || a == b,
    decreases a.len(),
{
    if a.len() == 0 {
        assert(a =~= b);
    } else {
        lemma_lex_total(a[0], b[0]);
        if a[0] == b[0] {
            lemma_key_total(a.drop_first(), b.drop_first());
            if a.drop_first() == b.drop_first() {
                assert(a =~= seq![a[0]] + a.drop_first());
                assert(b =~= seq![b[0]] + b.drop_first());
            }
        }
    }
}

/// Where `x` is inserted: everything from there on has a greater key, and
/// what stands just before has not.
pub proof fn lemma_insert_pos_bounds(s: Seq<int>, keys: Seq<Seq<Seq<char>>>, x: int)
    ensures
        forall|k: int| insert_pos(s, keys, x) <= k < s.len() ==> key_lt(keys[x], #[trigger] keys[s[k]]),
        insert_pos(s, keys, x) > 0 ==> !key_lt(keys[x], keys[s[insert_pos(s, keys, x) - 1]]),
    decreases s.len(),
{
    lemma_insert_pos(s, keys, x);
    if s.len() > 0 && key_lt(keys[x], keys[s.last()]) {
        let d = s.drop_last();
        lemma_insert_pos_bounds(d, keys, x);
        lemma_insert_pos(d, keys, x);
        assert forall|k: int| insert_pos(s, keys, x) <= k < s.len() implies key_lt(keys[x], #[trigger] keys[s[k]]) by {
            if k < s.len() - 1 {
                assert(s[k] == d[k]);
            }
        }
        if insert_pos(s, keys, x) > 0 {
            assert(s[insert_pos(s, keys, x) - 1] == d[insert_pos(s, keys, x) - 1]);
        }
    }
}

/// The sort is correct: the result holds each index below `n` once, no key
/// comes after a greater one, and indices with equal keys keep their
/// order.
pub proof fn lemma_sorted_indices(keys: Seq<Seq<Seq<char>>>, n: nat)
    requires
        n <= keys.len(),
        forall|i: int, j: int| 0 <= i < keys.len() && 0 <= j < keys.len() ==> #[trigger] keys[i].len() == #[trigger] keys[j].len(),
    ensures
        sorted_indices(keys, n).len() == n,
        forall|i: int| 0 <= i < n ==> 0 <= #[trigger] sorted_indices(keys, n)[i] < n,
        forall|i: int, j: int| 0 <= i < j < n ==> #[trigger] sorted_indices(keys, n)[i] != #[trigger] sorted_indices(keys, n)[j],
        forall|i: int, j: int| 0 <= i < j < n ==> !key_lt(keys[#[trigger] sorted_indices(keys, n)[j]], keys[#[trigger] sorted_indices(keys, n)[i]]),
        forall|i: int, j: int| 0 <= i < j < n && keys[#[trigger] sorted_indices(keys, n)[i]] == keys[#[trigger] sorted_indices(keys, n)[j]]
            ==> sorted_indices(keys, n)[i] < sorted_indices(keys, n)[j],
    decreases n,
{
    lemma_sorted_len(keys, n);
    if n > 0 {
        let m = (n - 1) as nat;
        let s = sorted_indices(keys, m);
        lemma_sorted_indices(keys, m);
        let x = n - 1;
        let p = insert_pos(s, keys, x);
        lemma_insert_pos(s, keys, x);
        lemma_insert_pos_bounds(s, keys, x);
        let t = s.take(p).push(x) + s.skip(p);
        assert(sorted_indices(keys, n) == t);
        assert forall|i: int| 0 <= i < n implies #[trigger] t[i] == if i < p { s[i] } else if i == p { x } else { s[i - 1] } by {}
        assert forall|i: int, j: int| 0 <= i < j < n implies #[trigger] t[i] != #[trigger] t[j] by {
            if i < p && j > p {
                assert(s[i] != s[j - 1]);
            } else if i > p {
                assert(s[i - 1] != s[j - 1]);
            }
        }
        assert forall|i: int, j: int| 0 <= i < j < n implies !key_lt(keys[#[trigger] t[j]], keys[#[trigger] t[i]]) by {
            if j < p {
                assert(!key_lt(keys[s[j]], keys[s[i]]));
            } else if j == p {
                // i < p: x is not below anything before it
                let q = s[p - 1];
                if key_lt(keys[x], keys[s[i]]) {
                    if i < p - 1 {
                        assert(!key_lt(keys[q], keys[s[i]]));
                        lemma_key_total(keys[q], keys[s[i]]);
                        if key_lt(keys[s[i]], keys[q]) {
                            lemma_key_trans(keys[x], keys[s[i]], keys[q]);
                        }
                    }
                }
            } else if i == p {
                assert(key_lt(keys[x], keys[s[j - 1]]));
                lemma_key_asym(keys[x], keys[s[j - 1]]);
            } else if i < p {
                assert(!key_lt(keys[s[j - 1]], keys[s[i]]));
            } else {
                assert(!key_lt(keys[s[j - 1]], keys[s[i - 1]]));
            }
        }
        assert forall|i: int, j: int| 0 <= i < j < n && keys[#[trigger] t[i]] == keys[#[trigger] t[j]] implies t[i] < t[j] by {
            if i == p {
                assert(key_lt(keys[x], keys[s[j - 1]]));
                lemma_key_asym(keys[x], keys[s[j - 1]]);
            } else if j == p {
            } else if j < p {
                assert(keys[s[i]] == keys[s[j]]);
            } else if i < p {
                assert(keys[s[i]] == keys[s[j - 1]]);
            } else {
                assert(keys[s[i - 1]] == keys[s[j - 1]]);
            }
        }
    }
}

/// The indices `0..keys.len()` in the order of their keys, ties kept in
/// order.
pub fn sort_indices(keys: &Vec<Vec<Vec<char>>>) -> (r: Vec<usize>)
    ensures
        r@.len() == keys@.len(),
        forall|i: int| 0 <= i < r@.len() ==> r@[i] as int == #[trigger] sorted_indices(keys_view(keys@), keys@.len() as nat)[i],
{
    let ghost kv = keys_view(keys@);
    let mut r: Vec<usize> = Vec::new();
    let mut n: usize = 0;
    while n < keys.len()
        invariant
            kv == keys_view(keys@),
            n <= keys@.len(),
            r@.len() == n,
            forall|i: int| 0 <= i < n ==> r@[i] as int == #[trigger] sorted_indices(kv, n as nat)[i],
        decreases keys@.len() - n,
    {
        let ghost s = sorted_indices(kv, n as nat);
        proof {
            lemma_sorted_len(kv, n as nat);
        }
        let mut j = n;
        assert(s.take(j as int) =~= s);
        while j > 0 && key_less(&keys[n], &keys[r[j - 1]])
            invariant
                kv == keys_view(keys@),
                n < keys@.len(),
                r@.len() == n,
                j <= n,
                s == sorted_indices(kv, n as nat),
                s.len() == n,
                forall|i: int| 0 <= i < n ==> 0 <= #[trigger] s[i] < n,
                forall|i: int| 0 <= i < n ==> r@[i] as int == #[trigger] s[i],
                insert_pos(s, kv, n as int) == insert_pos(s.take(j as int), kv, n as int),
            decreases j,
        {
            assert(r@[j - 1] as int == s[j - 1]);
            assert(kv[n as int] == key_view(keys@[n as int]));
            assert(kv[s[j - 1]] == key_view(keys@[r@[j - 1] as int]));
            assert(s.take(j as int).drop_last() =~= s.take(j - 1));
            j = j - 1;
        }
        proof {
            if j > 0 {
                assert(kv[n as int] == key_view(keys@[n as int]));
                assert(kv[s[j - 1]] == key_view(keys@[r@[j - 1] as int]));
                assert(s.take(j as int).last() == s[j - 1]);
            }
        }
        let ghost p = insert_pos(s, kv, n as int);
        assert(p == j);
        r.insert(j, n);
        let ghost t = s.take(p).push(n as int) + s.skip(p);
        assert forall|i: int| 0 <= i < n + 1 implies r@[i] as int == #[trigger] sorted_indices(kv, (n + 1) as nat)[i] by {
            assert(sorted_indices(kv, (n + 1) as nat) == t);
            if i < p {
                assert(t[i] == s[i]);
            } else if i > p {
                assert(t[i] == s[i - 1]);
            }
        }
        n = n + 1;
    }
    r
}

/// The one-field key of a string.
pub fn key1(a: &str) -> (k: Vec<Vec<char>>)
    ensures
        key_view(k) == seq![a@],
{
    let mut k: Vec<Vec<char>> = Vec::new();
    k.push(to_chars(a));
    assert(key_view(k) =~= seq![a@]);
    k
}

/// The two-field key of a pair of strings.
pub fn key2(a: &str, b: &str) -> (k: Vec<Vec<char>>)
    ensures
        key_view(k) == seq![a@, b@],
{
    let mut k: Vec<Vec<char>> = Vec::new();
    k.push(to_chars(a));
    k.push(to_chars(b));
    assert(key_view(k) =~= seq![a@, b@]);
    k
}

} // verus!
