//! Character-sequence operations on which the rest of the library is built.
//!
//! Every executable function here works on `char` sequences and states its
//! result over `Seq<char>`, the view of `str` and `String`.
use vstd::prelude::*;

verus! {

// ---------------------------------------------------------------------------
// Specifications
// ---------------------------------------------------------------------------

/// Unicode `White_Space`, the property that `char::is_whitespace` tests.
pub open spec fn is_ws(c: char) -> bool {
    ||| c == '\t'
    ||| c == '\n'
    ||| c == '\u{0B}'
    ||| c == '\u{0C}'
    ||| c == '\r'
    ||| c == ' '
    ||| c == '\u{85}'
    ||| c == '\u{A0}'
    ||| c == '\u{1680}'
    ||| ('\u{2000}' <= c && c <= '\u{200A}')
    ||| c == '\u{2028}'
    ||| c == '\u{2029}'
    ||| c == '\u{202F}'
    ||| c == '\u{205F}'
    ||| c == '\u{3000}'
}

/// `s` without its leading whitespace.
pub open spec fn trim_start(s: Seq<char>) -> Seq<char>
    decreases s.len(),
{
    if s.len() > 0 && is_ws(s[0]) {
        trim_start(s.drop_first())
    } else {
        s
    }
}

/// `s` without its trailing whitespace.
pub open spec fn trim_end(s: Seq<char>) -> Seq<char>
    decreases s.len(),
{
    if s.len() > 0 && is_ws(s.last()) {
        trim_end(s.drop_last())
    } else {
        s
    }
}

/// `s` without leading and trailing whitespace (`str::trim`).
pub open spec fn trim(s: Seq<char>) -> Seq<char> {
    trim_end(trim_start(s))
}

/// `p` is a prefix of `s`.
pub open spec fn has_prefix(s: Seq<char>, p: Seq<char>) -> bool {
    p.len() <= s.len() && s.take(p.len() as int) == p
}

/// `p` is a suffix of `s`.
pub open spec fn has_suffix(s: Seq<char>, p: Seq<char>) -> bool {
    p.len() <= s.len() && s.skip(s.len() - p.len()) == p
}

/// `p` occurs in `s` starting at index `i`.
pub open spec fn occurs_at(s: Seq<char>, p: Seq<char>, i: int) -> bool {
    0 <= i && i + p.len() <= s.len() && s.subrange(i, i + p.len()) == p
}

/// `p` occurs somewhere in `s` (`str::contains`).
pub open spec fn contains(s: Seq<char>, p: Seq<char>) -> bool {
    exists|i: int| occurs_at(s, p, i)
}

/// `c` occurs in `s`.
pub open spec fn has_char(s: Seq<char>, c: char) -> bool {
    exists|i: int| 0 <= i < s.len() && s[i] == c
}

/// Every non-overlapping occurrence of `from` in `s`, taken left to right,
/// replaced by `to` (`str::replace` with a non-empty pattern).
pub open spec fn replace_all(s: Seq<char>, from: Seq<char>, to: Seq<char>) -> Seq<char>
    decreases s.len(),
{
    if from.len() == 0 || s.len() < from.len() {
        s
    } else if s.take(from.len() as int) == from {
        to + replace_all(s.skip(from.len() as int), from, to)
    } else {
        seq![s[0]] + replace_all(s.drop_first(), from, to)
    }
}

/// Replacing a text that does not occur changes nothing.
pub proof fn lemma_replace_absent(s: Seq<char>, from: Seq<char>, to: Seq<char>)
    requires
        from.len() > 0,
        !contains(s, from),
    ensures
        replace_all(s, from, to) == s,
    decreases s.len(),
{
    if s.len() >= from.len() {
        if s.take(from.len() as int) == from {
            assert(occurs_at(s, from, 0)) by {
                assert(s.subrange(0, from.len() as int) =~= s.take(from.len() as int));
            }
        } else {
            let t = s.drop_first();
            assert(!contains(t, from)) by {
                if contains(t, from) {
                    let i = choose|i: int| occurs_at(t, from, i);
                    assert(t.subrange(i, i + from.len()) =~= s.subrange(i + 1, i + 1 + from.len()));
                    assert(occurs_at(s, from, i + 1));
                }
            }
            lemma_replace_absent(t, from, to);
            assert(s =~= seq![s[0]] + t);
        }
    }
}

/// Strict lexicographic order on character sequences.  For UTF-8 text this is
/// the order in which `str` compares, byte by byte.
pub open spec fn lex_lt(a: Seq<char>, b: Seq<char>) -> bool
    decreases a.len(),
{
    if a.len() == 0 {
        b.len() > 0
    } else if b.len() == 0 {
        false
    } else if a[0] != b[0] {
        a[0] < b[0]
    } else {
        lex_lt(a.drop_first(), b.drop_first())
    }
}

/// Lexicographic `<=`.
pub open spec fn lex_le(a: Seq<char>, b: Seq<char>) -> bool {
    lex_lt(a, b) || a == b
}

/// The decimal digits of `n`, without leading zeros (`"0"` for zero).
pub open spec fn dec(n: nat) -> Seq<char>
    decreases n,
{
    if n < 10 {
        seq![digit(n)]
    } else {
        dec(n / 10).push(digit(n % 10))
    }
}

/// The digit character for `d < 10`.
pub open spec fn digit(d: nat) -> char {
    (d + 48) as char
}

/// The decimal rendering of a signed integer.
pub open spec fn dec_int(n: int) -> Seq<char> {
    if n < 0 {
        seq!['-'] + dec((-n) as nat)
    } else {
        dec(n as nat)
    }
}

/// `n` copies of `c`.
pub open spec fn repeat(c: char, n: nat) -> Seq<char> {
    Seq::new(n, |_i: int| c)
}

/// `s` preceded by spaces up to a width of `w` (`format!("{:>w$}", s)`).
pub open spec fn pad_left(s: Seq<char>, w: nat) -> Seq<char> {
    if s.len() >= w {
        s
    } else {
        repeat(' ', (w - s.len()) as nat) + s
    }
}

/// The lines of `s` as `str::lines` yields them: split after each `'\n'`, the
/// newline removed together with one `'\r'` before it, and no empty line after
/// a final newline.
pub open spec fn lines_of(s: Seq<char>) -> Seq<Seq<char>>
    decreases s.len(),
{
    if s.len() == 0 {
        Seq::empty()
    } else if has_char(s, '\n') {
        let i = first_index_of(s, '\n');
        proof {
            lemma_first_index(s, '\n');
        }
        seq![strip_cr(s.take(i))] + lines_of(s.skip(i + 1))
    } else {
        seq![s]
    }
}

/// A line with one trailing carriage return removed.
pub open spec fn strip_cr(s: Seq<char>) -> Seq<char> {
    if s.len() > 0 && s.last() == '\r' {
        s.drop_last()
    } else {
        s
    }
}

/// The index of the first `c` in `s`, or `s.len()` where there is none.
pub open spec fn first_index_of(s: Seq<char>, c: char) -> int
    decreases s.len(),
{
    if s.len() == 0 {
        0
    } else if s[0] == c {
        0
    } else {
        1 + first_index_of(s.drop_first(), c)
    }
}

/// The whitespace-separated words of `s` (`str::split_whitespace`).
pub open spec fn words(s: Seq<char>) -> Seq<Seq<char>>
    decreases s.len(),
{
    let t = trim_start(s);
    if t.len() == 0 {
        Seq::empty()
    } else {
        let n = word_len(t);
        proof {
            lemma_trim_start_len(s);
            lemma_word_len(t);
        }
        seq![t.take(n)] + words(t.skip(n))
    }
}

/// The number of leading characters of `s` that are not whitespace.
pub open spec fn word_len(s: Seq<char>) -> int
    decreases s.len(),
{
    if s.len() == 0 || is_ws(s[0]) {
        0
    } else {
        1 + word_len(s.drop_first())
    }
}

/// The views of a sequence of strings.
pub open spec fn strs(v: Seq<String>) -> Seq<Seq<char>> {
    v.map_values(|s: String| s@)
}

pub proof fn lemma_strs_push(v: Seq<String>, s: String)
    ensures
        strs(v.push(s)) == strs(v).push(s@),
{
    assert(strs(v.push(s)) =~= strs(v).push(s@));
}

// ---------------------------------------------------------------------------
// Lemmas
// ---------------------------------------------------------------------------

pub proof fn lemma_trim_start_len(s: Seq<char>)
    ensures
        trim_start(s).len() <= s.len(),
        trim_start(s) == s.skip(s.len() - trim_start(s).len()),
        trim_start(s).len() > 0 ==> !is_ws(trim_start(s)[0]),
    decreases s.len(),
{
    if s.len() > 0 && is_ws(s[0]) {
        lemma_trim_start_len(s.drop_first());
        assert(s.drop_first().skip(s.drop_first().len() - trim_start(s.drop_first()).len())
            =~= s.skip(s.len() - trim_start(s).len()));
    } else {
        assert(s.skip(0) =~= s);
    }
}

pub proof fn lemma_word_len(s: Seq<char>)
    ensures
        0 <= word_len(s) <= s.len(),
        forall|j: int| 0 <= j < word_len(s) ==> !is_ws(#[trigger] s[j]),
        word_len(s) < s.len() ==> is_ws(s[word_len(s)]),
    decreases s.len(),
{
    if s.len() == 0 || is_ws(s[0]) {
    } else {
        lemma_word_len(s.drop_first());
        assert forall|j: int| 0 <= j < word_len(s) implies !is_ws(#[trigger] s[j]) by {
            if j > 0 {
                assert(s[j] == s.drop_first()[j - 1]);
            }
        }
    }
}

/// Leading whitespace before text is dropped with the text's own.
pub proof fn lemma_trim_start_append(s: Seq<char>, r: Seq<char>)
    ensures
        trim_start(s).len() > 0 ==> trim_start(s + r) == trim_start(s) + r,
        trim_start(s).len() == 0 ==> trim_start(s + r) == trim_start(r),
    decreases s.len(),
{
    if s.len() == 0 {
        assert(s + r =~= r);
    } else if is_ws(s[0]) {
        lemma_trim_start_append(s.drop_first(), r);
        assert((s + r).drop_first() =~= s.drop_first() + r);
        assert((s + r)[0] == s[0]);
    } else {
        assert((s + r)[0] == s[0]);
    }
}

/// The first word of `t + r` is that of `t` where `t`'s word ends inside
/// `t` or `r` starts with whitespace.
pub proof fn lemma_word_len_append(t: Seq<char>, r: Seq<char>)
    requires
        word_len(t) < t.len() || (r.len() > 0 && is_ws(r[0])),
    ensures
        word_len(t + r) == word_len(t),
    decreases t.len(),
{
    if t.len() == 0 {
        assert(t + r =~= r);
    } else {
        assert((t + r)[0] == t[0]);
        if !is_ws(t[0]) {
            assert((t + r).drop_first() =~= t.drop_first() + r);
            lemma_word_len_append(t.drop_first(), r);
        }
    }
}

/// A text without whitespace has itself as its only word.
pub proof fn lemma_words_token(x: Seq<char>)
    requires
        x.len() > 0,
        forall|i: int| 0 <= i < x.len() ==> !is_ws(#[trigger] x[i]),
    ensures
        words(x) == seq![x],
{
    lemma_token_len(x);
    assert(trim_start(x) == x);
    assert(x.take(x.len() as int) =~= x);
    assert(x.skip(x.len() as int) =~= Seq::<char>::empty());
    assert(trim_start(Seq::<char>::empty()).len() == 0);
    assert(words(Seq::<char>::empty()) =~= Seq::<Seq<char>>::empty());
    assert(seq![x] + Seq::<Seq<char>>::empty() =~= seq![x]);
}

proof fn lemma_token_len(x: Seq<char>)
    requires
        forall|i: int| 0 <= i < x.len() ==> !is_ws(#[trigger] x[i]),
    ensures
        word_len(x) == x.len(),
    decreases x.len(),
{
    if x.len() > 0 {
        assert forall|i: int| 0 <= i < x.drop_first().len() implies !is_ws(#[trigger] x.drop_first()[i]) by {
            assert(x.drop_first()[i] == x[i + 1]);
        }
        lemma_token_len(x.drop_first());
    }
}

/// The words of two texts joined by a whitespace character are the words
/// of the first, then those of the second.
pub proof fn lemma_words_join(a: Seq<char>, w: char, b: Seq<char>)
    requires
        is_ws(w),
    ensures
        words(a + seq![w] + b) == words(a) + words(b),
    decreases a.len(),
{
    let r = seq![w] + b;
    assert(a + seq![w] + b =~= a + r);
    lemma_trim_start_append(a, r);
    lemma_trim_start_len(a);
    let t = trim_start(a);
    if t.len() == 0 {
        assert(r[0] == w);
        assert(trim_start(r) == trim_start(b)) by {
            assert(r.drop_first() =~= b);
        }
        assert(words(a) =~= Seq::<Seq<char>>::empty());
        lemma_words_from_trimmed(a + r, r);
        lemma_words_from_trimmed(r, b);
        assert(words(a) + words(b) =~= words(b));
    } else {
        lemma_word_len(t);
        let n = word_len(t);
        assert(n > 0) by {
            assert(!is_ws(t[0]));
        }
        assert(r[0] == w);
        lemma_word_len_append(t, r);
        let tr = t + r;
        assert(trim_start(a + r) == tr);
        assert(tr.take(n) =~= t.take(n));
        assert(tr.skip(n) =~= t.skip(n) + seq![w] + b);
        assert(t.skip(n).len() < a.len());
        lemma_words_join(t.skip(n), w, b);
        assert(words(a + r) == seq![t.take(n)] + words(tr.skip(n)));
        assert(words(a) == seq![t.take(n)] + words(t.skip(n)));
        assert(words(a + r) =~= words(a) + words(b));
    }
}

/// Texts with the same leading-whitespace-free part have the same words.
proof fn lemma_words_from_trimmed(x: Seq<char>, y: Seq<char>)
    requires
        trim_start(x) == trim_start(y),
    ensures
        words(x) == words(y),
{
}

pub proof fn lemma_first_index(s: Seq<char>, c: char)
    ensures
        0 <= first_index_of(s, c) <= s.len(),
        forall|j: int| 0 <= j < first_index_of(s, c) ==> #[trigger] s[j] != c,
        first_index_of(s, c) < s.len() ==> s[first_index_of(s, c)] == c,
        has_char(s, c) <==> first_index_of(s, c) < s.len(),
    decreases s.len(),
{
    if s.len() == 0 {
    } else if s[0] == c {
    } else {
        lemma_first_index(s.drop_first(), c);
        assert forall|j: int| 0 <= j < first_index_of(s, c) implies #[trigger] s[j] != c by {
            if j > 0 {
                assert(s[j] == s.drop_first()[j - 1]);
            }
        }
        if has_char(s, c) {
            let k = choose|k: int| 0 <= k < s.len() && s[k] == c;
            assert(s.drop_first()[k - 1] == c);
        }
        if first_index_of(s, c) < s.len() {
            assert(s[first_index_of(s, c)] == s.drop_first()[first_index_of(s.drop_first(), c)]);
        }
    }
}

/// A characterisation of `first_index_of` by its two defining properties.
pub proof fn lemma_first_index_unique(s: Seq<char>, c: char, i: int)
    requires
        0 <= i <= s.len(),
        forall|j: int| 0 <= j < i ==> #[trigger] s[j] != c,
        i < s.len() ==> s[i] == c,
    ensures
        first_index_of(s, c) == i,
    decreases s.len(),
{
    if s.len() == 0 {
    } else if s[0] == c {
    } else {
        assert forall|j: int| 0 <= j < i - 1 implies #[trigger] s.drop_first()[j] != c by {
            assert(s.drop_first()[j] == s[j + 1]);
        }
        lemma_first_index_unique(s.drop_first(), c, i - 1);
    }
}

// ---------------------------------------------------------------------------
// Executable operations
// ---------------------------------------------------------------------------

/// Appends one character to a string (`String::push`).
#[verifier::external_body]
pub(crate) fn push_char(s: &mut String, c: char)
    ensures
        final(s)@ == old(s)@.push(c),
{
    s.push(c);
}

/// The characters of `s`, in order.
pub fn to_chars(s: &str) -> (v: Vec<char>)
    ensures
        v@ == s@,
{
    let mut v: Vec<char> = Vec::new();
    for c in it: s.chars()
        invariant
            it.seq() == s@,
            v@ == it.seq().take(it.index() as int),
    {
        assert(it.seq().take(it.index() as int + 1) =~= v@.push(c));
        v.push(c);
    }
    assert(s@.take(s@.len() as int) =~= s@);
    v
}

/// The string made of `v[lo..hi]`.
pub fn string_of_range(v: &Vec<char>, lo: usize, hi: usize) -> (r: String)
    requires
        lo <= hi <= v@.len(),
    ensures
        r@ == v@.subrange(lo as int, hi as int),
{
    let mut r = String::new();
    let mut i = lo;
    while i < hi
        invariant
            lo <= i <= hi <= v@.len(),
            r@ == v@.subrange(lo as int, i as int),
        decreases hi - i,
    {
        push_char(&mut r, v[i]);
        assert(v@.subrange(lo as int, i + 1) =~= v@.subrange(lo as int, i as int).push(v@[i as int]));
        i = i + 1;
    }
    r
}

/// The string made of all of `v`.
pub fn string_of(v: &Vec<char>) -> (r: String)
    ensures
        r@ == v@,
{
    let r = string_of_range(v, 0, v.len());
    assert(v@.subrange(0, v@.len() as int) =~= v@);
    r
}

/// A copy of `s`.
pub fn copy_str(s: &str) -> (r: String)
    ensures
        r@ == s@,
{
    String::from_str(s)
}

/// `a` followed by `b`.
pub fn cat(a: &str, b: &str) -> (r: String)
    ensures
        r@ == a@ + b@,
{
    let mut r = String::from_str(a);
    r.append(b);
    r
}

/// `char::is_whitespace`.
pub fn is_whitespace(c: char) -> (r: bool)
    ensures
        r == is_ws(c),
{
    c == '\t' || c == '\n' || c == '\u{0B}' || c == '\u{0C}' || c == '\r' || c == ' '
        || c == '\u{85}' || c == '\u{A0}' || c == '\u{1680}' || ('\u{2000}' <= c && c
        <= '\u{200A}') || c == '\u{2028}' || c == '\u{2029}' || c == '\u{202F}' || c
        == '\u{205F}' || c == '\u{3000}'
}

/// The index of the first character of `v` that is not whitespace, or `v.len()`.
pub fn trim_start_index(v: &Vec<char>) -> (i: usize)
    ensures
        i <= v@.len(),
        trim_start(v@) == v@.skip(i as int),
{
    let mut i: usize = 0;
    assert(v@.skip(0) =~= v@);
    while i < v.len() && is_whitespace(v[i])
        invariant
            i <= v@.len(),
            trim_start(v@) == trim_start(v@.skip(i as int)),
        decreases v@.len() - i,
    {
        assert(v@.skip(i as int).drop_first() =~= v@.skip(i + 1));
        i = i + 1;
    }
    i
}

/// The end of `v[lo..]` once trailing whitespace is removed.
pub fn trim_end_index(v: &Vec<char>, lo: usize) -> (j: usize)
    requires
        lo <= v@.len(),
    ensures
        lo <= j <= v@.len(),
        trim_end(v@.subrange(lo as int, v@.len() as int)) == v@.subrange(lo as int, j as int),
{
    let mut j: usize = v.len();
    while j > lo && is_whitespace(v[j - 1])
        invariant
            lo <= j <= v@.len(),
            trim_end(v@.subrange(lo as int, v@.len() as int)) == trim_end(
                v@.subrange(lo as int, j as int),
            ),
        decreases j,
    {
        assert(v@.subrange(lo as int, j as int).drop_last() =~= v@.subrange(lo as int, j - 1));
        j = j - 1;
    }
    j
}

/// `str::trim`.
pub fn trim_str(s: &str) -> (r: String)
    ensures
        r@ == trim(s@),
{
    let v = to_chars(s);
    let lo = trim_start_index(&v);
    let hi = trim_end_index(&v, lo);
    assert(v@.skip(lo as int) =~= v@.subrange(lo as int, v@.len() as int));
    string_of_range(&v, lo, hi)
}

/// `v[at..]` begins with `p`.
pub fn matches_at(v: &Vec<char>, at: usize, p: &Vec<char>) -> (r: bool)
    requires
        at <= v@.len(),
    ensures
        r == occurs_at(v@, p@, at as int),
{
    if p.len() > v.len() - at {
        return false;
    }
    let mut k: usize = 0;
    while k < p.len()
        invariant
            at + p@.len() <= v.len(),
            k <= p@.len(),
            forall|j: int| 0 <= j < k ==> v@[at + j] == p@[j],
        decreases p@.len() - k,
    {
        assert(at + k < v@.len());
        if v[at + k] != p[k] {
            assert(v@.subrange(at as int, at + p@.len())[k as int] != p@[k as int]);
            return false;
        }
        k = k + 1;
    }
    assert(v@.subrange(at as int, at + p@.len()) =~= p@);
    true
}

/// `str::starts_with`.
pub fn starts_with(s: &str, p: &str) -> (r: bool)
    ensures
        r == has_prefix(s@, p@),
{
    let v = to_chars(s);
    let pv = to_chars(p);
    let r = matches_at(&v, 0, &pv);
    proof {
        if r {
            assert(v@.take(pv@.len() as int) =~= v@.subrange(0, pv@.len() as int));
        }
        if has_prefix(s@, p@) {
            assert(v@.take(pv@.len() as int) =~= v@.subrange(0, pv@.len() as int));
        }
    }
    r
}

/// `str::ends_with`.
pub fn ends_with(s: &str, p: &str) -> (r: bool)
    ensures
        r == has_suffix(s@, p@),
{
    let v = to_chars(s);
    let pv = to_chars(p);
    if pv.len() > v.len() {
        return false;
    }
    let r = matches_at(&v, v.len() - pv.len(), &pv);
    assert(v@.skip(v@.len() - pv@.len()) =~= v@.subrange(
        v@.len() - pv@.len(),
        v@.len() as int,
    ));
    r
}

/// `str::strip_prefix`.
pub fn strip_prefix(s: &str, p: &str) -> (r: Option<String>)
    ensures
        r is Some <==> has_prefix(s@, p@),
        r matches Some(t) ==> t@ == s@.skip(p@.len() as int),
{
    let v = to_chars(s);
    let pv = to_chars(p);
    if matches_at(&v, 0, &pv) {
        assert(v@.take(pv@.len() as int) =~= v@.subrange(0, pv@.len() as int));
        assert(v@.skip(pv@.len() as int) =~= v@.subrange(pv@.len() as int, v@.len() as int));
        Some(string_of_range(&v, pv.len(), v.len()))
    } else {
        proof {
            if has_prefix(s@, p@) {
                assert(v@.take(pv@.len() as int) =~= v@.subrange(0, pv@.len() as int));
            }
        }
        None
    }
}

/// `str::contains` with a string pattern.
pub fn contains_str(s: &str, p: &str) -> (r: bool)
    ensures
        r == contains(s@, p@),
{
    let v = to_chars(s);
    let pv = to_chars(p);
    contains_chars(&v, &pv)
}

/// `p` occurs somewhere in `v`.
pub fn contains_chars(v: &Vec<char>, pv: &Vec<char>) -> (r: bool)
    ensures
        r == contains(v@, pv@),
{
    if pv.len() > v.len() {
        return false;
    }
    if pv.len() == 0 {
        assert(v@.subrange(0, 0) =~= pv@);
        assert(occurs_at(v@, pv@, 0));
        return true;
    }
    let mut i: usize = 0;
    while i <= v.len() - pv.len()
        invariant
            1 <= pv@.len() <= v@.len(),
            i <= v@.len() - pv@.len() + 1,
            forall|j: int| 0 <= j < i ==> !occurs_at(v@, pv@, j),
        decreases v@.len() - pv@.len() + 1 - i,
    {
        if matches_at(v, i, pv) {
            return true;
        }
        i = i + 1;
    }
    false
}

/// Whether `c` occurs in `s`.
pub fn has_char_exec(s: &str, c: char) -> (r: bool)
    ensures
        r == has_char(s@, c),
{
    let v = to_chars(s);
    let mut i: usize = 0;
    while i < v.len()
        invariant
            v@ == s@,
            i <= v@.len(),
            forall|j: int| 0 <= j < i ==> v@[j] != c,
        decreases v@.len() - i,
    {
        if v[i] == c {
            return true;
        }
        i = i + 1;
    }
    false
}

/// `str::replace` with a non-empty pattern.
pub fn replace_str(s: &str, from: &str, to: &str) -> (r: String)
    requires
        from@.len() > 0,
    ensures
        r@ == replace_all(s@, from@, to@),
{
    let v = to_chars(s);
    let fv = to_chars(from);
    let mut r = String::new();
    let mut i: usize = 0;
    assert(v@.skip(0) =~= v@);
    assert(r@ + replace_all(v@, fv@, to@) =~= replace_all(v@, fv@, to@));
    while i < v.len()
        invariant
            fv@ == from@,
            fv@.len() > 0,
            i <= v@.len(),
            v@ == s@,
            r@ + replace_all(v@.skip(i as int), fv@, to@) == replace_all(v@, fv@, to@),
        decreases v@.len() - i,
    {
        let ghost rest = v@.skip(i as int);
        if fv.len() <= v.len() - i && matches_at(&v, i, &fv) {
            assert(rest.take(fv@.len() as int) =~= v@.subrange(i as int, i + fv@.len()));
            assert(rest.skip(fv@.len() as int) =~= v@.skip(i + fv@.len()));
            assert(r@ + to@ + replace_all(v@.skip(i + fv@.len()), fv@, to@) =~= r@ + (to@
                + replace_all(rest.skip(fv@.len() as int), fv@, to@)));
            r.append(to);
            i = i + fv.len();
        } else {
            proof {
                if rest.len() >= fv@.len() {
                    assert(rest.take(fv@.len() as int) =~= v@.subrange(i as int, i + fv@.len()));
                }
            }
            assert(rest.drop_first() =~= v@.skip(i + 1));
            assert(r@.push(v@[i as int]) + replace_all(v@.skip(i + 1), fv@, to@) =~= r@ + (seq![
                rest[0],
            ] + replace_all(rest.drop_first(), fv@, to@)));
            push_char(&mut r, v[i]);
            i = i + 1;
        }
    }
    assert(v@.skip(i as int) =~= Seq::<char>::empty());
    assert(r@ + Seq::<char>::empty() =~= r@);
    r
}

/// `a < b` in the order in which strings compare.
pub fn str_lt(a: &str, b: &str) -> (r: bool)
    ensures
        r == lex_lt(a@, b@),
{
    let av = to_chars(a);
    let bv = to_chars(b);
    chars_lt(&av, &bv)
}

/// `a < b` lexicographically.
pub fn chars_lt(av: &Vec<char>, bv: &Vec<char>) -> (r: bool)
    ensures
        r == lex_lt(av@, bv@),
{
    let mut i: usize = 0;
    assert(av@.skip(0) =~= av@);
    assert(bv@.skip(0) =~= bv@);
    while i < av.len() && i < bv.len() && av[i] == bv[i]
        invariant
            i <= av@.len(),
            i <= bv@.len(),
            lex_lt(av@, bv@) == lex_lt(av@.skip(i as int), bv@.skip(i as int)),
        decreases av@.len() - i,
    {
        assert(av@.skip(i as int).drop_first() =~= av@.skip(i + 1));
        assert(bv@.skip(i as int).drop_first() =~= bv@.skip(i + 1));
        i = i + 1;
    }
    if i == av.len() {
        i < bv.len()
    } else if i == bv.len() {
        false
    } else {
        av[i] < bv[i]
    }
}

/// Spec equality of two strings, computed.
pub fn str_eq(a: &str, b: &str) -> (r: bool)
    ensures
        r == (a@ == b@),
{
    let av = to_chars(a);
    let bv = to_chars(b);
    if av.len() != bv.len() {
        return false;
    }
    let mut i: usize = 0;
    while i < av.len()
        invariant
            av@ == a@,
            bv@ == b@,
            av@.len() == bv@.len(),
            i <= av@.len(),
            forall|j: int| 0 <= j < i ==> av@[j] == bv@[j],
        decreases av@.len() - i,
    {
        if av[i] != bv[i] {
            assert(av@[i as int] != bv@[i as int]);
            return false;
        }
        i = i + 1;
    }
    assert(av@ =~= bv@);
    true
}

/// The decimal digits of `n`.
pub fn u64_to_dec(n: u64) -> (r: String)
    ensures
        r@ == dec(n as nat),
{
    u128_to_dec(n as u128)
}

/// The decimal digits of `n`.
pub fn u128_to_dec(n: u128) -> (r: String)
    ensures
        r@ == dec(n as nat),
    decreases n,
{
    if n < 10 {
        let mut r = String::new();
        push_char(&mut r, digit_char(n as u64));
        assert(r@ =~= seq![digit(n as nat)]);
        r
    } else {
        let mut r = u128_to_dec(n / 10);
        push_char(&mut r, digit_char((n % 10) as u64));
        r
    }
}

/// The character of a decimal digit.
pub fn digit_char(d: u64) -> (c: char)
    requires
        d < 10,
    ensures
        c == digit(d as nat),
{
    if d == 0 { '0' }
    else if d == 1 { '1' }
    else if d == 2 { '2' }
    else if d == 3 { '3' }
    else if d == 4 { '4' }
    else if d == 5 { '5' }
    else if d == 6 { '6' }
    else if d == 7 { '7' }
    else if d == 8 { '8' }
    else { '9' }
}

/// The decimal rendering of a signed integer.
pub fn i64_to_dec(n: i64) -> (r: String)
    ensures
        r@ == dec_int(n as int),
{
    if n < 0 {
        let m: u64 = if n == i64::MIN { 9223372036854775808u64 } else { (-n) as u64 };
        let mut r = String::new();
        push_char(&mut r, '-');
        r.append(u64_to_dec(m).as_str());
        assert(r@ =~= seq!['-'] + dec((-n) as nat));
        r
    } else {
        u64_to_dec(n as u64)
    }
}

/// `n` copies of `c`, appended to `r`.
pub fn push_repeat(r: &mut String, c: char, n: usize)
    ensures
        final(r)@ == old(r)@ + repeat(c, n as nat),
{
    let mut i: usize = 0;
    while i < n
        invariant
            i <= n,
            r@ == old(r)@ + repeat(c, i as nat),
        decreases n - i,
    {
        assert(old(r)@ + repeat(c, (i + 1) as nat) =~= (old(r)@ + repeat(c, i as nat)).push(c));
        push_char(r, c);
        i = i + 1;
    }
}

/// `n` copies of `c` (`str::repeat` of a one-character string).
pub fn repeat_char(c: char, n: usize) -> (r: String)
    ensures
        r@ == repeat(c, n as nat),
{
    let mut r = String::new();
    push_repeat(&mut r, c, n);
    assert(Seq::<char>::empty() + repeat(c, n as nat) =~= repeat(c, n as nat));
    r
}

/// `format!("{:>w$}", s)` for a string of `len` display cells; here the
/// width is counted in characters.
pub fn pad_left_str(s: &str, w: usize) -> (r: String)
    ensures
        r@ == pad_left(s@, w as nat),
{
    let n = s.unicode_len();
    if n >= w {
        copy_str(s)
    } else {
        let mut r = repeat_char(' ', w - n);
        r.append(s);
        r
    }
}

/// The lines of `s`, as `str::lines` yields them.
pub fn split_lines(s: &str) -> (r: Vec<String>)
    ensures
        r@.len() == lines_of(s@).len(),
        forall|k: int| 0 <= k < r@.len() ==> #[trigger] r@[k]@ == lines_of(s@)[k],
{
    let v = to_chars(s);
    let mut r: Vec<String> = Vec::new();
    let mut i: usize = 0;
    assert(v@.skip(0) =~= v@);
    while i < v.len()
        invariant
            v@ == s@,
            i <= v@.len(),
            r@.len() + lines_of(v@.skip(i as int)).len() == lines_of(v@).len(),
            forall|k: int| 0 <= k < r@.len() ==> #[trigger] r@[k]@ == lines_of(v@)[k],
            forall|k: int|
                0 <= k < lines_of(v@.skip(i as int)).len() ==> lines_of(v@)[r@.len() + k]
                    == #[trigger] lines_of(v@.skip(i as int))[k],
        decreases v@.len() - i,
    {
        let ghost rest = v@.skip(i as int);
        let mut j = i;
        while j < v.len() && v[j] != '\n'
            invariant
                i <= j <= v@.len(),
                forall|t: int| i <= t < j ==> v@[t] != '\n',
            decreases v@.len() - j,
        {
            j = j + 1;
        }
        proof {
            assert forall|t: int| 0 <= t < j - i implies #[trigger] rest[t] != '\n' by {
                assert(rest[t] == v@[i + t]);
            }
            lemma_first_index_unique(rest, '\n', j - i);
            lemma_first_index(rest, '\n');
        }
        let mut end = j;
        if end > i && v[end - 1] == '\r' && j < v.len() {
            end = end - 1;
        }
        let line = string_of_range(&v, i, end);
        proof {
            if j < v.len() {
                assert(has_char(rest, '\n'));
                assert(rest.take(j - i) =~= v@.subrange(i as int, j as int));
                assert(rest.skip(j - i + 1) =~= v@.skip(j + 1));
                if end < j {
                    assert(strip_cr(rest.take(j - i)) =~= v@.subrange(i as int, end as int));
                } else {
                    assert(strip_cr(rest.take(j - i)) =~= v@.subrange(i as int, end as int));
                }
                assert(lines_of(rest)[0] == line@);
                assert(lines_of(v@)[r@.len() + 0int] == lines_of(rest)[0]);
                assert forall|k: int| 0 <= k < lines_of(v@.skip(j + 1)).len() implies
                    lines_of(v@)[r@.len() + 1 + k] == #[trigger] lines_of(v@.skip(j + 1))[k] by {
                    assert(lines_of(rest)[k + 1] == lines_of(v@.skip(j + 1))[k]);
                }
            } else {
                assert(!has_char(rest, '\n'));
                assert(rest =~= v@.subrange(i as int, end as int));
                assert(v@.skip(j as int) =~= Seq::<char>::empty());
                assert(lines_of(v@)[r@.len() + 0int] == lines_of(rest)[0]);
            }
        }
        r.push(line);
        if j < v.len() {
            i = j + 1;
        } else {
            i = j;
        }
    }
    assert(v@.skip(i as int) =~= Seq::<char>::empty());
    r
}

} // verus!

verus! {

/// `c` is an ASCII decimal digit.
pub open spec fn is_digit(c: char) -> bool {
    '0' <= c && c <= '9'
}

/// The value of a string of decimal digits.
pub open spec fn digits_value(s: Seq<char>) -> nat
    decreases s.len(),
{
    if s.len() == 0 {
        0
    } else {
        digits_value(s.drop_last()) * 10 + ((s.last() as int - 48) as nat)
    }
}

/// `s` without one leading `+`.
pub open spec fn unsigned_part(s: Seq<char>) -> Seq<char> {
    if s.len() > 0 && s[0] == '+' {
        s.drop_first()
    } else {
        s
    }
}

/// Every character of `s` is a decimal digit.
pub open spec fn all_digits(s: Seq<char>) -> bool {
    forall|i: int| 0 <= i < s.len() ==> is_digit(#[trigger] s[i])
}

/// What `str::parse` gives for an unsigned type whose largest value is
/// `max`: an optional `+`, then at least one digit and nothing else, of a
/// value no larger than `max`.
pub open spec fn parse_uint_spec(s: Seq<char>, max: nat) -> Option<nat> {
    let d = unsigned_part(s);
    if d.len() == 0 || !all_digits(d) {
        None
    } else if digits_value(d) > max {
        None
    } else {
        Some(digits_value(d))
    }
}

/// A number printed in decimal reads back as itself.
pub proof fn lemma_dec_reads_back(n: nat)
    ensures
        dec(n).len() > 0,
        all_digits(dec(n)),
        dec(n)[0] != '+',
        digits_value(dec(n)) == n,
    decreases n,
{
    if n < 10 {
        assert(dec(n) == seq![digit(n)]);
        assert(dec(n).drop_last() =~= Seq::<char>::empty());
        assert(digit(n) as int == n + 48);
        assert(dec(n).last() == digit(n));
        assert(digits_value(Seq::<char>::empty()) == 0);
        assert(digits_value(dec(n)) == digits_value(dec(n).drop_last()) * 10 + ((dec(n).last() as int - 48) as nat));
    } else {
        assert(digit(n % 10) as int == n % 10 + 48);
        lemma_dec_reads_back(n / 10);
        let d = dec(n / 10);
        let s = d.push(digit(n % 10));
        assert(s.drop_last() =~= d);
        assert(s.last() == digit(n % 10));
        assert(s[0] == d[0]);
        assert(dec(n) == s);
        assert(digits_value(s) == digits_value(d) * 10 + ((s.last() as int - 48) as nat));
        assert((n / 10) * 10 + n % 10 == n);
        assert forall|i: int| 0 <= i < s.len() implies is_digit(#[trigger] s[i]) by {
            if i < d.len() {
                assert(s[i] == d[i]);
            }
        }
    }
}

/// Parsing a number printed in decimal gives it back, where it fits.
pub proof fn lemma_parse_dec(n: nat, max: nat)
    requires
        n <= max,
    ensures
        parse_uint_spec(dec(n), max) == Some(n),
{
    lemma_dec_reads_back(n);
}

/// What `str::parse::<u32>` gives.
pub open spec fn parse_u32_spec(s: Seq<char>) -> Option<u32> {
    match parse_uint_spec(s, u32::MAX as nat) {
        Some(n) => Some(n as u32),
        None => None,
    }
}

/// What `str::parse::<usize>` gives.
pub open spec fn parse_usize_spec(s: Seq<char>) -> Option<usize> {
    match parse_uint_spec(s, usize::MAX as nat) {
        Some(n) => Some(n as usize),
        None => None,
    }
}

/// `str::parse` for an unsigned type whose largest value is `max`.
pub fn parse_uint(s: &str, max: u64) -> (r: Option<u64>)
    ensures
        match r {
            Some(n) => parse_uint_spec(s@, max as nat) == Some(n as nat),
            None => parse_uint_spec(s@, max as nat) is None,
        },
{
    let v = to_chars(s);
    let start: usize = if v.len() > 0 && v[0] == '+' { 1 } else { 0 };
    let ghost d = unsigned_part(s@);
    assert(d =~= v@.subrange(start as int, v@.len() as int));
    if start == v.len() {
        return None;
    }
    let mut acc: u64 = 0;
    let mut i = start;
    let mut overflow = false;
    while i < v.len()
        invariant
            v@ == s@,
            d == unsigned_part(s@),
            start <= i <= v@.len(),
            d == v@.subrange(start as int, v@.len() as int),
            forall|j: int| start <= j < i ==> is_digit(#[trigger] v@[j]),
            !overflow ==> acc as nat == digits_value(v@.subrange(start as int, i as int)),
            !overflow ==> acc <= max,
            overflow ==> digits_value(v@.subrange(start as int, i as int)) > max,
        decreases v@.len() - i,
    {
        let c = v[i];
        if !('0' <= c && c <= '9') {
            assert(!is_digit(d[i - start]));
            assert(parse_uint_spec(s@, max as nat) is None);
            return None;
        }
        let ghost prev = v@.subrange(start as int, i as int);
        let ghost next = v@.subrange(start as int, i + 1);
        assert(next.drop_last() =~= prev);
        assert(next.last() == c);
        let dv: u64 = (c as u64) - 48;
        proof {
            assert(digits_value(next) == digits_value(prev) * 10 + dv);
            if overflow {
                assert(digits_value(prev) * 10 >= digits_value(prev)) by (nonlinear_arith)
                    requires digits_value(prev) >= 0;
            }
        }
        if !overflow {
            if dv > max || acc > (max - dv) / 10 {
                assert(acc * 10 + dv > max) by (nonlinear_arith)
                    requires dv > max || acc > (max - dv) / 10, acc >= 0;
                overflow = true;
            } else {
                assert(acc * 10 + dv <= max) by (nonlinear_arith)
                    requires acc <= (max - dv) / 10, dv <= 9;
                acc = acc * 10 + dv;
            }
        }
        i = i + 1;
    }
    assert(v@.subrange(start as int, v@.len() as int) == d);
    if overflow {
        None
    } else {
        assert forall|k: int| 0 <= k < d.len() implies is_digit(#[trigger] d[k]) by {
            assert(d[k] == v@[start + k]);
        }
        Some(acc)
    }
}

/// `str::parse::<u32>`, with `None` for every error.
pub fn parse_u32(s: &str) -> (r: Option<u32>)
    ensures
        r == parse_u32_spec(s@),
{
    match parse_uint(s, 4294967295u64) {
        Some(n) => Some(n as u32),
        None => None,
    }
}

/// `str::parse::<usize>`, with `None` for every error.
pub fn parse_usize(s: &str) -> (r: Option<usize>)
    ensures
        r == parse_usize_spec(s@),
{
    match parse_uint(s, usize::MAX as u64) {
        Some(n) => Some(n as usize),
        None => None,
    }
}

/// The whitespace-separated words of `s` (`str::split_whitespace`).
pub fn split_words(s: &str) -> (r: Vec<String>)
    ensures
        r@.len() == words(s@).len(),
        forall|k: int| 0 <= k < r@.len() ==> #[trigger] r@[k]@ == words(s@)[k],
{
    let v = to_chars(s);
    let mut r: Vec<String> = Vec::new();
    let mut i: usize = 0;
    assert(v@.skip(0) =~= v@);
    while i < v.len()
        invariant
            v@ == s@,
            i <= v@.len(),
            r@.len() + words(v@.skip(i as int)).len() == words(v@).len(),
            forall|k: int| 0 <= k < r@.len() ==> #[trigger] r@[k]@ == words(v@)[k],
            forall|k: int|
                0 <= k < words(v@.skip(i as int)).len() ==> words(v@)[r@.len() + k]
                    == #[trigger] words(v@.skip(i as int))[k],
        decreases v@.len() - i,
    {
        let ghost rest = v@.skip(i as int);
        if is_whitespace(v[i]) {
            assert(rest.drop_first() =~= v@.skip(i + 1));
            assert(trim_start(rest) == trim_start(v@.skip(i + 1)));
            assert(words(rest) == words(v@.skip(i + 1)));
            i = i + 1;
        } else {
            let start = i;
            assert(trim_start(rest) == rest);
            while i < v.len() && !is_whitespace(v[i])
                invariant
                    start <= i <= v@.len(),
                    word_len(v@.skip(start as int)) == (i - start) + word_len(v@.skip(i as int)),
                decreases v@.len() - i,
            {
                assert(v@.skip(i as int).drop_first() =~= v@.skip(i + 1));
                i = i + 1;
            }
            let w = string_of_range(&v, start, i);
            proof {
                let n = word_len(rest);
                assert(n == i - start);
                assert(rest.take(n) =~= v@.subrange(start as int, i as int));
                assert(rest.skip(n) =~= v@.skip(i as int));
                assert(words(rest) == seq![rest.take(n)] + words(rest.skip(n)));
                assert(words(v@)[r@.len() + 0int] == words(rest)[0]);
                assert forall|k: int| 0 <= k < words(v@.skip(i as int)).len() implies words(
                    v@,
                )[r@.len() + 1 + k] == #[trigger] words(v@.skip(i as int))[k] by {
                    assert(words(rest)[k + 1] == words(v@.skip(i as int))[k]);
                }
            }
            r.push(w);
        }
    }
    assert(v@.skip(i as int) =~= Seq::<char>::empty());
    r
}

} // verus!

verus! {

/// `s` without its leading copies of `c` (`str::trim_start_matches` with a
/// character).
pub open spec fn strip_leading(s: Seq<char>, c: char) -> Seq<char>
    decreases s.len(),
{
    if s.len() > 0 && s[0] == c {
        strip_leading(s.drop_first(), c)
    } else {
        s
    }
}

/// The part of `s` before the first `c`, or all of `s`
/// (`s.split(c).next()`).
pub open spec fn before_char(s: Seq<char>, c: char) -> Seq<char> {
    s.take(first_index_of(s, c))
}

/// The part of `s` after the first `c`, where there is one
/// (`s.split_once(c).map(|x| x.1)`).
pub open spec fn after_char(s: Seq<char>, c: char) -> Option<Seq<char>> {
    if has_char(s, c) {
        Some(s.skip(first_index_of(s, c) + 1))
    } else {
        None
    }
}

/// The first index at or after `i` where `p` occurs in `s`, or -1.
pub open spec fn find_from(s: Seq<char>, p: Seq<char>, i: int) -> int
    decreases s.len() + 1 - i,
{
    if i < 0 || i + p.len() > s.len() {
        -1
    } else if occurs_at(s, p, i) {
        i
    } else {
        find_from(s, p, i + 1)
    }
}

pub proof fn lemma_find_from(s: Seq<char>, p: Seq<char>, i: int)
    ensures
        find_from(s, p, i) == -1 || (i <= find_from(s, p, i) && occurs_at(s, p, find_from(s, p, i))),
    decreases s.len() + 1 - i,
{
    if i < 0 || i + p.len() > s.len() {
    } else if occurs_at(s, p, i) {
    } else {
        lemma_find_from(s, p, i + 1);
    }
}

/// The second piece of `s` split at `p` (`s.split(p).nth(1)`), or nothing
/// where `p` does not occur.
pub open spec fn second_field(s: Seq<char>, p: Seq<char>) -> Seq<char> {
    let i = find_from(s, p, 0);
    if i < 0 {
        Seq::empty()
    } else {
        let rest = s.skip(i + p.len());
        let j = find_from(rest, p, 0);
        if j < 0 {
            rest
        } else {
            rest.take(j)
        }
    }
}

/// `str::trim_start_matches` with a character.
pub fn strip_leading_str(s: &str, c: char) -> (r: String)
    ensures
        r@ == strip_leading(s@, c),
{
    let v = to_chars(s);
    let mut i: usize = 0;
    assert(v@.skip(0) =~= v@);
    while i < v.len() && v[i] == c
        invariant
            i <= v@.len(),
            strip_leading(v@, c) == strip_leading(v@.skip(i as int), c),
        decreases v@.len() - i,
    {
        assert(v@.skip(i as int).drop_first() =~= v@.skip(i + 1));
        i = i + 1;
    }
    assert(v@.skip(i as int) =~= v@.subrange(i as int, v@.len() as int));
    string_of_range(&v, i, v.len())
}

/// The index of the first `c` in `v`, or `v.len()`.
pub fn index_of_char(v: &Vec<char>, c: char) -> (i: usize)
    ensures
        i == first_index_of(v@, c),
{
    let mut i: usize = 0;
    while i < v.len() && v[i] != c
        invariant
            i <= v@.len(),
            forall|j: int| 0 <= j < i ==> #[trigger] v@[j] != c,
        decreases v@.len() - i,
    {
        i = i + 1;
    }
    proof {
        lemma_first_index_unique(v@, c, i as int);
    }
    i
}

/// `s.split(c).next()`.
pub fn before_char_str(s: &str, c: char) -> (r: String)
    ensures
        r@ == before_char(s@, c),
{
    let v = to_chars(s);
    let i = index_of_char(&v, c);
    proof {
        lemma_first_index(v@, c);
    }
    assert(v@.take(i as int) =~= v@.subrange(0, i as int));
    string_of_range(&v, 0, i)
}

/// `s.split_once(c).map(|x| x.1)`.
pub fn after_char_str(s: &str, c: char) -> (r: Option<String>)
    ensures
        match r {
            Some(t) => after_char(s@, c) == Some(t@),
            None => after_char(s@, c) is None,
        },
{
    let v = to_chars(s);
    let i = index_of_char(&v, c);
    proof {
        lemma_first_index(v@, c);
    }
    if i < v.len() {
        assert(v@.skip(i + 1) =~= v@.subrange(i + 1, v@.len() as int));
        Some(string_of_range(&v, i + 1, v.len()))
    } else {
        None
    }
}

/// The first index at or after `from` where `p` occurs in `v`.
pub fn find_chars(v: &Vec<char>, p: &Vec<char>, from: usize) -> (r: Option<usize>)
    ensures
        match r {
            Some(i) => find_from(v@, p@, from as int) == i as int,
            None => find_from(v@, p@, from as int) == -1,
        },
{
    let mut i = from;
    while p.len() <= v.len() && i <= v.len() - p.len()
        invariant
            from <= i,
            find_from(v@, p@, from as int) == find_from(v@, p@, i as int),
        decreases v@.len() + 1 - i,
    {
        if matches_at(v, i, p) {
            return Some(i);
        }
        proof {
            if p@.len() == 0 {
                assert(v@.subrange(i as int, i as int) =~= p@);
            }
        }
        i = i + 1;
    }
    None
}

/// `s.split(p).nth(1).unwrap_or("")`.
pub fn second_field_str(s: &str, p: &str) -> (r: String)
    ensures
        r@ == second_field(s@, p@),
{
    let v = to_chars(s);
    let pv = to_chars(p);
    let i = match find_chars(&v, &pv, 0) {
        Some(i) => i,
        None => {
            return String::new();
        },
    };
    proof {
        lemma_find_from(v@, pv@, 0);
        assert(find_from(v@, pv@, 0) == i as int);
        assert(occurs_at(v@, pv@, i as int));
    }
    let vl = v.len();
    let pl = pv.len();
    assert(i + pl <= vl);
    let start = i + pl;
    let rest = string_of_range(&v, start, v.len());
    assert(rest@ =~= v@.skip(start as int));
    let rv = to_chars(rest.as_str());
    proof {
        lemma_find_from(rv@, pv@, 0);
    }
    match find_chars(&rv, &pv, 0) {
        None => rest,
        Some(j) => {
            assert(rv@.take(j as int) =~= rv@.subrange(0, j as int));
            string_of_range(&rv, 0, j)
        },
    }
}

} // verus!

verus! {

/// The elements of `parts` with `sep` between them (`[..].join(sep)`).
pub open spec fn join(parts: Seq<Seq<char>>, sep: Seq<char>) -> Seq<char>
    decreases parts.len(),
{
    if parts.len() == 0 {
        Seq::empty()
    } else if parts.len() == 1 {
        parts[0]
    } else {
        join(parts.drop_last(), sep) + sep + parts.last()
    }
}

/// `parts.join(sep)`.
pub fn join_strings(parts: &Vec<String>, sep: &str) -> (r: String)
    ensures
        r@ == join(strs(parts@), sep@),
{
    let ghost pv = strs(parts@);
    let mut r = String::new();
    let mut i: usize = 0;
    assert(pv.take(0) =~= Seq::<Seq<char>>::empty());
    while i < parts.len()
        invariant
            pv == strs(parts@),
            i <= parts@.len(),
            r@ == join(pv.take(i as int), sep@),
        decreases parts@.len() - i,
    {
        assert(pv.take(i + 1).drop_last() =~= pv.take(i as int));
        assert(pv.take(i + 1).last() == parts@[i as int]@);
        if i > 0 {
            r.append(sep);
        } else {
            assert(pv.take(1) =~= seq![parts@[0]@]);
        }
        r.append(parts[i].as_str());
        i = i + 1;
    }
    assert(pv.take(i as int) =~= pv);
    r
}

} // verus!
