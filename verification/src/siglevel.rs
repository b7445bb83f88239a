//! Signature-verification levels as pacman.conf writes them.
//!
//! A level is a bit set with the values of libalpm's `alpm_siglevel_t`.
use vstd::prelude::*;
use crate::text::{is_ws, lemma_words_join, lemma_words_token, split_words, str_eq, words};

verus! {

/// Packages must be signed.
pub const SIG_PACKAGE: u32 = 1;
/// A package signature is optional.
pub const SIG_PACKAGE_OPTIONAL: u32 = 2;
/// A marginally trusted package signature is accepted.
pub const SIG_PACKAGE_MARGINAL_OK: u32 = 4;
/// A package signature of unknown trust is accepted.
pub const SIG_PACKAGE_UNKNOWN_OK: u32 = 8;
/// Databases must be signed.
pub const SIG_DATABASE: u32 = 1024;
/// A database signature is optional.
pub const SIG_DATABASE_OPTIONAL: u32 = 2048;
/// A marginally trusted database signature is accepted.
pub const SIG_DATABASE_MARGINAL_OK: u32 = 4096;
/// A database signature of unknown trust is accepted.
pub const SIG_DATABASE_UNKNOWN_OK: u32 = 8192;

/// The bits that one word of a `SigLevel` value adds; zero for a word that is
/// not known (and for `TrustedOnly`, which adds nothing).
pub open spec fn word_bits(w: Seq<char>) -> u32 {
    if w == "Optional"@ {
        SIG_PACKAGE | SIG_PACKAGE_OPTIONAL | SIG_PACKAGE_MARGINAL_OK | SIG_PACKAGE_UNKNOWN_OK
            | SIG_DATABASE | SIG_DATABASE_OPTIONAL | SIG_DATABASE_MARGINAL_OK
            | SIG_DATABASE_UNKNOWN_OK
    } else if w == "Required"@ {
        SIG_PACKAGE | SIG_PACKAGE_MARGINAL_OK | SIG_DATABASE | SIG_DATABASE_MARGINAL_OK
    } else if w == "Package"@ {
        SIG_PACKAGE
    } else if w == "PackageOptional"@ {
        SIG_PACKAGE | SIG_PACKAGE_OPTIONAL | SIG_PACKAGE_MARGINAL_OK | SIG_PACKAGE_UNKNOWN_OK
    } else if w == "PackageRequired"@ {
        SIG_PACKAGE | SIG_PACKAGE_MARGINAL_OK
    } else if w == "PackageTrustedOnly"@ {
        SIG_PACKAGE
    } else if w == "PackageTrustedAll"@ {
        SIG_PACKAGE | SIG_PACKAGE_UNKNOWN_OK
    } else if w == "Database"@ {
        SIG_DATABASE
    } else if w == "DatabaseOptional"@ {
        SIG_DATABASE | SIG_DATABASE_OPTIONAL | SIG_DATABASE_MARGINAL_OK | SIG_DATABASE_UNKNOWN_OK
    } else if w == "DatabaseRequired"@ {
        SIG_DATABASE | SIG_DATABASE_MARGINAL_OK
    } else if w == "DatabaseTrustedOnly"@ {
        SIG_DATABASE
    } else if w == "DatabaseTrustedAll"@ {
        SIG_DATABASE | SIG_DATABASE_UNKNOWN_OK
    } else if w == "TrustedAll"@ {
        SIG_PACKAGE_UNKNOWN_OK | SIG_DATABASE_UNKNOWN_OK
    } else {
        0
    }
}

/// The union of the bits of `ws`, starting from `acc`.
pub open spec fn union_bits(ws: Seq<Seq<char>>, acc: u32) -> u32
    decreases ws.len(),
{
    if ws.len() == 0 {
        acc
    } else {
        union_bits(ws.drop_first(), acc | word_bits(ws[0]))
    }
}

/// The word `Never` occurs among `ws`.
pub open spec fn has_never(ws: Seq<Seq<char>>) -> bool {
    exists|i: int| 0 <= i < ws.len() && ws[i] == "Never"@
}

/// The level that a `SigLevel` value stands for: none at all where the word
/// `Never` occurs, else the union of the bits of all its words.
pub open spec fn siglevel_spec(val: Seq<char>) -> u32 {
    words_level(words(val))
}

/// The level that a list of words stands for.
pub open spec fn words_level(ws: Seq<Seq<char>>) -> u32 {
    if has_never(ws) {
        0
    } else {
        union_bits(ws, 0)
    }
}

/// Starting from `acc` adds exactly `acc` to the union.
proof fn lemma_union_acc(ws: Seq<Seq<char>>, acc: u32)
    ensures
        union_bits(ws, acc) == acc | union_bits(ws, 0),
    decreases ws.len(),
{
    if ws.len() == 0 {
        assert(acc | 0u32 == acc) by (bit_vector);
    } else {
        let b = word_bits(ws[0]);
        lemma_union_acc(ws.drop_first(), acc | b);
        lemma_union_acc(ws.drop_first(), 0 | b);
        let u = union_bits(ws.drop_first(), 0);
        assert((acc | b) | u == acc | ((0u32 | b) | u)) by (bit_vector);
    }
}

/// The union of two lists of words is the union of their unions.
proof fn lemma_union_concat(a: Seq<Seq<char>>, b: Seq<Seq<char>>)
    ensures
        union_bits(a + b, 0) == union_bits(a, 0) | union_bits(b, 0),
    decreases a.len(),
{
    if a.len() == 0 {
        assert(a + b =~= b);
        let u = union_bits(b, 0);
        assert(0u32 | u == u) by (bit_vector);
    } else {
        let w = word_bits(a[0]);
        assert((a + b).drop_first() =~= a.drop_first() + b);
        assert((a + b)[0] == a[0]);
        lemma_union_concat(a.drop_first(), b);
        lemma_union_acc(a.drop_first() + b, 0 | w);
        lemma_union_acc(a.drop_first(), 0 | w);
        let x = union_bits(a.drop_first(), 0);
        let y = union_bits(b, 0);
        assert((0u32 | w) | (x | y) == ((0u32 | w) | x) | y) by (bit_vector);
    }
}

/// The words of a `SigLevel` value may come in any order: the level of `a`
/// followed by `b` is that of `b` followed by `a`.
pub proof fn lemma_word_order(a: Seq<Seq<char>>, b: Seq<Seq<char>>)
    ensures
        words_level(a + b) == words_level(b + a),
{
    lemma_union_concat(a, b);
    lemma_union_concat(b, a);
    let x = union_bits(a, 0);
    let y = union_bits(b, 0);
    assert(x | y == y | x) by (bit_vector);
    assert(has_never(a + b) == has_never(b + a)) by {
        if has_never(a + b) {
            let i = choose|i: int| 0 <= i < (a + b).len() && (a + b)[i] == "Never"@;
            if i < a.len() {
                assert((b + a)[b.len() + i] == "Never"@);
            } else {
                assert((b + a)[i - a.len()] == "Never"@);
            }
        }
        if has_never(b + a) {
            let i = choose|i: int| 0 <= i < (b + a).len() && (b + a)[i] == "Never"@;
            if i < b.len() {
                assert((a + b)[a.len() + i] == "Never"@);
            } else {
                assert((a + b)[i - b.len()] == "Never"@);
            }
        }
    }
}

/// `SigLevel` values joined by a space: where neither holds `Never`, the
/// level of the whole is the union of their levels; the order of the two does
/// not matter; `Never` as a word anywhere gives no checks at all; and a word
/// that is not a keyword adds nothing.
pub proof fn lemma_siglevel_join(a: Seq<char>, b: Seq<char>, c: Seq<char>, x: Seq<char>)
    ensures
        !has_never(words(a)) && !has_never(words(b)) ==> siglevel_spec(a + " "@ + b) == (
        siglevel_spec(a) | siglevel_spec(b)),
        siglevel_spec(a + " "@ + b) == siglevel_spec(b + " "@ + a),
        siglevel_spec(a + " Never "@ + c) == 0,
        x.len() > 0 && (forall|i: int| 0 <= i < x.len() ==> !is_ws(#[trigger] x[i])) && word_bits(x)
            == 0 && x != "Never"@ ==> siglevel_spec(a + " "@ + x) == siglevel_spec(a),
{
    reveal_strlit(" ");
    reveal_strlit(" Never ");
    reveal_strlit("Never");
    assert(" "@ =~= seq![' ']);
    lemma_words_join(a, ' ', b);
    lemma_words_join(b, ' ', a);
    let wa = words(a);
    let wb = words(b);
    lemma_union_concat(wa, wb);
    lemma_word_order(wa, wb);
    if !has_never(wa) && !has_never(wb) {
        assert(!has_never(wa + wb)) by {
            if has_never(wa + wb) {
                let i = choose|i: int| 0 <= i < (wa + wb).len() && (wa + wb)[i] == "Never"@;
                if i < wa.len() {
                    assert(wa[i] == "Never"@);
                } else {
                    assert(wb[i - wa.len()] == "Never"@);
                }
            }
        }
    }
    // `Never` anywhere
    let nv = "Never"@;
    assert(a + " Never "@ + c =~= a + seq![' '] + (nv + seq![' '] + c));
    lemma_words_join(nv, ' ', c);
    assert forall|i: int| 0 <= i < nv.len() implies !is_ws(#[trigger] nv[i]) by {}
    lemma_words_token(nv);
    lemma_words_join(a, ' ', nv + seq![' '] + c);
    let all = wa + (seq![nv] + words(c));
    assert(all[wa.len() as int] == nv);
    assert(has_never(all));
    // an unknown word
    if x.len() > 0 && (forall|i: int| 0 <= i < x.len() ==> !is_ws(#[trigger] x[i])) && word_bits(x) == 0
        && x != "Never"@ {
        lemma_words_join(a, ' ', x);
        lemma_words_token(x);
        let wx = seq![x];
        lemma_union_concat(wa, wx);
        assert(wx.drop_first() =~= Seq::<Seq<char>>::empty());
        let u = union_bits(wa, 0);
        assert(union_bits(wx, 0) == union_bits(wx.drop_first(), 0u32 | 0u32));
        assert(0u32 | 0u32 == 0u32) by (bit_vector);
        assert(u | 0u32 == u) by (bit_vector);
        assert(has_never(wa + wx) == has_never(wa)) by {
            if has_never(wa + wx) {
                let i = choose|i: int| 0 <= i < (wa + wx).len() && (wa + wx)[i] == "Never"@;
                if i < wa.len() {
                    assert(wa[i] == "Never"@);
                } else {
                    assert(wx[i - wa.len()] == x);
                }
            }
            if has_never(wa) {
                let i = choose|i: int| 0 <= i < wa.len() && wa[i] == "Never"@;
                assert((wa + wx)[i] == "Never"@);
            }
        }
    }
}

/// `k` stands for the level `b`: alone, and added to any value without
/// `Never` that it follows.
pub open spec fn adds_level(a: Seq<char>, k: Seq<char>, b: u32) -> bool {
    &&& siglevel_spec(k) == b
    &&& siglevel_spec(a + " "@ + k) == (siglevel_spec(a) | b)
}

/// A keyword other than `Never` stands for its own bits.
proof fn lemma_keyword(a: Seq<char>, k: Seq<char>)
    requires
        !has_never(words(a)),
        k.len() > 0,
        forall|i: int| 0 <= i < k.len() ==> !is_ws(#[trigger] k[i]),
        k[0] != 'N',
    ensures
        adds_level(a, k, word_bits(k)),
{
    reveal_strlit("Never");
    assert(k != "Never"@) by {
        assert("Never"@[0] == 'N');
    }
    lemma_words_token(k);
    let wk = seq![k];
    assert(!has_never(wk)) by {
        if has_never(wk) {
            let i = choose|i: int| 0 <= i < wk.len() && wk[i] == "Never"@;
            assert(wk[i] == k);
        }
    }
    assert(wk.drop_first() =~= Seq::<Seq<char>>::empty());
    let b = word_bits(k);
    assert(union_bits(wk, 0) == union_bits(wk.drop_first(), 0u32 | b));
    assert(0u32 | b == b) by (bit_vector);
    lemma_siglevel_join(a, k, k, k);
}

/// libalpm's table of `SigLevel` keywords: the level of each keyword, alone
/// and after any value without `Never` (where it adds exactly its bits);
/// `Never` alone, or after any value, gives no checks at all.
pub proof fn lemma_keyword_levels(a: Seq<char>)
    requires
        !has_never(words(a)),
    ensures
        adds_level(a, "Optional"@, 15375),
        adds_level(a, "Required"@, 5125),
        adds_level(a, "Package"@, 1),
        adds_level(a, "PackageOptional"@, 15),
        adds_level(a, "PackageRequired"@, 5),
        adds_level(a, "PackageTrustedOnly"@, 1),
        adds_level(a, "PackageTrustedAll"@, 9),
        adds_level(a, "Database"@, 1024),
        adds_level(a, "DatabaseOptional"@, 15360),
        adds_level(a, "DatabaseRequired"@, 5120),
        adds_level(a, "DatabaseTrustedOnly"@, 1024),
        adds_level(a, "DatabaseTrustedAll"@, 9216),
        adds_level(a, "TrustedAll"@, 8200),
        adds_level(a, "TrustedOnly"@, 0),
        siglevel_spec("Never"@) == 0,
        siglevel_spec(a + " "@ + "Never"@) == 0,
{
    reveal_strlit("Optional");
    reveal_strlit("Required");
    reveal_strlit("Package");
    reveal_strlit("PackageOptional");
    reveal_strlit("PackageRequired");
    reveal_strlit("PackageTrustedOnly");
    reveal_strlit("PackageTrustedAll");
    reveal_strlit("Database");
    reveal_strlit("DatabaseOptional");
    reveal_strlit("DatabaseRequired");
    reveal_strlit("DatabaseTrustedOnly");
    reveal_strlit("DatabaseTrustedAll");
    reveal_strlit("TrustedAll");
    reveal_strlit("TrustedOnly");
    reveal_strlit("Never");
    assert(SIG_PACKAGE | SIG_PACKAGE_OPTIONAL | SIG_PACKAGE_MARGINAL_OK | SIG_PACKAGE_UNKNOWN_OK
        | SIG_DATABASE | SIG_DATABASE_OPTIONAL | SIG_DATABASE_MARGINAL_OK | SIG_DATABASE_UNKNOWN_OK
        == 15375u32 && SIG_PACKAGE | SIG_PACKAGE_MARGINAL_OK | SIG_DATABASE
        | SIG_DATABASE_MARGINAL_OK == 5125u32 && SIG_PACKAGE | SIG_PACKAGE_OPTIONAL
        | SIG_PACKAGE_MARGINAL_OK | SIG_PACKAGE_UNKNOWN_OK == 15u32 && SIG_PACKAGE
        | SIG_PACKAGE_MARGINAL_OK == 5u32 && SIG_PACKAGE | SIG_PACKAGE_UNKNOWN_OK == 9u32
        && SIG_DATABASE | SIG_DATABASE_OPTIONAL | SIG_DATABASE_MARGINAL_OK
        | SIG_DATABASE_UNKNOWN_OK == 15360u32 && SIG_DATABASE | SIG_DATABASE_MARGINAL_OK
        == 5120u32 && SIG_DATABASE | SIG_DATABASE_UNKNOWN_OK == 9216u32
        && SIG_PACKAGE_UNKNOWN_OK | SIG_DATABASE_UNKNOWN_OK == 8200u32) by (bit_vector);
    assert("PackageRequired"@[7] != "PackageOptional"@[7]);
    assert("DatabaseRequired"@[8] != "DatabaseOptional"@[8]);
    lemma_keyword(a, "Optional"@);
    lemma_keyword(a, "Required"@);
    lemma_keyword(a, "Package"@);
    lemma_keyword(a, "PackageOptional"@);
    lemma_keyword(a, "PackageRequired"@);
    lemma_keyword(a, "PackageTrustedOnly"@);
    lemma_keyword(a, "PackageTrustedAll"@);
    lemma_keyword(a, "Database"@);
    lemma_keyword(a, "DatabaseOptional"@);
    lemma_keyword(a, "DatabaseRequired"@);
    lemma_keyword(a, "DatabaseTrustedOnly"@);
    lemma_keyword(a, "DatabaseTrustedAll"@);
    lemma_keyword(a, "TrustedAll"@);
    lemma_keyword(a, "TrustedOnly"@);
    let nv = "Never"@;
    assert forall|i: int| 0 <= i < nv.len() implies !is_ws(#[trigger] nv[i]) by {}
    lemma_words_token(nv);
    assert(seq![nv][0] == nv);
    lemma_siglevel_join(a, nv, nv, nv);
    lemma_words_join(a, ' ', nv);
    reveal_strlit(" ");
    assert(" "@ =~= seq![' ']);
    assert((words(a) + seq![nv])[words(a).len() as int] == nv);
}

/// The bits of one word.
pub fn bits_of_word(w: &str) -> (b: u32)
    ensures
        b == word_bits(w@),
{
    if str_eq(w, "Optional") {
        SIG_PACKAGE | SIG_PACKAGE_OPTIONAL | SIG_PACKAGE_MARGINAL_OK | SIG_PACKAGE_UNKNOWN_OK
            | SIG_DATABASE | SIG_DATABASE_OPTIONAL | SIG_DATABASE_MARGINAL_OK
            | SIG_DATABASE_UNKNOWN_OK
    } else if str_eq(w, "Required") {
        SIG_PACKAGE | SIG_PACKAGE_MARGINAL_OK | SIG_DATABASE | SIG_DATABASE_MARGINAL_OK
    } else if str_eq(w, "Package") {
        SIG_PACKAGE
    } else if str_eq(w, "PackageOptional") {
        SIG_PACKAGE | SIG_PACKAGE_OPTIONAL | SIG_PACKAGE_MARGINAL_OK | SIG_PACKAGE_UNKNOWN_OK
    } else if str_eq(w, "PackageRequired") {
        SIG_PACKAGE | SIG_PACKAGE_MARGINAL_OK
    } else if str_eq(w, "PackageTrustedOnly") {
        SIG_PACKAGE
    } else if str_eq(w, "PackageTrustedAll") {
        SIG_PACKAGE | SIG_PACKAGE_UNKNOWN_OK
    } else if str_eq(w, "Database") {
        SIG_DATABASE
    } else if str_eq(w, "DatabaseOptional") {
        SIG_DATABASE | SIG_DATABASE_OPTIONAL | SIG_DATABASE_MARGINAL_OK | SIG_DATABASE_UNKNOWN_OK
    } else if str_eq(w, "DatabaseRequired") {
        SIG_DATABASE | SIG_DATABASE_MARGINAL_OK
    } else if str_eq(w, "DatabaseTrustedOnly") {
        SIG_DATABASE
    } else if str_eq(w, "DatabaseTrustedAll") {
        SIG_DATABASE | SIG_DATABASE_UNKNOWN_OK
    } else if str_eq(w, "TrustedAll") {
        SIG_PACKAGE_UNKNOWN_OK | SIG_DATABASE_UNKNOWN_OK
    } else {
        0
    }
}

/// Parses the value of a `SigLevel`, `LocalFileSigLevel` or
/// `RemoteFileSigLevel` directive.
pub fn parse_siglevel(val: &str) -> (sig: u32)
    ensures
        sig == siglevel_spec(val@),
{
    let ws = split_words(val);
    let ghost wsv = words(val@);
    let mut sig: u32 = 0;
    let mut i: usize = 0;
    assert(wsv.skip(0) =~= wsv);
    while i < ws.len()
        invariant
            wsv == words(val@),
            ws@.len() == wsv.len(),
            forall|k: int| 0 <= k < ws@.len() ==> #[trigger] ws@[k]@ == wsv[k],
            i <= ws@.len(),
            forall|k: int| 0 <= k < i ==> wsv[k] != "Never"@,
            union_bits(wsv, 0) == union_bits(wsv.skip(i as int), sig),
        decreases ws@.len() - i,
    {
        let w = ws[i].as_str();
        assert(ws@[i as int]@ == wsv[i as int]);
        if str_eq(w, "Never") {
            assert(has_never(wsv));
            return 0;
        }
        assert(wsv.skip(i as int).drop_first() =~= wsv.skip(i + 1));
        sig = sig | bits_of_word(w);
        i = i + 1;
    }
    assert(wsv.skip(i as int) =~= Seq::<Seq<char>>::empty());
    assert(!has_never(wsv));
    sig
}

} // verus!
