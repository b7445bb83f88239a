//! Sizes and versions as the interface prints them.
//!
//! Sizes go through `f64` in the way Rust's `{:.N}` formatting prints them:
//! the integer is first rounded to the nearest `f64` (ties to even), divided
//! exactly by a power of two, then rounded to `N` decimals, ties to even.
//! The functions here do the same in integer arithmetic.
use vstd::prelude::*;
use crate::style::{color, colored, Color};
use crate::text::{cat, dec, digit, push_char, u128_to_dec};

verus! {

/// 1024 bytes.
pub const KIB: i64 = 1024;
/// 1024 KiB.
pub const MIB: i64 = 1048576;
/// 1024 MiB.
pub const GIB: i64 = 1073741824;

/// `2^53`: below it every integer is an `f64` exactly.
pub open spec fn exact_f64_limit() -> nat {
    9007199254740992
}

/// The spacing of the `f64` values around `n`.
pub open spec fn f64_ulp(n: nat) -> nat
    decreases n,
{
    if n < exact_f64_limit() {
        1
    } else {
        2 * f64_ulp(n / 2)
    }
}

/// `n / d` rounded to the nearest integer, ties to even.
pub open spec fn round_half_even(n: nat, d: nat) -> nat {
    let q = n / d;
    let r = n % d;
    if 2 * r > d {
        q + 1
    } else if 2 * r < d {
        q
    } else if q % 2 == 0 {
        q
    } else {
        q + 1
    }
}

/// `n as f64`, as an integer.
pub open spec fn f64_value(n: nat) -> nat {
    round_half_even(n, f64_ulp(n)) * f64_ulp(n)
}

/// The unit in which a size is shown, and its name.
pub open spec fn unit_spec(bytes: int) -> (int, Seq<char>) {
    if bytes >= GIB {
        (GIB as int, "GiB"@)
    } else if bytes >= MIB {
        (MIB as int, "MiB"@)
    } else if bytes >= KIB {
        (KIB as int, "KiB"@)
    } else {
        (1, "B"@)
    }
}

/// `{:.1}` (where `one_decimal`) or `{:.0}` of `mag as f64 / unit as f64`.
pub open spec fn fixed_text(mag: nat, unit: nat, one_decimal: bool) -> Seq<char> {
    if one_decimal {
        let q = round_half_even(f64_value(mag) * 10, unit);
        dec(q / 10) + "."@ + seq![digit(q % 10)]
    } else {
        dec(round_half_even(f64_value(mag), unit))
    }
}

/// `{:.1}` or `{:.0}` of `n as f64 / unit as f64`, for a signed `n`.
pub open spec fn signed_fixed_text(n: int, unit: nat, one_decimal: bool) -> Seq<char> {
    if n < 0 {
        "-"@ + fixed_text((-n) as nat, unit, one_decimal)
    } else {
        fixed_text(n as nat, unit, one_decimal)
    }
}

/// What `format_size` prints for `bytes`.
pub open spec fn format_size_spec(bytes: i64) -> Seq<char> {
    if bytes == 0 {
        "0 B"@
    } else {
        let prefix = if bytes < 0 { "-"@ } else { ""@ };
        let abs: int = if bytes == i64::MIN { i64::MAX as int } else if bytes < 0 { -bytes } else { bytes as int };
        let (unit, suffix) = unit_spec(abs);
        let one = f64_value(abs as nat) < 10 * unit;
        prefix + fixed_text(abs as nat, unit as nat, one) + " "@ + suffix
    }
}

/// A negative size shows as the size of its magnitude after a minus sign.
pub proof fn lemma_format_size_negative(b: i64)
    requires
        0 < b,
    ensures
        format_size_spec((-b) as i64) == "-"@ + format_size_spec(b),
{
    reveal_strlit("");
    let (unit, suffix) = unit_spec(b as int);
    let one = f64_value(b as nat) < 10 * unit;
    let body = fixed_text(b as nat, unit as nat, one) + " "@ + suffix;
    assert(""@ + fixed_text(b as nat, unit as nat, one) + " "@ + suffix =~= body);
    assert("-"@ + fixed_text(b as nat, unit as nat, one) + " "@ + suffix =~= "-"@ + body);
}

/// A whole number `k` of units `u` (named `name`) shows as `k` with one
/// decimal `.0` below ten units, and as `k` alone from ten units on.
proof fn lemma_whole_unit(k: nat, u: nat, name: Seq<char>)
    requires
        1 <= k,
        1 <= u <= GIB,
        k * u < exact_f64_limit(),
        unit_spec((k * u) as int) == (u as int, name),
    ensures
        format_size_spec((k * u) as i64) == dec(k) + (if k < 10 {
            ".0"@
        } else {
            ""@
        }) + " "@ + name,
{
    reveal_strlit("");
    reveal_strlit(".0");
    reveal_strlit(".");
    let n = k * u;
    assert(n >= u) by (nonlinear_arith)
        requires
            1 <= k,
            n == k * u,
    ;
    assert(f64_ulp(n) == 1);
    assert(round_half_even(n, 1) == n);
    assert(f64_value(n) == n);
    assert((n < 10 * u) == (k < 10)) by (nonlinear_arith)
        requires
            n == k * u,
            u >= 1,
    ;
    vstd::arithmetic::div_mod::lemma_div_by_multiple(k as int, u as int);
    vstd::arithmetic::div_mod::lemma_mod_multiples_basic(k as int, u as int);
    assert(n * 10 == (k * 10) * u) by (nonlinear_arith)
        requires
            n == k * u,
    ;
    vstd::arithmetic::div_mod::lemma_div_by_multiple((k * 10) as int, u as int);
    vstd::arithmetic::div_mod::lemma_mod_multiples_basic((k * 10) as int, u as int);
    assert(round_half_even(n, u) == k);
    assert(round_half_even(n * 10, u) == k * 10);
    assert((k * 10) / 10 == k && (k * 10) % 10 == 0) by (nonlinear_arith);
    assert(digit(0) == '0');
    let fixed = fixed_text(n, u, k < 10);
    if k < 10 {
        assert(fixed =~= dec(k) + ".0"@);
    } else {
        assert(fixed =~= dec(k) + ""@);
    }
    assert(""@ + fixed + " "@ + name =~= fixed + " "@ + name);
}

/// Sizes that are a whole number of bytes, KiB, MiB or GiB (below the next
/// unit) show as that number and the unit, with one decimal (`.0`) below ten
/// of the unit: 5 shows as "5.0 B", 512 as "512 B", 2048 as "2.0 KiB".
pub proof fn lemma_format_whole_units(k: nat)
    requires
        1 <= k < 1024,
    ensures
        ({
            let tail = if k < 10 {
                ".0"@
            } else {
                ""@
            };
            &&& format_size_spec(k as i64) == dec(k) + tail + " B"@
            &&& format_size_spec((k * 1024) as i64) == dec(k) + tail + " KiB"@
            &&& format_size_spec((k * 1048576) as i64) == dec(k) + tail + " MiB"@
            &&& format_size_spec((k * 1073741824) as i64) == dec(k) + tail + " GiB"@
        }),
{
    reveal_strlit(" B");
    reveal_strlit(" KiB");
    reveal_strlit(" MiB");
    reveal_strlit(" GiB");
    reveal_strlit(" ");
    reveal_strlit("B");
    reveal_strlit("KiB");
    reveal_strlit("MiB");
    reveal_strlit("GiB");
    assert(k * 1 == k);
    assert(k * 1024 < 1048576 && k * 1024 >= 1024) by (nonlinear_arith)
        requires
            1 <= k < 1024,
    ;
    assert(k * 1048576 < 1073741824 && k * 1048576 >= 1048576) by (nonlinear_arith)
        requires
            1 <= k < 1024,
    ;
    assert(k * 1073741824 < 1099511627776 && k * 1073741824 >= 1073741824) by (nonlinear_arith)
        requires
            1 <= k < 1024,
    ;
    lemma_whole_unit(k, 1, "B"@);
    lemma_whole_unit(k, 1024, "KiB"@);
    lemma_whole_unit(k, 1048576, "MiB"@);
    lemma_whole_unit(k, 1073741824, "GiB"@);
    let tail = if k < 10 {
        ".0"@
    } else {
        ""@
    };
    assert(dec(k) + tail + " "@ + "B"@ =~= dec(k) + tail + " B"@);
    assert(dec(k) + tail + " "@ + "KiB"@ =~= dec(k) + tail + " KiB"@);
    assert(dec(k) + tail + " "@ + "MiB"@ =~= dec(k) + tail + " MiB"@);
    assert(dec(k) + tail + " "@ + "GiB"@ =~= dec(k) + tail + " GiB"@);
}

/// The unit for a size.
pub fn unit_for(bytes: i64) -> (r: (i64, &'static str))
    ensures
        (r.0 as int, r.1@) == unit_spec(bytes as int),
{
    if bytes >= GIB {
        (GIB, "GiB")
    } else if bytes >= MIB {
        (MIB, "MiB")
    } else if bytes >= KIB {
        (KIB, "KiB")
    } else {
        (1, "B")
    }
}

/// The unit in which a total is shown.
pub fn pick_unit(total: i64) -> (r: (i64, &'static str))
    ensures
        (r.0 as int, r.1@) == unit_spec(total as int),
{
    unit_for(total)
}

/// `n / d` rounded to the nearest integer, ties to even.
pub fn div_round_even(n: u128, d: u128) -> (q: u128)
    requires
        0 < d <= 0x1_0000_0000_0000_0000u128,
        n < 0x8000_0000_0000_0000_0000_0000_0000_0000u128,
    ensures
        q == round_half_even(n as nat, d as nat),
{
    let q = n / d;
    let r = n % d;
    if 2 * r > d {
        q + 1
    } else if 2 * r < d {
        q
    } else if q % 2 == 0 {
        q
    } else {
        q + 1
    }
}

proof fn lemma_round_bound(n: nat, d: nat)
    requires
        d > 0,
    ensures
        round_half_even(n, d) <= n / d + 1,
        round_half_even(n, d) * d <= n + d,
{
    let q = n / d;
    vstd::arithmetic::div_mod::lemma_fundamental_div_mod(n as int, d as int);
    assert((q + 1) * d == q * d + d) by (nonlinear_arith);
}

/// `2^k`.
pub open spec fn two_pow(k: nat) -> nat
    decreases k,
{
    if k == 0 {
        1
    } else {
        2 * two_pow((k - 1) as nat)
    }
}

proof fn lemma_ulp_bound(n: nat, k: nat)
    requires
        n < two_pow(k) * exact_f64_limit(),
    ensures
        1 <= f64_ulp(n) <= two_pow(k),
    decreases k,
{
    if n >= exact_f64_limit() {
        if k == 0 {
            assert(false);
        } else {
            assert(two_pow(k) * exact_f64_limit() == 2 * (two_pow((k - 1) as nat) * exact_f64_limit()))
                by (nonlinear_arith)
                requires two_pow(k) == 2 * two_pow((k - 1) as nat);
            lemma_ulp_bound(n / 2, (k - 1) as nat);
        }
    }
}

proof fn lemma_ulp_pos(n: nat)
    ensures
        f64_ulp(n) >= 1,
    decreases n,
{
    if n >= exact_f64_limit() {
        lemma_ulp_pos(n / 2);
    }
}

proof fn lemma_ulp_small(n: nat)
    requires
        n < 0x8000_0000_0000_0000,
    ensures
        1 <= f64_ulp(n) <= 1024,
{
    assert(two_pow(10) == 1024) by {
        reveal_with_fuel(two_pow, 11);
    }
    lemma_ulp_bound(n, 10);
}

/// `n as f64` as an integer, for `n < 2^63`.
pub fn to_f64_value(n: u64) -> (v: u64)
    requires
        n < 0x8000_0000_0000_0000,
    ensures
        v == f64_value(n as nat),
        v <= n + 1024,
{
    let mut ulp: u64 = 1;
    let mut m: u64 = n;
    proof {
        lemma_ulp_small(n as nat);
    }
    while m >= 9007199254740992u64
        invariant
            ulp * f64_ulp(m as nat) == f64_ulp(n as nat),
            m as nat == (n as nat) / (ulp as nat),
            1 <= ulp,
            1 <= f64_ulp(n as nat) <= 1024,
            n < 0x8000_0000_0000_0000,
        decreases m,
    {
        proof {
            vstd::arithmetic::div_mod::lemma_div_denominator(n as int, ulp as int, 2);
            assert(ulp * f64_ulp(m as nat) == ulp * (2 * f64_ulp((m / 2) as nat)));
            assert(ulp * (2 * f64_ulp((m / 2) as nat)) == (ulp * 2) * f64_ulp((m / 2) as nat))
                by (nonlinear_arith);
            lemma_ulp_pos((m / 2) as nat);
            assert((ulp * 2) * f64_ulp((m / 2) as nat) >= ulp * 2) by (nonlinear_arith)
                requires f64_ulp((m / 2) as nat) >= 1, ulp >= 1;
        }
        ulp = ulp * 2;
        m = m / 2;
    }
    proof {
        assert(f64_ulp(m as nat) == 1);
        assert(ulp == f64_ulp(n as nat)) by (nonlinear_arith)
            requires ulp * f64_ulp(m as nat) == f64_ulp(n as nat), f64_ulp(m as nat) == 1;
        lemma_round_bound(n as nat, ulp as nat);
        assert(round_half_even(n as nat, ulp as nat) <= n as nat + 1) by (nonlinear_arith)
            requires round_half_even(n as nat, ulp as nat) <= (n as nat) / (ulp as nat) + 1, ulp >= 1;
    }
    let q = div_round_even(n as u128, ulp as u128);
    assert(ulp == f64_ulp(n as nat));
    assert(q * ulp <= n + ulp);
    assert(q * ulp <= n + 1024);
    (q as u64) * ulp
}

/// `{:.1}` (where `one_decimal`) or `{:.0}` of `mag as f64 / unit as f64`.
pub fn fixed(mag: u64, unit: u64, one_decimal: bool) -> (r: String)
    requires
        mag <= 0x8000_0000_0000_0000,
        unit > 0,
    ensures
        r@ == fixed_text(mag as nat, unit as nat, one_decimal),
{
    let v: u64 = if mag == 0x8000_0000_0000_0000u64 {
        mag_f64_top(mag)
    } else {
        to_f64_value(mag)
    };
    if one_decimal {
        let q = div_round_even((v as u128) * 10, unit as u128);
        proof {
            lemma_round_bound((v as nat) * 10, unit as nat);
            assert((v as nat) * 10 / (unit as nat) <= (v as nat) * 10) by (nonlinear_arith)
                requires unit >= 1;
        }
        let mut r = u128_to_dec(q / 10);
        r.append(".");
        push_char(&mut r, crate::text::digit_char((q % 10) as u64));
        r
    } else {
        let q = div_round_even(v as u128, unit as u128);
        proof {
            lemma_round_bound(v as nat, unit as nat);
            assert((v as nat) / (unit as nat) <= v as nat) by (nonlinear_arith)
                requires unit >= 1;
        }
        u128_to_dec(q)
    }
}

/// `2^63 as f64`, which is exact.
fn mag_f64_top(mag: u64) -> (v: u64)
    requires
        mag == 0x8000_0000_0000_0000,
    ensures
        v == f64_value(mag as nat),
        v == mag,
{
    proof {
        lemma_top_ulp();
    }
    mag
}

proof fn lemma_top_ulp()
    ensures
        f64_value(0x8000_0000_0000_0000) == 0x8000_0000_0000_0000,
{
    assert(f64_ulp(4503599627370496) == 1);
    assert(f64_ulp(9007199254740992) == 2);
    assert(f64_ulp(18014398509481984) == 4);
    assert(f64_ulp(36028797018963968) == 8);
    assert(f64_ulp(72057594037927936) == 16);
    assert(f64_ulp(144115188075855872) == 32);
    assert(f64_ulp(288230376151711744) == 64);
    assert(f64_ulp(576460752303423488) == 128);
    assert(f64_ulp(1152921504606846976) == 256);
    assert(f64_ulp(2305843009213693952) == 512);
    assert(f64_ulp(4611686018427387904) == 1024);
    assert(f64_ulp(9223372036854775808) == 2048);
    assert(round_half_even(9223372036854775808, 2048) == 4503599627370496);
}

/// The human-readable form of a size in bytes, such as `1.5 MiB` or `-12 KiB`.
pub fn format_size(bytes: i64) -> (r: String)
    ensures
        r@ == format_size_spec(bytes),
{
    proof {
        reveal_strlit("");
    }
    if bytes == 0 {
        return cat("0 B", "");
    }
    let abs: i64 = if bytes == i64::MIN {
        i64::MAX
    } else if bytes < 0 {
        -bytes
    } else {
        bytes
    };
    let (unit, suffix) = unit_for(abs);
    let v = to_f64_value(abs as u64);
    let one = (v as u128) < 10 * (unit as u128);
    let mut r = if bytes < 0 { cat("-", "") } else { cat("", "") };
    let body = fixed(abs as u64, unit as u64, one);
    r.append(body.as_str());
    r.append(" ");
    r.append(suffix);
    r
}

/// `format!("{cv:.p$}/{tv:.p$} {suffix}")` where `cv` and `tv` are `done` and
/// `total` in the unit picked for `total`, and `p` is 0 for bytes and 1
/// otherwise.
pub open spec fn transfer_text(done: i64, total: i64) -> Seq<char> {
    let (unit, suffix) = unit_spec(total as int);
    let one = unit != 1;
    signed_fixed_text(done as int, unit as nat, one) + "/"@ + signed_fixed_text(
        total as int,
        unit as nat,
        one,
    ) + " "@ + suffix
}

/// `{:.1}` or `{:.0}` of `n as f64 / unit as f64`.
pub fn signed_fixed(n: i64, unit: u64, one_decimal: bool) -> (r: String)
    requires
        unit > 0,
    ensures
        r@ == signed_fixed_text(n as int, unit as nat, one_decimal),
{
    proof {
        reveal_strlit("");
    }
    if n < 0 {
        let mag: u64 = if n == i64::MIN { 0x8000_0000_0000_0000u64 } else { (-n) as u64 };
        let mut r = cat("-", "");
        r.append(fixed(mag, unit, one_decimal).as_str());
        r
    } else {
        fixed(n as u64, unit, one_decimal)
    }
}

/// Progress of a transfer in the unit of its total.
pub fn transfer_status(done: i64, total: i64) -> (r: String)
    requires
        total >= 1,
    ensures
        r@ == transfer_text(done, total),
{
    let (unit, suffix) = pick_unit(total);
    let one = unit != 1;
    let mut r = signed_fixed(done, unit as u64, one);
    r.append("/");
    r.append(signed_fixed(total, unit as u64, one).as_str());
    r.append(" ");
    r.append(suffix);
    r
}

/// A version in parentheses, in blue.
pub fn formatted_version(v: &str, plain: bool) -> (r: String)
    ensures
        r@ == "("@ + colored(v@, Color::Blue, plain) + ")"@,
{
    let mut r = cat("(", color(v, Color::Blue, plain).as_str());
    r.append(")");
    r
}

} // verus!
