//! Human-readable sizes and ages for the size and modified columns.
//!
//! Sizes print like `{:.1}` of a 64-bit float: the byte count is first
//! rounded to the nearest double, the unit is picked by that double, and the
//! quotient by the unit is rounded to one decimal, ties to even.  All of it
//! is computed here in integers, exactly.

use vstd::arithmetic::power2::{lemma_pow2_unfold, pow2};
use vstd::prelude::*;

use crate::text::{decimal, digit, digit_char, owned, push_char, push_decimal, push_text};

verus! {

/// A double carries 53 significant bits.
pub const SIGNIFICANT_BITS: u32 = 53;

/// Number of binary digits of `n` (`0` for zero).
pub open spec fn bit_length(n: nat) -> nat
    decreases n,
{
    if n == 0 {
        0
    } else {
        1 + bit_length(n / 2)
    }
}

/// `x / u` rounded to the nearest integer, ties to the even one.
pub open spec fn round_even(x: nat, u: nat) -> nat
    recommends
        u > 0,
{
    let q = x / u;
    let r = x % u;
    if 2 * r > u || (2 * r == u && q % 2 == 1) {
        q + 1
    } else {
        q
    }
}

/// The low bits a double drops from `n`.
pub open spec fn dropped_bits(n: nat) -> nat {
    if bit_length(n) > SIGNIFICANT_BITS {
        (bit_length(n) - SIGNIFICANT_BITS) as nat
    } else {
        0
    }
}

/// `n` converted to the nearest double (ties to even), as an integer.
pub open spec fn nearest_double(n: nat) -> nat {
    round_even(n, pow2(dropped_bits(n))) * pow2(dropped_bits(n))
}

/// One decimal of `t / 10`: the integer part, a point and the tenths digit.
pub open spec fn tenths_text(t: nat) -> Seq<char> {
    decimal(t / 10) + seq!['.', digit_char(t % 10)]
}

/// What `human_size` prints for `n` bytes.
pub open spec fn size_text(n: nat) -> Seq<char> {
    let m = nearest_double(n);
    if n < 1024 {
        decimal(n) + seq![' ', 'B']
    } else if m < 1024 * 1024 {
        tenths_text(round_even(10 * m, 1024)) + seq![' ', 'K', 'B']
    } else if m < 1024 * 1024 * 1024 {
        tenths_text(round_even(10 * m, 1024 * 1024)) + seq![' ', 'M', 'B']
    } else {
        tenths_text(round_even(10 * m, 1024 * 1024 * 1024)) + seq![' ', 'G', 'B']
    }
}

proof fn lemma_bit_length_small(n: nat)
    requires
        n < pow2(SIGNIFICANT_BITS as nat),
    ensures
        bit_length(n) <= SIGNIFICANT_BITS,
{
    lemma_bit_length_below(n, SIGNIFICANT_BITS as nat);
}

proof fn lemma_bit_length_below(n: nat, k: nat)
    requires
        n < pow2(k),
    ensures
        bit_length(n) <= k,
    decreases k,
{
    if n > 0 {
        if k == 0 {
            vstd::arithmetic::power2::lemma2_to64();
        } else {
            lemma_pow2_unfold(k);
            lemma_bit_length_below(n / 2, (k - 1) as nat);
        }
    }
}

/// `bit_length` of `n`, counted by halving.
fn bits_of(n: u64) -> (b: u32)
    ensures
        b as nat == bit_length(n as nat),
        b <= 64,
{
    let mut x = n;
    let mut b: u32 = 0;
    proof {
        lemma_bit_length_u64(n);
    }
    while x > 0
        invariant
            bit_length(n as nat) == b + bit_length(x as nat),
            b + bit_length(x as nat) <= 64,
        decreases x,
    {
        x = x / 2;
        b = b + 1;
    }
    b
}

proof fn lemma_bit_length_u64(n: u64)
    ensures
        bit_length(n as nat) <= 64,
{
    vstd::arithmetic::power2::lemma2_to64();
    lemma_bit_length_below(n as nat, 64);
}

/// `2^k` as a `u128`.
fn power_of_two(k: u32) -> (p: u128)
    requires
        k <= 64,
    ensures
        p as nat == pow2(k as nat),
{
    let mut p: u128 = 1;
    let mut i: u32 = 0;
    proof {
        vstd::arithmetic::power2::lemma2_to64();
    }
    while i < k
        invariant
            i <= k <= 64,
            p as nat == pow2(i as nat),
            p <= 0x1_0000_0000_0000_0000,
        decreases k - i,
    {
        proof {
            lemma_pow2_unfold((i + 1) as nat);
            if i + 1 < 64 {
                vstd::arithmetic::power2::lemma_pow2_strictly_increases((i + 1) as nat, 64);
            }
            vstd::arithmetic::power2::lemma2_to64();
        }
        p = p * 2;
        i = i + 1;
    }
    p
}

/// `round_even(x, u)` for `u > 0`.
fn rounded_quotient(x: u128, u: u128) -> (q: u128)
    requires
        0 < u <= 0x1_0000_0000_0000_0000,
        x < 0xffff_ffff_ffff_ffff_ffff_ffff_ffff_fff0,
    ensures
        q as nat == round_even(x as nat, u as nat),
        q <= x / u + 1,
{
    let q = x / u;
    let r = x % u;
    if 2 * r > u || (2 * r == u && q % 2 == 1) {
        q + 1
    } else {
        q
    }
}

/// `n` rounded to the nearest double, as an integer.
fn double_of(n: u64) -> (m: u128)
    ensures
        m as nat == nearest_double(n as nat),
        m <= n + 2048,
{
    let b = bits_of(n);
    let d: u32 = if b > SIGNIFICANT_BITS {
        b - SIGNIFICANT_BITS
    } else {
        0
    };
    let unit = power_of_two(d);
    proof {
        vstd::arithmetic::power2::lemma_pow2_pos(d as nat);
        vstd::arithmetic::power2::lemma2_to64();
        if d < 11 {
            vstd::arithmetic::power2::lemma_pow2_strictly_increases(d as nat, 11);
        }
    }
    let q = rounded_quotient(n as u128, unit);
    proof {
        vstd::arithmetic::div_mod::lemma_fundamental_div_mod(n as int, unit as int);
        assert((q as int) * (unit as int) <= n as int + unit as int) by (nonlinear_arith)
            requires
                q as int <= n as int / unit as int + 1,
                n as int == unit as int * (n as int / unit as int) + n as int % unit as int,
                0 <= n as int % unit as int,
                unit as int > 0,
        ;
    }
    q * unit
}

/// Appends `t / 10` with one decimal: integer part, point, tenths digit.
fn push_tenths(s: &mut String, t: u64)
    ensures
        final(s)@ == old(s)@ + tenths_text(t as nat),
{
    push_decimal(s, t / 10);
    push_char(s, '.');
    push_char(s, digit(t % 10));
}

/// A byte count for people: `"512 B"`, `"1.5 KB"`, `"3.2 MB"`, `"1.0 GB"`.
///
/// Below 1024 bytes the exact count is printed; otherwise the value in the
/// largest unit below it (KB, MB or GB, powers of 1024) with one decimal.
pub fn human_size(n: u64) -> (s: String)
    ensures
        s@ == size_text(n as nat),
{
    let mut s = String::new();
    if n < 1024 {
        push_decimal(&mut s, n);
        push_text(&mut s, " B");
        proof {
            reveal_strlit(" B");
        }
        return s;
    }
    let m = double_of(n);
    let (scale, suffix): (u128, &str) = if m < 1024 * 1024 {
        (1024, " KB")
    } else if m < 1024 * 1024 * 1024 {
        (1024 * 1024, " MB")
    } else {
        (1024 * 1024 * 1024, " GB")
    };
    let t = rounded_quotient(10 * m, scale);
    assert(t as int <= (10 * m as int) / 1024 + 1) by (nonlinear_arith)
        requires
            t as int <= (10 * m as int) / (scale as int) + 1,
            scale as int >= 1024,
            m as int >= 0,
    ;
    push_tenths(&mut s, t as u64);
    push_text(&mut s, suffix);
    proof {
        reveal_strlit(" KB");
        reveal_strlit(" MB");
        reveal_strlit(" GB");
    }
    s
}

/// `a - b` clamped to the range of `i64`.
pub open spec fn saturating_difference(a: int, b: int) -> int {
    let d = a - b;
    if d > i64::MAX {
        i64::MAX as int
    } else if d < i64::MIN {
        i64::MIN as int
    } else {
        d
    }
}

/// How long ago, for an age of `delta` seconds: `"just now"` under 45 s,
/// `"1 min ago"` under 90 s, whole minutes under an hour, rounded hours
/// under 36 h, rounded days under 14 days, whole days beyond.
pub open spec fn age_words(delta: int) -> Seq<char> {
    if delta < 45 {
        "just now"@
    } else if delta < 90 {
        "1 min ago"@
    } else if delta < 3600 {
        decimal((delta / 60) as nat) + " min ago"@
    } else if delta < 3600 * 36 {
        decimal(((delta + 1800) / 3600) as nat) + " h ago"@
    } else if delta < 86400 * 14 {
        decimal(((delta + 43200) / 86400) as nat) + " days ago"@
    } else {
        decimal((delta / 86400) as nat) + " days ago"@
    }
}

/// The age of a timestamp `secs` seen at time `now` (both Unix seconds).
pub fn human_age(now: i64, secs: i64) -> (s: String)
    ensures
        s@ == age_words(saturating_difference(now as int, secs as int)),
{
    let wide: i128 = now as i128 - secs as i128;
    let delta: i64 = if wide > i64::MAX as i128 {
        i64::MAX
    } else if wide < i64::MIN as i128 {
        i64::MIN
    } else {
        wide as i64
    };
    let mut s = String::new();
    if delta < 45 {
        push_text(&mut s, "just now");
    } else if delta < 90 {
        push_text(&mut s, "1 min ago");
    } else if delta < 3600 {
        push_decimal(&mut s, (delta / 60) as u64);
        push_text(&mut s, " min ago");
    } else if delta < 3600 * 36 {
        push_decimal(&mut s, ((delta + 1800) / 3600) as u64);
        push_text(&mut s, " h ago");
    } else if delta < 86400 * 14 {
        push_decimal(&mut s, ((delta + 43200) / 86400) as u64);
        push_text(&mut s, " days ago");
    } else {
        push_decimal(&mut s, (delta / 86400) as u64);
        push_text(&mut s, " days ago");
    }
    s
}

#[verifier::external_type_specification]
#[verifier::external_body]
pub struct ExSystemTime(std::time::SystemTime);

/// Reads the clock.
///
/// Calls `std::time::SystemTime::now`; nothing is claimed of the result.
#[verifier::external_body]
fn clock() -> (t: std::time::SystemTime) {
    std::time::SystemTime::now()
}

/// Whole seconds from the Unix epoch to `t`, `None` when `t` lies before it.
///
/// Calls `SystemTime::duration_since(UNIX_EPOCH)` and keeps the whole
/// seconds of the `Duration`; nothing is claimed of the value, which
/// depends on a time the library cannot see.
#[verifier::external_body]
fn epoch_seconds(t: &std::time::SystemTime) -> (r: Option<u64>) {
    t.duration_since(std::time::UNIX_EPOCH).ok().map(|d| d.as_secs())
}

/// How long ago the Unix time `secs` was, by the clock (see `human_age`).
///
/// When the clock reads before the epoch, `secs` itself is taken as now.
pub fn human_mtime(secs: i64) -> (s: String)
    ensures
        exists|now: i64| s@ == age_words(saturating_difference(now as int, secs as int)),
{
    let now: i64 = match epoch_seconds(&clock()) {
        Some(d) => d as i64,
        None => secs,
    };
    human_age(now, secs)
}

/// The metadata line of a file: its size text, then `"  ·  "` and its age
/// text when the age is known (not empty).
pub fn meta_line(size: &str, when: &str) -> (s: String)
    ensures
        s@ == if when@.len() == 0 {
            size@
        } else {
            size@ + "  ·  "@ + when@
        },
{
    let mut s = String::new();
    push_text(&mut s, size);
    if !when.is_empty() {
        push_text(&mut s, "  ·  ");
        push_text(&mut s, when);
    }
    s
}

/// The text of the modified column: an em dash for an unknown time (zero or
/// negative), else the age.
pub fn modified_text(modified: i64) -> (s: String)
    ensures
        modified <= 0 ==> s@ == "—"@,
        modified > 0 ==> exists|now: i64| s@ == age_words(saturating_difference(now as int, modified as int)),
{
    if modified <= 0 {
        owned("—")
    } else {
        human_mtime(modified)
    }
}

} // verus!
