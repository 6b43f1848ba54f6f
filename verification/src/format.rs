//! Short texts for sizes, counts and times.
//!
//! Sizes and counts are shown with one decimal of a quotient in double
//! precision: the quotient is rounded to 53 significant bits, and its decimals to
//! the nearest tenth, ties to even.

use vstd::arithmetic::power2::{lemma_pow2_pos, lemma_pow2_unfold, pow2};
use vstd::prelude::*;
use crate::digits;

verus! {

/// `a / b` rounded to the nearest whole number, ties to even.
pub open spec fn nearest(a: nat, b: nat) -> nat {
    let q = a / b;
    let r = a % b;
    if 2 * r > b || (2 * r == b && q % 2 == 1) {
        q + 1
    } else {
        q
    }
}

/// `a / b` rounded to the nearest whole number, ties to even.
pub fn round_quotient(a: u128, b: u128) -> (r: u128)
    requires
        0 < b < 0x8000_0000_0000_0000_0000_0000_0000_0000,
        a < u128::MAX,
    ensures
        r == nearest(a as nat, b as nat),
        r <= a + 1,
{
    let q: u128 = a / b;
    let rem: u128 = a % b;
    proof {
        assert(q <= a) by (nonlinear_arith)
            requires
                q == a / b,
                b > 0,
        ;
    }
    if 2 * rem > b || (2 * rem == b && q % 2 == 1) {
        q + 1
    } else {
        q
    }
}

/// How often a number has to be halved to fit in 53 bits.
pub open spec fn excess(n: nat) -> nat
    decreases n,
{
    if n < 0x20_0000_0000_0000 {
        0
    } else {
        1 + excess(n / 2)
    }
}

/// The number in double precision: rounded to 53 significant bits, ties to even.
pub open spec fn double(n: nat) -> nat {
    nearest(n, pow2(excess(n))) * pow2(excess(n))
}

fn find_excess(n: u64) -> (r: (u64, u64))
    ensures
        r.0 == excess(n as nat),
        r.0 <= 11,
        r.1 == pow2(r.0 as nat),
        1 <= r.1 <= 2048,
        n as int / r.1 as int <= 0x20_0000_0000_0000,
{
    let mut k: u64 = 0;
    let mut p: u64 = 1;
    let mut m: u64 = n;
    proof {
        vstd::arithmetic::power2::lemma2_to64();
    }
    while m >= 0x20_0000_0000_0000
        invariant
            k <= 11,
            p == pow2(k as nat),
            1 <= p <= 2048,
            m == n as int / p as int,
            excess(n as nat) == k + excess(m as nat),
            m * p <= n,
        decreases m,
    {
        proof {
            lemma_pow2_unfold((k + 1) as nat);
            vstd::arithmetic::power2::lemma2_to64();
            assert(n as int / (p * 2) == (n as int / p as int) / 2) by {
                vstd::arithmetic::div_mod::lemma_div_denominator(n as int, p as int, 2);
            }
            assert(k < 11) by {
                if k == 11 {
                    assert(p == 2048);
                    assert(m * p >= 0x20_0000_0000_0000 * 2048) by (nonlinear_arith)
                        requires
                            m >= 0x20_0000_0000_0000,
                            p == 2048,
                    ;
                }
            }
            assert((m / 2) * (p * 2) <= m * p) by (nonlinear_arith)
                requires
                    m >= 0,
                    p >= 0,
            ;
        }
        m = m / 2;
        p = p * 2;
        k = k + 1;
        proof {
            assert(k == 1 || k == 2 || k == 3 || k == 4 || k == 5 || k == 6 || k == 7 || k == 8 || k
                == 9 || k == 10 || k == 11);
        }
    }
    (k, p)
}

/// A whole number in double precision.
pub fn to_double(n: u64) -> (r: u128)
    ensures
        r == double(n as nat),
        r <= 0x1_0000_0000_0000_0000,
        n > 0 ==> r > 0,
{
    let (_k, p) = find_excess(n);
    let q: u128 = round_quotient(n as u128, p as u128);
    proof {
        let m = n as int / p as int;
        assert(q <= 0x20_0000_0000_0000 + 1) by {
            assert(q <= m + 1);
        }
        assert(q * p <= (0x20_0000_0000_0000 + 1) * 2048) by (nonlinear_arith)
            requires
                0 <= q <= 0x20_0000_0000_0000 + 1,
                0 <= p <= 2048,
        ;
    }
    let r: u128 = q * p as u128;
    proof {
        double_bound(n);
        double_positive(n);
    }
    r
}

/// Numbers of up to 53 bits are exact in double precision.
pub proof fn small_is_exact(n: nat)
    requires
        n < 0x20_0000_0000_0000,
    ensures
        double(n) == n,
{
    vstd::arithmetic::power2::lemma2_to64();
    assert(excess(n) == 0);
    assert(n / 1 == n && n % 1 == 0);
    assert(nearest(n, 1) == n);
}

proof fn double_positive(n: u64)
    ensures
        n > 0 ==> double(n as nat) > 0,
{
    if 0 < n {
        let e = excess(n as nat);
        if n < 0x20_0000_0000_0000 {
            small_is_exact(n as nat);
        } else {
            excess_keeps(n as nat);
            lemma_pow2_pos(e);
            let q = nearest(n as nat, pow2(e));
            assert(q >= n as nat / pow2(e));
            assert(q * pow2(e) > 0) by (nonlinear_arith)
                requires
                    q > 0,
                    pow2(e) > 0,
            ;
        }
    }
}

proof fn excess_keeps(n: nat)
    requires
        n >= 0x10_0000_0000_0000,
    ensures
        n / pow2(excess(n)) >= 0x10_0000_0000_0000,
        n / pow2(excess(n)) < 0x20_0000_0000_0000,
    decreases n,
{
    if n < 0x20_0000_0000_0000 {
        vstd::arithmetic::power2::lemma2_to64();
        assert(n / 1 == n);
    } else {
        excess_keeps(n / 2);
        let e = excess(n / 2);
        lemma_pow2_unfold(e + 1);
        lemma_pow2_pos(e);
        assert(n / (2 * pow2(e)) == (n / 2) / pow2(e)) by {
            vstd::arithmetic::div_mod::lemma_div_denominator(n as int, 2, pow2(e) as int);
        }
    }
}

proof fn double_bound(n: u64)
    ensures
        double(n as nat) <= 0x1_0000_0000_0000_0000,
{
    let e = excess(n as nat);
    vstd::arithmetic::power2::lemma2_to64();
    if n < 0x20_0000_0000_0000 {
        small_is_exact(n as nat);
    } else {
        excess_keeps(n as nat);
        lemma_pow2_pos(e);
        let p = pow2(e);
        let m = n as nat / p;
        assert(e <= 11) by {
            if e > 11 {
                vstd::arithmetic::power2::lemma_pow2_strictly_increases(11, e);
                assert(m * p <= n) by (nonlinear_arith)
                    requires
                        m == n as nat / p,
                        p > 0,
                ;
                assert(m * p > 0x10_0000_0000_0000 * 2048) by (nonlinear_arith)
                    requires
                        m >= 0x10_0000_0000_0000,
                        p > 2048,
                ;
                assert(m * p >= 0x10_0000_0000_0000 * 4096) by {
                    lemma_pow2_unfold(12);
                    if e > 12 {
                        vstd::arithmetic::power2::lemma_pow2_strictly_increases(12, e);
                    }
                    assert(m * p >= 0x10_0000_0000_0000 * 4096) by (nonlinear_arith)
                        requires
                            m >= 0x10_0000_0000_0000,
                            p >= 4096,
                    ;
                }
            }
        }
        assert(p <= 2048) by {
            if e < 11 {
                vstd::arithmetic::power2::lemma_pow2_strictly_increases(e, 11);
            }
        }
        assert((m + 1) * p <= 0x20_0000_0000_0000 * 2048) by (nonlinear_arith)
            requires
                m + 1 <= 0x20_0000_0000_0000,
                p <= 2048,
        ;
        let q = nearest(n as nat, p);
        assert(q * p <= (m + 1) * p) by (nonlinear_arith)
            requires
                q <= m + 1,
        ;
    }
}

/// How often `t` has to be doubled until a `d`-th of it has 53 bits, from `s` on.
pub open spec fn doublings(t: nat, d: nat, s: nat) -> nat
    decreases 128 - s,
{
    if s >= 128 || t * pow2(s) / d >= 0x10_0000_0000_0000 {
        s
    } else {
        doublings(t, d, s + 1)
    }
}

/// `t / d` in double precision, shown in tenths.
pub open spec fn tenths(t: nat, d: nat) -> nat {
    let s = doublings(t, d, 0);
    nearest(10 * nearest(t * pow2(s), d), pow2(s))
}

/// `t / d` in tenths.
pub fn quotient_tenths(t: u128, d: u128) -> (r: u64)
    requires
        1000 <= d <= 1_000_000_000,
        d <= t <= 0x1_0000_0000_0000_0000,
    ensures
        r == tenths(t as nat, d as nat),
{
    let mut x: u128 = t;
    let mut p: u128 = 1;
    let ghost mut s: nat = 0;
    proof {
        vstd::arithmetic::power2::lemma2_to64();
        assert(t * 1 == t);
        assert((t as int / d as int) < 0x80_0000_0000_0000) by (nonlinear_arith)
            requires
                t <= 0x1_0000_0000_0000_0000,
                d >= 1000,
        ;
    }
    while x / d < 0x10_0000_0000_0000
        invariant
            1000 <= d <= 1_000_000_000,
            d <= t <= 0x1_0000_0000_0000_0000,
            s <= 53,
            p == pow2(s),
            x == t * pow2(s),
            1 <= p <= 0x20_0000_0000_0000,
            (x as int / d as int) < 0x80_0000_0000_0000,
            x <= 0x80_0000_0000_0000 * 1_000_000_000,
            doublings(t as nat, d as nat, 0) == doublings(t as nat, d as nat, s),
        decreases 54 - s,
    {
        proof {
            lemma_pow2_unfold(s + 1);
            assert(x < 0x10_0000_0000_0000 * d) by (nonlinear_arith)
                requires
                    (x as int / d as int) < 0x10_0000_0000_0000,
                    d > 0,
            ;
            assert(p < 0x10_0000_0000_0000) by (nonlinear_arith)
                requires
                    t * p < 0x10_0000_0000_0000 * d,
                    d <= t,
                    d > 0,
            ;
            assert(s < 52) by {
                vstd::arithmetic::power2::lemma2_to64();
                vstd::arithmetic::power2::lemma2_to64_rest();
                if s >= 52 {
                    if s > 52 {
                        vstd::arithmetic::power2::lemma_pow2_strictly_increases(52, s);
                    }
                }
            }
            assert(t * (2 * pow2(s)) == 2 * (t * pow2(s))) by (nonlinear_arith);
            assert(((2 * x) as int / d as int) < 0x80_0000_0000_0000) by (nonlinear_arith)
                requires
                    x < 0x10_0000_0000_0000 * d,
                    d > 0,
            ;
            assert(2 * x <= 0x80_0000_0000_0000 * 1_000_000_000) by (nonlinear_arith)
                requires
                    x < 0x10_0000_0000_0000 * d,
                    d <= 1_000_000_000,
            ;
        }
        x = x * 2;
        p = p * 2;
        proof {
            s = s + 1;
        }
    }
    let m: u128 = round_quotient(x, d);
    proof {
        assert(m <= x as int / d as int + 1);
    }
    let r: u128 = round_quotient(10 * m, p);
    r as u64
}

/// A number of tenths with its decimal point.
pub open spec fn tenths_text(n: nat) -> Seq<char> {
    digits::dec(n / 10) + seq!['.', digits::digit((n % 10) as int)]
}

pub(crate) fn push_tenths(out: &mut String, n: u64)
    ensures
        final(out)@ == old(out)@ + tenths_text(n as nat),
{
    digits::push_dec(out, n / 10);
    out.push('.');
    out.push(digits::digit_char(n % 10));
    proof {
        assert(out@ =~= old(out)@ + tenths_text(n as nat));
    }
}

fn tenths_string(n: u64, unit: char) -> (r: String)
    ensures
        r@ == tenths_text(n as nat).push(unit),
{
    let mut out = String::new();
    push_tenths(&mut out, n);
    out.push(unit);
    proof {
        assert(out@ =~= tenths_text(n as nat).push(unit));
    }
    out
}

// ---------------------------------------------------------------------------
// Sizes and counts.
// ---------------------------------------------------------------------------

/// A size in bytes: gigabytes with one decimal, or whole megabytes below one.
pub open spec fn bytes_text(b: nat) -> Seq<char> {
    if double(b) >= 0x4000_0000 {
        tenths_text(nearest(10 * double(b), 0x4000_0000)).push('G')
    } else {
        digits::dec(nearest(double(b), 0x10_0000)).push('M')
    }
}

/// A size in bytes.
pub fn fmt_bytes(b: u64) -> (r: String)
    ensures
        r@ == bytes_text(b as nat),
{
    let d: u128 = to_double(b);
    if d >= 0x4000_0000 {
        let t: u128 = round_quotient(10 * d, 0x4000_0000);
        proof {
            assert(t <= (10 * d) as int / 0x4000_0000 + 1);
        }
        tenths_string(t as u64, 'G')
    } else {
        let m: u128 = round_quotient(d, 0x10_0000);
        proof {
            assert(m <= d as int / 0x10_0000 + 1);
        }
        let mut out = digits::dec_string(m as u64);
        out.push('M');
        out
    }
}

/// A number of tokens: billions, millions or thousands with one decimal.
pub open spec fn tokens_text(t: nat) -> Seq<char> {
    if t >= 1_000_000_000 {
        tenths_text(tenths(double(t), 1_000_000_000)).push('B')
    } else if t >= 1_000_000 {
        tenths_text(tenths(double(t), 1_000_000)).push('M')
    } else if t >= 1_000 {
        tenths_text(tenths(double(t), 1_000)).push('K')
    } else {
        digits::dec(t)
    }
}

proof fn double_keeps_size(t: u64)
    requires
        t >= 1000,
    ensures
        t >= 1_000_000_000 ==> double(t as nat) >= 1_000_000_000,
        t < 1_000_000_000 ==> double(t as nat) == t,
{
    if t < 0x20_0000_0000_0000 {
        small_is_exact(t as nat);
    } else {
        let e = excess(t as nat);
        excess_keeps(t as nat);
        lemma_pow2_pos(e);
        let q = nearest(t as nat, pow2(e));
        assert(q * pow2(e) >= 1_000_000_000) by (nonlinear_arith)
            requires
                q >= 0x10_0000_0000_0000,
                pow2(e) >= 1,
        ;
    }
}

/// A number of tokens.
pub fn fmt_tokens(t: u64) -> (r: String)
    ensures
        r@ == tokens_text(t as nat),
{
    if t < 1_000 {
        return digits::dec_string(t);
    }
    let d: u128 = to_double(t);
    proof {
        double_keeps_size(t);
    }
    if t >= 1_000_000_000 {
        tenths_string(quotient_tenths(d, 1_000_000_000), 'B')
    } else if t >= 1_000_000 {
        tenths_string(quotient_tenths(d, 1_000_000), 'M')
    } else {
        tenths_string(quotient_tenths(d, 1_000), 'K')
    }
}

// ---------------------------------------------------------------------------
// Times.
// ---------------------------------------------------------------------------

/// One second in nanoseconds.
pub const SECOND: u64 = 1_000_000_000;

/// Whole seconds of a time; none before the start.
pub open spec fn seconds(t: int) -> nat {
    if t > 0 {
        (t / SECOND as int) as nat
    } else {
        0
    }
}

/// A playback time in minutes and seconds.
pub open spec fn clock_text(t: int) -> Seq<char> {
    digits::dec(seconds(t) / 60).push(':') + digits::dec2(seconds(t) % 60)
}

/// A playback time in minutes and seconds.
pub fn fmt_clock(t: i64) -> (r: String)
    ensures
        r@ == clock_text(t as int),
{
    let s: u64 = if t > 0 {
        t as u64 / SECOND
    } else {
        0
    };
    let mut out = digits::dec_string(s / 60);
    out.push(':');
    digits::push_dec2(&mut out, s % 60);
    out
}

/// A number and its unit.
pub open spec fn part(n: nat, unit: Seq<char>) -> Seq<char> {
    digits::dec(n) + unit
}

fn push_part(out: &mut String, n: u64, unit: &str)
    ensures
        final(out)@ == old(out)@ + part(n as nat, unit@),
{
    digits::push_dec(out, n);
    out.append(unit);
    proof {
        assert(out@ =~= old(out)@ + part(n as nat, unit@));
    }
}

/// A duration in days, hours and minutes, from the first that is not zero.
pub open spec fn dur_text(secs: nat) -> Seq<char> {
    let d = secs / 86_400;
    let h = secs % 86_400 / 3_600;
    let m = secs % 3_600 / 60;
    if d > 0 {
        part(d, "d "@) + part(h, "h "@) + part(m, "m"@)
    } else if h > 0 {
        part(h, "h "@) + part(m, "m"@)
    } else {
        part(m, "m"@)
    }
}

/// A duration in days, hours and minutes.
pub fn fmt_dur(secs: u64) -> (r: String)
    ensures
        r@ == dur_text(secs as nat),
{
    let d: u64 = secs / 86_400;
    let h: u64 = secs % 86_400 / 3_600;
    let m: u64 = secs % 3_600 / 60;
    let mut out = String::new();
    if d > 0 {
        push_part(&mut out, d, "d ");
        push_part(&mut out, h, "h ");
    } else if h > 0 {
        push_part(&mut out, h, "h ");
    }
    push_part(&mut out, m, "m");
    proof {
        assert(out@ =~= dur_text(secs as nat));
    }
    out
}

/// A number of days in at most six characters.
pub open spec fn days_text(d: nat) -> Seq<char> {
    if d <= 99_999 {
        part(d, "d"@)
    } else {
        "99999d"@
    }
}

/// A duration in at most two parts, for a column of six cells: without the hours where the
/// days leave no room for them, and no longer than all the nines that fit.
pub open spec fn short_dur_text(secs: nat) -> Seq<char> {
    let d = secs / 86_400;
    let h = secs % 86_400 / 3_600;
    let m = secs % 3_600 / 60;
    let s = secs % 60;
    if d >= 1000 || (d >= 100 && h >= 10) {
        days_text(d)
    } else if d > 0 {
        part(d, "d"@) + part(h, "h"@)
    } else if h > 0 {
        part(h, "h"@) + part(m, "m"@)
    } else if m > 0 {
        part(m, "m"@)
    } else {
        part(s, "s"@)
    }
}

/// A duration in at most two parts, and at most six characters.
pub fn fmt_dur_short(secs: u64) -> (r: String)
    ensures
        r@ == short_dur_text(secs as nat),
        r@.len() <= 6,
{
    let d: u64 = secs / 86_400;
    let h: u64 = secs % 86_400 / 3_600;
    let m: u64 = secs % 3_600 / 60;
    let s: u64 = secs % 60;
    let mut out = String::new();
    if d > 99_999 {
        out = "99999d".to_string();
    } else if d >= 1000 || (d >= 100 && h >= 10) {
        push_part(&mut out, d, "d");
    } else if d > 0 {
        push_part(&mut out, d, "d");
        push_part(&mut out, h, "h");
    } else if h > 0 {
        push_part(&mut out, h, "h");
        push_part(&mut out, m, "m");
    } else if m > 0 {
        push_part(&mut out, m, "m");
    } else {
        push_part(&mut out, s, "s");
    }
    proof {
        assert(out@ =~= short_dur_text(secs as nat));
        short_durations_fit(secs as nat);
    }
    out
}

proof fn dec_len(n: nat)
    ensures
        n < 10 ==> digits::dec(n).len() == 1,
        n < 100 ==> digits::dec(n).len() <= 2,
        n < 1000 ==> digits::dec(n).len() <= 3,
        n < 100_000 ==> digits::dec(n).len() <= 5,
{
    reveal_with_fuel(digits::dec, 6);
}

/// A short duration always fits in six cells.
pub proof fn short_durations_fit(secs: nat)
    ensures
        short_dur_text(secs).len() <= 6,
{
    reveal_strlit("d");
    reveal_strlit("h");
    reveal_strlit("m");
    reveal_strlit("s");
    reveal_strlit("99999d");
    dec_len(secs / 86_400);
    dec_len(secs % 86_400 / 3_600);
    dec_len(secs % 3_600 / 60);
    dec_len(secs % 60);
}

/// How long ago something happened, in whole seconds.
pub open spec fn rel_text(s: nat) -> Seq<char> {
    if s < 45 {
        "now"@
    } else if s < 3_600 {
        part(
            if s / 60 >= 1 {
                s / 60
            } else {
                1
            },
            "m"@,
        )
    } else if s < 86_400 {
        part(s / 3_600, "h"@)
    } else if s < 172_800 {
        "yesterday"@
    } else {
        part(s / 86_400, "d"@)
    }
}

/// How long ago something happened: "now", "2m", "1h", "yesterday", "3d".
pub fn fmt_rel(ago: i64) -> (r: String)
    ensures
        r@ == rel_text(seconds(ago as int)),
{
    let s: u64 = if ago > 0 {
        ago as u64 / SECOND
    } else {
        0
    };
    let mut out = String::new();
    if s < 45 {
        return "now".to_string();
    } else if s < 3_600 {
        push_part(
            &mut out,
            if s / 60 >= 1 {
                s / 60
            } else {
                1
            },
            "m",
        );
    } else if s < 86_400 {
        push_part(&mut out, s / 3_600, "h");
    } else if s < 172_800 {
        return "yesterday".to_string();
    } else {
        push_part(&mut out, s / 86_400, "d");
    }
    proof {
        assert(out@ =~= rel_text(seconds(ago as int)));
    }
    out
}

/// The age of a live session: seconds below a minute, then minutes.
pub open spec fn age_text(t: nat) -> Seq<char> {
    if t < SECOND {
        "now"@
    } else if t < 60 * SECOND {
        part(t / SECOND as nat, "s"@)
    } else {
        part(t / (60 * SECOND) as nat, "m"@)
    }
}

/// The age of a live session.
pub fn fmt_age(t: u64) -> (r: String)
    ensures
        r@ == age_text(t as nat),
{
    let mut out = String::new();
    if t < SECOND {
        return "now".to_string();
    } else if t < 60 * SECOND {
        push_part(&mut out, t / SECOND, "s");
    } else {
        push_part(&mut out, t / (60 * SECOND), "m");
    }
    proof {
        assert(out@ =~= age_text(t as nat));
    }
    out
}

// ---------------------------------------------------------------------------
// What the texts say.
// ---------------------------------------------------------------------------

/// Rounding a quotient goes to the nearest whole number: no other is closer, and of two that are
/// as close the even one is taken.
pub proof fn rounding_takes_the_nearest(a: nat, b: nat)
    requires
        b > 0,
    ensures
        ({
            let n = nearest(a, b);
            &&& -(b as int) <= 2 * (a - b * n) <= b
            &&& (2 * (a - b * n) == b || 2 * (a - b * n) == -b) ==> n % 2 == 0
        }),
{
    vstd::arithmetic::div_mod::lemma_fundamental_div_mod(a as int, b as int);
    let q = a / b;
    assert(b * (q + 1) == b * q + b) by (nonlinear_arith);
}

/// A size of a gigabyte or more is shown in gigabytes with one decimal, a smaller one in whole
/// megabytes; what is shown is at most half a unit of its last place off.
pub proof fn sizes_are_close(b: nat, n: nat)
    requires
        b < 0x20_0000_0000_0000,
    ensures
        b >= 0x4000_0000 && -0x2000_0000 < 0x4000_0000 * n - 10 * b < 0x2000_0000 ==> bytes_text(b)
            == digits::dec(n / 10) + seq!['.', digits::digit((n % 10) as int), 'G'],
        b < 0x4000_0000 && -0x8_0000 < 0x10_0000 * n - b < 0x8_0000 ==> bytes_text(b)
            == digits::dec(n) + seq!['M'],
{
    small_is_exact(b);
    if b >= 0x4000_0000 {
        rounding_takes_the_nearest(10 * b, 0x4000_0000);
        if -0x2000_0000 < 0x4000_0000 * n - 10 * b < 0x2000_0000 {
            assert(nearest(10 * b, 0x4000_0000) == n);
            assert(tenths_text(n).push('G') =~= digits::dec(n / 10) + seq![
                '.',
                digits::digit((n % 10) as int),
                'G',
            ]);
        }
    } else {
        rounding_takes_the_nearest(b, 0x10_0000);
        if -0x8_0000 < 0x10_0000 * n - b < 0x8_0000 {
            assert(nearest(b, 0x10_0000) == n);
            assert(digits::dec(n).push('M') =~= digits::dec(n) + seq!['M']);
        }
    }
}

proof fn enough_doublings(t: nat, d: nat, s: nat)
    requires
        1000 <= d <= 1_000_000_000,
        d <= t < 0x20_0000_0000_0000,
        s <= 128,
        s == 0 || t * pow2((s - 1) as nat) / d < 0x10_0000_0000_0000,
    ensures
        doublings(t, d, s) >= 128 || t * pow2(doublings(t, d, s)) / d >= 0x10_0000_0000_0000,
        doublings(t, d, s) <= 128,
    decreases 128 - s,
{
    if s < 128 && t * pow2(s) / d < 0x10_0000_0000_0000 {
        enough_doublings(t, d, s + 1);
    }
}

/// A quotient in tenths is less than a tenth off.
proof fn tenths_are_close(t: nat, d: nat)
    requires
        1000 <= d <= 1_000_000_000,
        d <= t < 0x20_0000_0000_0000,
    ensures
        -(d as int) < d * tenths(t, d) - 10 * t < d,
{
    enough_doublings(t, d, 0);
    let s = doublings(t, d, 0);
    let p = pow2(s);
    vstd::arithmetic::power2::lemma_pow2_pos(s);
    let q = nearest(t * p, d);
    let n = nearest(10 * q, p);
    rounding_takes_the_nearest(t * p, d);
    rounding_takes_the_nearest(10 * q, p);
    assert(p >= 500) by {
        if s >= 128 {
            vstd::arithmetic::power2::lemma_pow2_strictly_increases(10, 128);
            vstd::arithmetic::power2::lemma2_to64();
            if s > 128 {
                vstd::arithmetic::power2::lemma_pow2_strictly_increases(128, s);
            }
        } else {
            vstd::arithmetic::div_mod::lemma_fundamental_div_mod((t * p) as int, d as int);
            assert(t * p >= 0x10_0000_0000_0000 * d) by (nonlinear_arith)
                requires
                    t * p == d * ((t * p) / d) + (t * p) % d,
                    (t * p) / d >= 0x10_0000_0000_0000,
                    (t * p) % d >= 0,
                    d >= 1000,
            ;
            assert(p >= 500) by (nonlinear_arith)
                requires
                    t * p >= 0x10_0000_0000_0000 * d,
                    d >= 1000,
                    t < 0x20_0000_0000_0000,
                    p >= 0,
            ;
        }
    }
    assert(d * (n * p) == (d * n) * p) by (nonlinear_arith);
    assert(-(d as int) < d * n - 10 * t < d) by (nonlinear_arith)
        requires
            -(d as int) <= 2 * (t * p - d * q) <= d,
            -(p as int) <= 2 * (10 * q - p * n) <= p,
            p >= 500,
            d >= 1000,
    ;
}

/// A number of tokens is shown in thousands, millions or billions with one decimal, by its size;
/// what is shown is less than a tenth of the unit off. Below a thousand it is shown in full.
pub proof fn token_counts_are_close(t: nat)
    requires
        t < 0x20_0000_0000_0000,
    ensures
        t < 1_000 ==> tokens_text(t) == digits::dec(t),
        1_000 <= t < 1_000_000 ==> exists|n: nat|
            tokens_text(t) == digits::dec(n / 10) + seq!['.', digits::digit((n % 10) as int), 'K']
                && -1_000 < #[trigger] (1_000 * n) - 10 * t < 1_000,
        1_000_000 <= t < 1_000_000_000 ==> exists|n: nat|
            tokens_text(t) == digits::dec(n / 10) + seq!['.', digits::digit((n % 10) as int), 'M']
                && -1_000_000 < #[trigger] (1_000_000 * n) - 10 * t < 1_000_000,
        1_000_000_000 <= t ==> exists|n: nat|
            tokens_text(t) == digits::dec(n / 10) + seq!['.', digits::digit((n % 10) as int), 'B']
                && -1_000_000_000 < #[trigger] (1_000_000_000 * n) - 10 * t < 1_000_000_000,
{
    small_is_exact(t);
    if t >= 1_000 {
        let (d, unit): (nat, char) = if t >= 1_000_000_000 {
            (1_000_000_000, 'B')
        } else if t >= 1_000_000 {
            (1_000_000, 'M')
        } else {
            (1_000, 'K')
        };
        tenths_are_close(t, d);
        let n = tenths(t, d);
        assert(tenths_text(n).push(unit) =~= digits::dec(n / 10) + seq![
            '.',
            digits::digit((n % 10) as int),
            unit,
        ]);
        assert(1_000 * n == 1_000 * n && 1_000_000 * n == 1_000_000 * n);
    }
}

/// A playback time is shown as its minutes, a colon and its seconds of two digits; the rest of a
/// second is cut off, and what lies before the start is shown as the start.
pub proof fn clocks_show_minutes_and_seconds(minutes: nat, secs: nat, rest: nat)
    requires
        secs < 60,
        rest < 1_000_000_000,
    ensures
        clock_text((60_000_000_000 * minutes + 1_000_000_000 * secs + rest) as int) == digits::dec(minutes)
            + seq![':'] + digits::dec2(secs),
        forall|t: int| t < 0 ==> #[trigger] clock_text(t) == clock_text(0),
{
    let t = (60_000_000_000 * minutes + 1_000_000_000 * secs + rest) as int;
    assert(seconds(t) == 60 * minutes + secs);
    assert(seconds(t) / 60 == minutes && seconds(t) % 60 == secs);
    assert(digits::dec(minutes).push(':') =~= digits::dec(minutes) + seq![':']);
}

/// A duration is shown as the days, hours and minutes that it is made of, from the first that is
/// not zero; the short form shows its two largest parts, or its seconds below a minute.
pub proof fn durations_show_their_parts(days: nat, hours: nat, minutes: nat, secs: nat)
    requires
        hours < 24,
        minutes < 60,
        secs < 60,
    ensures
        ({
            let all = 86_400 * days + 3_600 * hours + 60 * minutes + secs;
            let (d, h, m, s) = (
                digits::dec(days),
                digits::dec(hours),
                digits::dec(minutes),
                digits::dec(secs),
            );
            &&& days > 0 ==> dur_text(all) == (d + "d "@) + (h + "h "@) + (m + "m"@)
            &&& days == 0 && hours > 0 ==> dur_text(all) == (h + "h "@) + (m + "m"@)
            &&& days == 0 && hours == 0 ==> dur_text(all) == m + "m"@
            &&& 0 < days < 100 ==> short_dur_text(all) == (d + "d"@) + (h + "h"@)
            &&& 1_000 <= days <= 99_999 ==> short_dur_text(all) == d + "d"@
            &&& 100 <= days < 1_000 ==> short_dur_text(all) == (if hours < 10 {
                (d + "d"@) + (h + "h"@)
            } else {
                d + "d"@
            })
            &&& days > 99_999 ==> short_dur_text(all) == "99999d"@
            &&& days == 0 && hours > 0 ==> short_dur_text(all) == (h + "h"@) + (m + "m"@)
            &&& days == 0 && hours == 0 && minutes > 0 ==> short_dur_text(all) == m + "m"@
            &&& days == 0 && hours == 0 && minutes == 0 ==> short_dur_text(all) == s + "s"@
        }),
{
    let all = 86_400 * days + 3_600 * hours + 60 * minutes + secs;
    assert(all / 86_400 == days);
    assert(all % 86_400 == 3_600 * hours + 60 * minutes + secs);
    assert(all % 86_400 / 3_600 == hours);
    assert(all % 3_600 == 60 * minutes + secs);
    assert(all % 3_600 / 60 == minutes);
    assert(all % 60 == secs);
}

/// How long ago something was is told in the largest unit that has passed: "now" below
/// forty-five seconds, then minutes and at least one, hours from an hour on, "yesterday" from a
/// day on, and days from two days on.
pub proof fn ages_are_told_in_whole_units(n: nat, rest: nat)
    ensures
        n < 45 ==> rel_text(n) == "now"@,
        45 <= n < 60 ==> rel_text(n) == digits::dec(1) + "m"@,
        1 <= n < 60 && rest < 60 ==> rel_text(60 * n + rest) == digits::dec(n) + "m"@,
        1 <= n < 24 && rest < 3_600 ==> rel_text(3_600 * n + rest) == digits::dec(n) + "h"@,
        rest < 86_400 ==> rel_text(86_400 + rest) == "yesterday"@,
        2 <= n && rest < 86_400 ==> rel_text(86_400 * n + rest) == digits::dec(n) + "d"@,
{
    if rest < 86_400 {
        assert((86_400 * n + rest) / 86_400 == n);
    }
}

/// The age of a session is told in seconds below a minute and in minutes from there on.
pub proof fn session_ages_are_told_in_whole_units(n: nat, rest: nat)
    ensures
        rest < 1_000_000_000 ==> age_text(rest) == "now"@,
        1 <= n < 60 && rest < 1_000_000_000 ==> age_text(1_000_000_000 * n + rest) == digits::dec(n)
            + "s"@,
        1 <= n && rest < 60_000_000_000 ==> age_text(60_000_000_000 * n + rest) == digits::dec(n)
            + "m"@,
{
    if rest < 1_000_000_000 {
        assert((1_000_000_000 * n + rest) / 1_000_000_000 == n);
    }
    if rest < 60_000_000_000 {
        assert((60_000_000_000 * n + rest) / 60_000_000_000 == n);
    }
}

} // verus!
