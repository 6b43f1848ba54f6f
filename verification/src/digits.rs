//! Decimal and hexadecimal notation: rendering and reading whole numbers, and
//! reading decimal times as whole nanoseconds.

use vstd::prelude::*;
use vstd::slice::slice_subrange;
use crate::text;

verus! {

// ---------------------------------------------------------------------------
// Rendering.
// ---------------------------------------------------------------------------

/// The decimal digit of a number below ten.
pub open spec fn digit(d: int) -> char {
    if d == 0 {
        '0'
    } else if d == 1 {
        '1'
    } else if d == 2 {
        '2'
    } else if d == 3 {
        '3'
    } else if d == 4 {
        '4'
    } else if d == 5 {
        '5'
    } else if d == 6 {
        '6'
    } else if d == 7 {
        '7'
    } else if d == 8 {
        '8'
    } else {
        '9'
    }
}

/// The digit of a number below ten.
pub fn digit_char(d: u64) -> (r: char)
    requires
        d < 10,
    ensures
        r == digit(d as int),
{
    if d == 0 {
        '0'
    } else if d == 1 {
        '1'
    } else if d == 2 {
        '2'
    } else if d == 3 {
        '3'
    } else if d == 4 {
        '4'
    } else if d == 5 {
        '5'
    } else if d == 6 {
        '6'
    } else if d == 7 {
        '7'
    } else if d == 8 {
        '8'
    } else {
        '9'
    }
}

/// Decimal notation without leading zeros.
pub open spec fn dec(n: nat) -> Seq<char>
    decreases n,
{
    if n < 10 {
        seq![digit(n as int)]
    } else {
        dec(n / 10).push(digit((n % 10) as int))
    }
}

/// Decimal notation of a signed number.
pub open spec fn dec_int(n: int) -> Seq<char> {
    if n < 0 {
        seq!['-'] + dec((-n) as nat)
    } else {
        dec(n as nat)
    }
}

/// Decimal notation, filled up with zeros to two digits.
pub open spec fn dec2(n: nat) -> Seq<char> {
    if n < 10 {
        seq!['0', digit(n as int)]
    } else {
        dec(n)
    }
}

/// Appends a number in decimal notation.
pub fn push_dec(out: &mut String, n: u64)
    ensures
        final(out)@ == old(out)@ + dec(n as nat),
    decreases n,
{
    if n < 10 {
        out.push(digit_char(n));
        proof {
            assert(out@ =~= old(out)@ + dec(n as nat));
        }
    } else {
        push_dec(out, n / 10);
        out.push(digit_char(n % 10));
        proof {
            assert(out@ =~= old(out)@ + dec(n as nat));
        }
    }
}

/// Appends a number of at least two digits.
pub fn push_dec2(out: &mut String, n: u64)
    ensures
        final(out)@ == old(out)@ + dec2(n as nat),
{
    if n < 10 {
        out.push('0');
        out.push(digit_char(n));
        proof {
            assert(out@ =~= old(out)@ + dec2(n as nat));
        }
    } else {
        push_dec(out, n);
    }
}

/// Appends a signed number.
pub fn push_int(out: &mut String, n: i64)
    ensures
        final(out)@ == old(out)@ + dec_int(n as int),
{
    if n < 0 {
        let m: u64 = if n == i64::MIN {
            0x8000_0000_0000_0000
        } else {
            (-n) as u64
        };
        out.push('-');
        push_dec(out, m);
        proof {
            assert(m == -n);
            assert(out@ =~= old(out)@ + dec_int(n as int));
        }
    } else {
        push_dec(out, n as u64);
    }
}

/// A number in decimal notation.
pub fn dec_string(n: u64) -> (r: String)
    ensures
        r@ == dec(n as nat),
{
    let mut out = String::new();
    push_dec(&mut out, n);
    proof {
        assert(Seq::<char>::empty() + dec(n as nat) =~= dec(n as nat));
    }
    out
}

/// A signed number in decimal notation.
pub fn int_string(n: i64) -> (r: String)
    ensures
        r@ == dec_int(n as int),
{
    let mut out = String::new();
    push_int(&mut out, n);
    proof {
        assert(Seq::<char>::empty() + dec_int(n as int) =~= dec_int(n as int));
    }
    out
}

/// The lowercase hexadecimal digit of a number below sixteen.
pub open spec fn hex_digit(d: int) -> char {
    if d < 10 {
        digit(d)
    } else if d == 10 {
        'a'
    } else if d == 11 {
        'b'
    } else if d == 12 {
        'c'
    } else if d == 13 {
        'd'
    } else if d == 14 {
        'e'
    } else {
        'f'
    }
}

/// The lowest `width` hexadecimal digits, most significant first.
pub open spec fn hex(n: nat, width: nat) -> Seq<char>
    decreases width,
{
    if width == 0 {
        seq![]
    } else {
        hex(n / 16, (width - 1) as nat).push(hex_digit((n % 16) as int))
    }
}

/// A hexadecimal digit.
pub fn hex_char(d: u64) -> (r: char)
    requires
        d < 16,
    ensures
        r == hex_digit(d as int),
{
    if d < 10 {
        digit_char(d)
    } else if d == 10 {
        'a'
    } else if d == 11 {
        'b'
    } else if d == 12 {
        'c'
    } else if d == 13 {
        'd'
    } else if d == 14 {
        'e'
    } else {
        'f'
    }
}

/// Appends the lowest `width` hexadecimal digits.
pub fn push_hex(out: &mut String, n: u64, width: u32)
    ensures
        final(out)@ == old(out)@ + hex(n as nat, width as nat),
    decreases width,
{
    if width == 0 {
        proof {
            assert(out@ =~= old(out)@ + hex(n as nat, 0));
        }
    } else {
        push_hex(out, n / 16, width - 1);
        out.push(hex_char(n % 16));
        proof {
            assert(out@ =~= old(out)@ + hex(n as nat, width as nat));
        }
    }
}

// ---------------------------------------------------------------------------
// Reading.
// ---------------------------------------------------------------------------

/// The value of a decimal digit.
pub open spec fn digit_value(c: char) -> Option<int> {
    if '0' <= c && c <= '9' {
        Some(c as u32 - 48)
    } else {
        None
    }
}

/// The value of a decimal digit.
pub fn value_of_digit(c: char) -> (r: Option<u64>)
    ensures
        r matches Some(d) ==> d < 10 && digit_value(c) == Some(d as int),
        r is None ==> digit_value(c) is None,
{
    let n: u32 = c as u32;
    if 48 <= n && n <= 57 {
        Some((n - 48) as u64)
    } else {
        None
    }
}

/// Every character is a decimal digit.
pub open spec fn all_digits(s: Seq<char>) -> bool {
    forall|i: int| 0 <= i < s.len() ==> digit_value(#[trigger] s[i]) is Some
}

/// The number that a row of digits denotes (zero for an empty row).
pub open spec fn value(s: Seq<char>) -> nat
    decreases s.len(),
{
    if s.len() == 0 {
        0
    } else {
        match digit_value(s.last()) {
            Some(d) => (value(s.drop_last()) * 10 + d) as nat,
            None => 0,
        }
    }
}

/// More digits never denote less.
pub proof fn value_grows(s: Seq<char>, n: int)
    requires
        all_digits(s),
        0 <= n <= s.len(),
    ensures
        value(s.take(n)) <= value(s),
    decreases s.len() - n,
{
    if n < s.len() {
        value_grows(s, n + 1);
        assert(s.take(n + 1).drop_last() =~= s.take(n));
        assert(s.take(n + 1).last() == s[n]);
        assert(digit_value(s[n]) is Some);
    } else {
        assert(s.take(n) =~= s);
    }
}

/// Decimal notation consists of digits and is read back as the number.
pub proof fn dec_value(n: nat)
    ensures
        all_digits(dec(n)),
        value(dec(n)) == n,
        dec(n).len() > 0,
    decreases n,
{
    reveal_with_fuel(value, 2);
    if n < 10 {
        assert(dec(n).drop_last() =~= Seq::<char>::empty());
        assert(digit_value(digit(n as int)) == Some(n as int));
    } else {
        dec_value(n / 10);
        assert(dec(n).drop_last() =~= dec(n / 10));
        assert(digit_value(digit((n % 10) as int)) == Some((n % 10) as int));
        assert(n == (n / 10) * 10 + n % 10);
    }
}

/// Reads a nonempty row of digits whose value is at most `max`.
pub open spec fn nat_upto(s: Seq<char>, max: int) -> Option<int> {
    if s.len() > 0 && all_digits(s) && value(s) <= max {
        Some(value(s) as int)
    } else {
        None
    }
}

/// Reads a row of digits, at most `max`.
pub fn read_digits(s: &[char], max: u64) -> (r: Option<u64>)
    ensures
        r matches Some(v) ==> nat_upto(s@, max as int) == Some(v as int),
        r is None ==> nat_upto(s@, max as int) is None,
{
    if s.len() == 0 {
        return None;
    }
    let mut acc: u64 = 0;
    let mut i: usize = 0;
    proof {
        assert(s@.take(0) =~= Seq::<char>::empty());
    }
    while i < s.len()
        invariant
            i <= s.len(),
            s@.len() > 0,
            acc <= max,
            all_digits(s@.take(i as int)),
            acc == value(s@.take(i as int)),
        decreases s.len() - i,
    {
        proof {
            assert(s@.take(i + 1).drop_last() =~= s@.take(i as int));
            assert(s@.take(i + 1).last() == s@[i as int]);
        }
        match value_of_digit(s[i]) {
            None => {
                proof {
                    assert(!all_digits(s@));
                }
                return None;
            },
            Some(d) => {
                if d > max || acc > (max - d) / 10 {
                    proof {
                        if all_digits(s@) {
                            value_grows(s@, i + 1);
                            assert(value(s@.take(i + 1)) == acc * 10 + d);
                        }
                    }
                    return None;
                }
                acc = acc * 10 + d;
                proof {
                    assert forall|j: int| 0 <= j < i + 1 implies digit_value(
                        #[trigger] s@.take(i + 1)[j],
                    ) is Some by {
                        if j < i {
                            assert(s@.take(i as int)[j] == s@.take(i + 1)[j]);
                        }
                    }
                }
            },
        }
        i += 1;
    }
    proof {
        assert(s@.take(i as int) =~= s@);
    }
    Some(acc)
}

/// Reads an unsigned number: an optional `+`, then digits, at most `max`.
pub open spec fn unsigned_upto(s: Seq<char>, max: int) -> Option<int> {
    if s.len() > 0 && s[0] == '+' {
        nat_upto(s.skip(1), max)
    } else {
        nat_upto(s, max)
    }
}

/// Reads an unsigned number, at most `max`.
pub fn read_unsigned(s: &[char], max: u64) -> (r: Option<u64>)
    ensures
        r matches Some(v) ==> unsigned_upto(s@, max as int) == Some(v as int) && v <= max,
        r is None ==> unsigned_upto(s@, max as int) is None,
{
    if s.len() > 0 && s[0] == '+' {
        proof {
            assert(s@.skip(1) =~= s@.subrange(1, s@.len() as int));
        }
        read_digits(slice_subrange(s, 1, s.len()), max)
    } else {
        read_digits(s, max)
    }
}

/// Reads a signed number: an optional sign, then digits, from `-max - 1` to `max`.
pub open spec fn signed_upto(s: Seq<char>, max: int) -> Option<int> {
    if s.len() > 0 && s[0] == '-' {
        match nat_upto(s.skip(1), max + 1) {
            Some(v) => Some(-v),
            None => None,
        }
    } else {
        unsigned_upto(s, max)
    }
}

/// Reads a signed number between `-max - 1` and `max`.
pub fn read_signed(s: &[char], max: i64) -> (r: Option<i64>)
    requires
        0 <= max,
    ensures
        r matches Some(v) ==> signed_upto(s@, max as int) == Some(v as int) && -max - 1 <= v <= max,
        r is None ==> signed_upto(s@, max as int) is None,
{
    if s.len() > 0 && s[0] == '-' {
        proof {
            assert(s@.skip(1) =~= s@.subrange(1, s@.len() as int));
        }
        match read_digits(slice_subrange(s, 1, s.len()), max as u64 + 1) {
            None => None,
            Some(v) => {
                if v == 0x8000_0000_0000_0000 {
                    Some(i64::MIN)
                } else {
                    Some(-(v as i64))
                }
            },
        }
    } else {
        match read_unsigned(s, max as u64) {
            None => None,
            Some(v) => Some(v as i64),
        }
    }
}

// ---------------------------------------------------------------------------
// Decimal times.
// ---------------------------------------------------------------------------

/// Ten to the power `n`.
pub open spec fn pow10(n: nat) -> nat
    decreases n,
{
    if n == 0 {
        1
    } else {
        10 * pow10((n - 1) as nat)
    }
}

/// The largest time that is kept, in nanoseconds: what a signed number of 64 bits holds.
/// Longer times read as this one.
pub const TIME_LIMIT: u64 = 9_223_372_036_854_775_807;

/// A time cut down to [`TIME_LIMIT`].
pub open spec fn capped(n: nat) -> int {
    if n <= TIME_LIMIT {
        n as int
    } else {
        TIME_LIMIT as int
    }
}

/// A time, before or after the start, cut down to [`TIME_LIMIT`].
pub open spec fn bounded(n: int) -> int {
    if n > TIME_LIMIT {
        TIME_LIMIT as int
    } else if n < -TIME_LIMIT {
        -TIME_LIMIT
    } else {
        n
    }
}

/// Cuts a time down to [`TIME_LIMIT`].
pub fn bound(n: i128) -> (r: i64)
    ensures
        r == bounded(n as int),
        -TIME_LIMIT <= r <= TIME_LIMIT,
{
    if n > 9_223_372_036_854_775_807 {
        9_223_372_036_854_775_807
    } else if n < -9_223_372_036_854_775_807 {
        -9_223_372_036_854_775_807
    } else {
        n as i64
    }
}

/// The whole part of `digits` times ten to the power `shift`.
pub open spec fn shifted(digits: Seq<char>, shift: int) -> nat {
    if shift >= 0 {
        value(digits) * pow10(shift as nat)
    } else if digits.len() + shift <= 0 {
        0
    } else {
        value(digits.take(digits.len() + shift))
    }
}

/// The largest exponent; larger ones read as this one.
pub const EXPONENT_LIMIT: u64 = 9999;

/// The size of the exponent that a row of digits denotes.
pub open spec fn exponent_size(s: Seq<char>) -> Option<int> {
    if s.len() == 0 || !all_digits(s) {
        None
    } else if value(s) <= EXPONENT_LIMIT {
        Some(value(s) as int)
    } else {
        Some(EXPONENT_LIMIT as int)
    }
}

/// The exponent that follows an `e`: an optional sign, then digits.
pub open spec fn exponent(s: Seq<char>) -> Option<int> {
    if s.len() > 0 && s[0] == '-' {
        match exponent_size(s.skip(1)) {
            Some(e) => Some(-e),
            None => None,
        }
    } else if s.len() > 0 && s[0] == '+' {
        exponent_size(s.skip(1))
    } else {
        exponent_size(s)
    }
}

/// The first `e` or `E`, or the length.
pub open spec fn exponent_mark(s: Seq<char>, from: int) -> int
    decreases s.len() - from,
{
    if from < 0 || from >= s.len() {
        s.len() as int
    } else if s[from] == 'e' || s[from] == 'E' {
        from
    } else {
        exponent_mark(s, from + 1)
    }
}

/// An unsigned decimal number of seconds with an exponent already read:
/// digits with at most one point and at least one digit, in nanoseconds.
pub open spec fn mantissa_nanos(s: Seq<char>, exp: int) -> Option<int> {
    let point = text::char_from(s, '.', 0);
    let whole = match point {
        Some(p) => s.take(p),
        None => s,
    };
    let frac = match point {
        Some(p) => s.skip(p + 1),
        None => seq![],
    };
    let digits = whole + frac;
    let n = shifted(digits, 9 + exp - frac.len());
    if digits.len() > 0 && all_digits(digits) {
        Some(capped(n))
    } else {
        None
    }
}

/// An unsigned decimal number of seconds, in nanoseconds: what stands below one
/// nanosecond is cut off.
pub open spec fn unsigned_nanos(s: Seq<char>) -> Option<int> {
    let k = exponent_mark(s, 0);
    if k == s.len() {
        mantissa_nanos(s, 0)
    } else {
        match exponent(s.skip(k + 1)) {
            Some(e) => mantissa_nanos(s.take(k), e),
            None => None,
        }
    }
}

/// A decimal number of seconds with an optional sign, in nanoseconds.
pub open spec fn nanos(s: Seq<char>) -> Option<int> {
    if s.len() > 0 && s[0] == '-' {
        match unsigned_nanos(s.skip(1)) {
            Some(v) => Some(-v),
            None => None,
        }
    } else if s.len() > 0 && s[0] == '+' {
        unsigned_nanos(s.skip(1))
    } else {
        unsigned_nanos(s)
    }
}

proof fn scaling_grows(v: nat, shift: nat, k: nat)
    requires
        k <= shift,
    ensures
        v * pow10(k) <= v * pow10(shift),
        v * pow10(k) * 10 == v * pow10(k + 1),
    decreases shift - k,
{
    assert(pow10(k + 1) == 10 * pow10(k));
    assert(v * pow10(k) * 10 == v * (10 * pow10(k))) by (nonlinear_arith);
    if k < shift {
        scaling_grows(v, shift, k + 1);
        assert(v * pow10(k) <= v * pow10(k + 1)) by (nonlinear_arith)
            requires
                pow10(k + 1) == 10 * pow10(k),
        ;
    }
}

/// Reads the digits of a time, moved by `shift` places.
fn read_shifted(digits: &[char], shift: i128) -> (r: Option<u64>)
    requires
        digits@.len() > 0,
        -0x1_0000_0000_0000_0000_0000 <= shift <= 100_000,
    ensures
        r is Some == all_digits(digits@),
        r matches Some(v) ==> capped(shifted(digits@, shift as int)) == v && v <= TIME_LIMIT,
{
    if !is_digits(digits) {
        return None;
    }
    if shift >= 0 {
        match read_digits(digits, TIME_LIMIT) {
            None => {
                proof {
                    scaling_grows(value(digits@), shift as nat, 0);
                    assert(value(digits@) * pow10(0) == value(digits@)) by (nonlinear_arith)
                        requires
                            pow10(0) == 1,
                    ;
                }
                Some(TIME_LIMIT)
            },
            Some(v0) => {
                let mut v: u64 = v0;
                let mut k: i128 = 0;
                proof {
                    assert(v0 * pow10(0) == v0) by (nonlinear_arith)
                        requires
                            pow10(0) == 1,
                    ;
                }
                while k < shift
                    invariant
                        0 <= k <= shift,
                        v == v0 * pow10(k as nat),
                        v <= TIME_LIMIT,
                        v0 == value(digits@),
                        all_digits(digits@),
                    decreases shift - k,
                {
                    proof {
                        scaling_grows(v0 as nat, shift as nat, k as nat);
                    }
                    if v > TIME_LIMIT / 10 {
                        proof {
                            scaling_grows(v0 as nat, shift as nat, (k + 1) as nat);
                        }
                        return Some(TIME_LIMIT);
                    }
                    v = v * 10;
                    k += 1;
                }
                Some(v)
            },
        }
    } else {
        let n: usize = digits.len();
        let drop: i128 = -shift;
        if drop >= n as i128 {
            Some(0)
        } else {
            let keep: usize = n - drop as usize;
            proof {
                assert(digits@.take(keep as int) =~= digits@.subrange(0, keep as int));
                assert(digits@.len() + shift == keep);
                assert forall|i: int| 0 <= i < keep implies digit_value(
                    #[trigger] digits@.take(keep as int)[i],
                ) is Some by {
                    assert(digits@[i] == digits@.take(keep as int)[i]);
                }
            }
            match read_digits(slice_subrange(digits, 0, keep), TIME_LIMIT) {
                Some(v) => Some(v),
                None => Some(TIME_LIMIT),
            }
        }
    }
}

/// Is every character a digit?
pub fn is_digits(s: &[char]) -> (r: bool)
    ensures
        r == all_digits(s@),
{
    let mut i: usize = 0;
    while i < s.len()
        invariant
            i <= s.len(),
            forall|j: int| 0 <= j < i ==> digit_value(#[trigger] s@[j]) is Some,
        decreases s.len() - i,
    {
        if value_of_digit(s[i]).is_none() {
            return false;
        }
        i += 1;
    }
    true
}

fn read_mantissa(s: &[char], exp: i64) -> (r: Option<u64>)
    requires
        -9_999 <= exp <= 9_999,
    ensures
        r matches Some(v) ==> mantissa_nanos(s@, exp as int) == Some(v as int) && v <= TIME_LIMIT,
        r is None ==> mantissa_nanos(s@, exp as int) is None,
{
    let mut digits: Vec<char> = Vec::new();
    let mut frac_len: usize = 0;
    match text::find_char(s, '.', 0) {
        None => {
            let mut i: usize = 0;
            while i < s.len()
                invariant
                    i <= s.len(),
                    digits@ == s@.take(i as int),
                decreases s.len() - i,
            {
                digits.push(s[i]);
                proof {
                    assert(s@.take(i + 1) =~= s@.take(i as int).push(s@[i as int]));
                }
                i += 1;
            }
            proof {
                assert(s@.take(i as int) + seq![] =~= s@);
                assert(digits@ =~= s@ + Seq::<char>::empty());
            }
        },
        Some(p) => {
            let mut i: usize = 0;
            while i < p
                invariant
                    i <= p <= s.len(),
                    digits@ == s@.take(i as int),
                decreases p - i,
            {
                digits.push(s[i]);
                proof {
                    assert(s@.take(i + 1) =~= s@.take(i as int).push(s@[i as int]));
                }
                i += 1;
            }
            i = p + 1;
            proof {
                assert(s@.take(p as int) + s@.subrange(p + 1, p + 1) =~= s@.take(p as int));
            }
            while i < s.len()
                invariant
                    p < i <= s.len(),
                    digits@ == s@.take(p as int) + s@.subrange(p + 1, i as int),
                decreases s.len() - i,
            {
                digits.push(s[i]);
                proof {
                    assert(s@.take(p as int) + s@.subrange(p + 1, i + 1) =~= (s@.take(p as int)
                        + s@.subrange(p + 1, i as int)).push(s@[i as int]));
                }
                i += 1;
            }
            frac_len = s.len() - (p + 1);
            proof {
                assert(s@.subrange(p + 1, s@.len() as int) =~= s@.skip(p + 1));
            }
        },
    }
    if digits.len() == 0 {
        return None;
    }
    read_shifted(digits.as_slice(), 9 + exp as i128 - frac_len as i128)
}

fn find_exponent(s: &[char]) -> (r: usize)
    ensures
        r == exponent_mark(s@, 0),
        r <= s@.len(),
{
    let mut i: usize = 0;
    while i < s.len()
        invariant
            i <= s.len(),
            exponent_mark(s@, 0) == exponent_mark(s@, i as int),
        decreases s.len() - i,
    {
        if s[i] == 'e' || s[i] == 'E' {
            return i;
        }
        i += 1;
    }
    i
}

fn read_exponent_size(s: &[char]) -> (r: Option<i64>)
    ensures
        r matches Some(e) ==> exponent_size(s@) == Some(e as int) && 0 <= e <= EXPONENT_LIMIT,
        r is None ==> exponent_size(s@) is None,
{
    if s.len() == 0 || !is_digits(s) {
        return None;
    }
    match read_digits(s, EXPONENT_LIMIT) {
        Some(e) => Some(e as i64),
        None => Some(EXPONENT_LIMIT as i64),
    }
}

fn read_exponent(s: &[char]) -> (r: Option<i64>)
    ensures
        r matches Some(e) ==> exponent(s@) == Some(e as int) && -EXPONENT_LIMIT <= e
            <= EXPONENT_LIMIT,
        r is None ==> exponent(s@) is None,
{
    if s.len() > 0 && (s[0] == '-' || s[0] == '+') {
        proof {
            assert(s@.skip(1) =~= s@.subrange(1, s@.len() as int));
        }
        match read_exponent_size(slice_subrange(s, 1, s.len())) {
            None => None,
            Some(e) => if s[0] == '-' {
                Some(-e)
            } else {
                Some(e)
            },
        }
    } else {
        read_exponent_size(s)
    }
}

fn read_unsigned_nanos(s: &[char]) -> (r: Option<u64>)
    ensures
        r matches Some(v) ==> unsigned_nanos(s@) == Some(v as int) && v <= TIME_LIMIT,
        r is None ==> unsigned_nanos(s@) is None,
{
    let k: usize = find_exponent(s);
    if k == s.len() {
        read_mantissa(s, 0)
    } else {
        proof {
            assert(s@.skip(k + 1) =~= s@.subrange(k + 1, s@.len() as int));
            assert(s@.take(k as int) =~= s@.subrange(0, k as int));
        }
        match read_exponent(slice_subrange(s, k + 1, s.len())) {
            None => None,
            Some(e) => read_mantissa(slice_subrange(s, 0, k), e),
        }
    }
}

/// Reads a decimal number of seconds as nanoseconds.
pub fn read_nanos(s: &[char]) -> (r: Option<i64>)
    ensures
        r matches Some(v) ==> nanos(s@) == Some(v as int) && -TIME_LIMIT <= v <= TIME_LIMIT,
        r is None ==> nanos(s@) is None,
{
    if s.len() > 0 && (s[0] == '-' || s[0] == '+') {
        proof {
            assert(s@.skip(1) =~= s@.subrange(1, s@.len() as int));
        }
        match read_unsigned_nanos(slice_subrange(s, 1, s.len())) {
            None => None,
            Some(v) => if s[0] == '-' {
                Some(-(v as i64))
            } else {
                Some(v as i64)
            },
        }
    } else {
        match read_unsigned_nanos(s) {
            None => None,
            Some(v) => Some(v as i64),
        }
    }
}

// ---------------------------------------------------------------------------
// Laws of decimal times.
// ---------------------------------------------------------------------------

proof fn no_mark(s: Seq<char>, from: int)
    requires
        all_digits(s),
        0 <= from <= s.len(),
    ensures
        exponent_mark(s, from) == s.len(),
    decreases s.len() - from,
{
    if from < s.len() {
        assert(digit_value(s[from]) is Some);
        no_mark(s, from + 1);
    }
}

proof fn mark_is(a: Seq<char>, e: char, b: Seq<char>, from: int)
    requires
        all_digits(a),
        e == 'e' || e == 'E',
        0 <= from <= a.len(),
    ensures
        exponent_mark(a + seq![e] + b, from) == a.len(),
    decreases a.len() - from,
{
    let s = a + seq![e] + b;
    if from < a.len() {
        assert(s[from] == a[from]);
        assert(digit_value(a[from]) is Some);
        mark_is(a, e, b, from + 1);
    } else {
        assert(s[from] == e);
    }
}

/// An exponent moves the point: seconds with an exponent are their digits times that power of
/// ten, in either case of the mark, and with a minus in front they are as far before the start.
pub proof fn exponents_move_the_point(m: Seq<char>, e: char, k: nat)
    requires
        m.len() > 0,
        all_digits(m),
        e == 'e' || e == 'E',
        k <= 9,
        value(m) * pow10(9 + k) <= TIME_LIMIT,
    ensures
        nanos(m + seq![e] + dec(k)) == Some((value(m) * pow10(9 + k)) as int),
        nanos(m + seq![e] + (seq!['+'] + dec(k))) == Some((value(m) * pow10(9 + k)) as int),
        nanos(m + seq![e] + (seq!['-'] + dec(k))) == Some(
            (value(m) * pow10((9 - k) as nat)) as int,
        ),
        nanos(m) == Some((value(m) * pow10(9)) as int),
        nanos(seq!['-'] + m) == Some(-(value(m) * pow10(9))),
        nanos(seq!['+'] + m) == nanos(m),
{
    dec_value(k);
    let d = dec(k);
    assert(digit_value(m[0]) is Some);
    assert(digit_value(d[0]) is Some);
    no_mark(m, 0);
    text::char_from_is_least(m, '.', 0);
    if text::char_from(m, '.', 0) is Some {
        assert(digit_value(m[text::char_from(m, '.', 0)->0]) is Some);
    }
    assert(m + Seq::<char>::empty() =~= m);
    powers_grow((9 - k) as nat, 9 + k, value(m));
    powers_grow(9, 9 + k, value(m));
    mark_is(m, e, d, 0);
    mark_is(m, e, seq!['+'] + d, 0);
    mark_is(m, e, seq!['-'] + d, 0);
    let a = m + seq![e] + d;
    let b = m + seq![e] + (seq!['+'] + d);
    let c = m + seq![e] + (seq!['-'] + d);
    assert(a.take(m.len() as int) =~= m && a.skip(m.len() + 1int) =~= d);
    assert(b.take(m.len() as int) =~= m && b.skip(m.len() + 1int) =~= seq!['+'] + d);
    assert(c.take(m.len() as int) =~= m && c.skip(m.len() + 1int) =~= seq!['-'] + d);
    assert((seq!['+'] + d).skip(1) =~= d && (seq!['-'] + d).skip(1) =~= d);
    assert((seq!['+'] + m).skip(1) =~= m && (seq!['-'] + m).skip(1) =~= m);
    assert(a[0] == m[0] && b[0] == m[0] && c[0] == m[0]);
}

proof fn powers_grow(a: nat, b: nat, v: nat)
    requires
        a <= b,
    ensures
        v * pow10(a) <= v * pow10(b),
    decreases b - a,
{
    if a < b {
        powers_grow(a, (b - 1) as nat, v);
        let p = pow10((b - 1) as nat);
        assert(v * p <= v * (10 * p)) by (nonlinear_arith)
            requires
                v >= 0,
                p >= 0,
        ;
    }
}

/// A number has as many hexadecimal digits as asked for, the last one by its rest by sixteen, and
/// the digits are those of both kinds in order.
pub proof fn hexadecimal_digits_are_in_order(n: nat, width: nat)
    ensures
        hex(n, width).len() == width,
        width > 0 ==> hex(n, width).last() == hex_digit((n % 16) as int) && hex(
            n,
            width,
        ).drop_last() == hex(n / 16, (width - 1) as nat),
        hex_digit(0) == '0' && hex_digit(9) == '9' && hex_digit(10) == 'a' && hex_digit(15) == 'f',
        forall|i: int, j: int|
            0 <= i < j < 16 ==> #[trigger] hex_digit(i) != #[trigger] hex_digit(j),
    decreases width,
{
    if width > 0 {
        hexadecimal_digits_are_in_order(n / 16, (width - 1) as nat);
        assert(hex(n, width).drop_last() =~= hex(n / 16, (width - 1) as nat));
    }
}

} // verus!
