//! Storing lyrics and loading them back.

use vstd::prelude::*;
use crate::digits;
use crate::lrc;
use crate::text;

verus! {

/// A text that survives being stored behind a tag: trimmed, on one line, and
/// not to be taken for another tag.
pub open spec fn storable(s: Seq<char>) -> bool {
    &&& text::trimmed(s) == s
    &&& forall|i: int| 0 <= i < s.len() ==> s[i] != '\n'
    &&& lrc::tag_end(s) is None
}

/// Lines that survive being stored.
pub open spec fn all_storable(list: Seq<(int, Seq<char>)>) -> bool {
    forall|i: int|
        0 <= i < list.len() ==> storable((#[trigger] list[i]).1) && -digits::TIME_LIMIT
            <= list[i].0 <= digits::TIME_LIMIT
}

/// The lines with their times rounded to hundredths of a second.
pub open spec fn all_rounded(list: Seq<(int, Seq<char>)>) -> Seq<(int, Seq<char>)> {
    Seq::new(list.len(), |i: int| (lrc::rounded(list[i].0), list[i].1))
}

// ---------------------------------------------------------------------------
// Digits.
// ---------------------------------------------------------------------------

/// A digit is none of the signs that structure a tag.
spec fn tame(c: char) -> bool {
    c != '[' && c != ']' && c != ':' && c != '\n' && c != 'e' && c != 'E' && !text::space(c)
}

spec fn all_tame(s: Seq<char>) -> bool {
    forall|i: int| 0 <= i < s.len() ==> tame(#[trigger] s[i])
}

proof fn digits_are_tame(s: Seq<char>)
    requires
        digits::all_digits(s),
    ensures
        all_tame(s),
        forall|i: int| 0 <= i < s.len() ==> #[trigger] s[i] != '.' && s[i] != '-' && s[i] != '+',
{
    assert forall|i: int| 0 <= i < s.len() implies tame(#[trigger] s[i]) && s[i] != '.' && s[i]
        != '-' && s[i] != '+' by {
        assert(digits::digit_value(s[i]) is Some);
    }
}

proof fn dec2_value(n: nat)
    ensures
        digits::all_digits(digits::dec2(n)),
        digits::value(digits::dec2(n)) == n,
        digits::dec2(n).len() >= 2,
        n < 100 ==> digits::dec2(n).len() == 2,
{
    reveal_with_fuel(digits::value, 3);
    reveal_with_fuel(digits::dec, 3);
    digits::dec_value(n);
    let s = digits::dec2(n);
    if n < 10 {
        assert(s.drop_last() =~= seq!['0']);
        assert(s.drop_last().drop_last() =~= Seq::<char>::empty());
        assert(digits::digit_value(digits::digit(n as int)) == Some(n as int));
        assert(digits::digit_value('0') == Some(0int));
    } else {
        digits::dec_value(n / 10);
    }
}

proof fn value_of_joined(a: Seq<char>, b: Seq<char>)
    requires
        digits::all_digits(a),
        digits::all_digits(b),
    ensures
        digits::all_digits(a + b),
        digits::value(a + b) == digits::value(a) * digits::pow10(b.len()) + digits::value(b),
    decreases b.len(),
{
    assert forall|i: int| 0 <= i < (a + b).len() implies digits::digit_value(
        #[trigger] (a + b)[i],
    ) is Some by {
        if i < a.len() {
            assert((a + b)[i] == a[i]);
        } else {
            assert((a + b)[i] == b[i - a.len()]);
        }
    }
    if b.len() == 0 {
        assert(a + b =~= a);
        assert(digits::value(a) * digits::pow10(0) == digits::value(a)) by (nonlinear_arith)
            requires
                digits::pow10(0) == 1,
        ;
    } else {
        let c = b.drop_last();
        assert((a + b).drop_last() =~= a + c);
        assert((a + b).last() == b.last());
        assert(digits::all_digits(c)) by {
            assert forall|i: int| 0 <= i < c.len() implies digits::digit_value(
                #[trigger] c[i],
            ) is Some by {
                assert(c[i] == b[i]);
            }
        }
        value_of_joined(a, c);
        let x = digits::value(a);
        let p = digits::pow10(c.len());
        assert(digits::pow10(b.len()) == 10 * p);
        assert(digits::digit_value(b[b.len() - 1]) is Some);
        assert((x * p) * 10 == x * (10 * p)) by (nonlinear_arith);
    }
}

proof fn exponent_free(s: Seq<char>, from: int)
    requires
        0 <= from <= s.len(),
        forall|i: int| from <= i < s.len() ==> s[i] != 'e' && s[i] != 'E',
    ensures
        digits::exponent_mark(s, from) == s.len(),
    decreases s.len() - from,
{
    if from < s.len() {
        exponent_free(s, from + 1);
    }
}

proof fn ten_to_nine()
    ensures
        digits::pow10(9) == 1_000_000_000,
        digits::pow10(7) == 10_000_000,
        digits::pow10(2) == 100,
{
    reveal_with_fuel(digits::pow10, 10);
}

/// Whole numbers are read as so many seconds.
proof fn whole_seconds(s: Seq<char>)
    requires
        s.len() > 0,
        digits::all_digits(s),
        digits::value(s) * 1_000_000_000 <= digits::TIME_LIMIT,
    ensures
        digits::unsigned_nanos(s) == Some((digits::value(s) * 1_000_000_000) as int),
        digits::nanos(s) == Some((digits::value(s) * 1_000_000_000) as int),
{
    digits_are_tame(s);
    exponent_free(s, 0);
    text::char_from_is_least(s, '.', 0);
    if text::char_from(s, '.', 0) is Some {
        assert(s[text::char_from(s, '.', 0)->0] == '.');
    }
    assert(s + seq![] =~= s);
    ten_to_nine();
    assert(s[0] != '-' && s[0] != '+');
}

/// Two digits, a point and two digits are read as hundredths of a second.
proof fn seconds_read_back(c: int)
    requires
        0 <= c <= 6000,
    ensures
        digits::nanos(lrc::second_text(c)) == Some(c * 10_000_000),
        all_tame(lrc::second_text(c)),
        lrc::second_text(c).len() == 5,
{
    let a = digits::dec2((c / 100) as nat);
    let b = digits::dec2((c % 100) as nat);
    let s = lrc::second_text(c);
    dec2_value((c / 100) as nat);
    dec2_value((c % 100) as nat);
    digits_are_tame(a);
    digits_are_tame(b);
    assert(s.len() == 5);
    assert(s[0] == a[0] && s[1] == a[1] && s[2] == '.' && s[3] == b[0] && s[4] == b[1]);
    assert(all_tame(s));
    exponent_free(s, 0);
    assert(text::char_from(s, '.', 2) == Some(2int));
    assert(text::char_from(s, '.', 1) == Some(2int));
    assert(text::char_from(s, '.', 0) == Some(2int));
    assert(s.take(2) =~= a);
    assert(s.skip(3) =~= b);
    value_of_joined(a, b);
    ten_to_nine();
    assert(s[0] != '-' && s[0] != '+');
    assert(digits::value(a + b) == c);
}

proof fn minutes_read_back(m: int)
    requires
        -digits::TIME_LIMIT <= m * 1_000_000_000 <= digits::TIME_LIMIT,
    ensures
        digits::nanos(lrc::minute_text(m)) == Some(m * 1_000_000_000),
        all_tame(lrc::minute_text(m)),
        lrc::minute_text(m).len() > 0,
{
    let s = lrc::minute_text(m);
    if m < 0 {
        let d = digits::dec((-m) as nat);
        digits::dec_value((-m) as nat);
        digits_are_tame(d);
        whole_seconds(d);
        assert(s.skip(1) =~= d);
        assert forall|i: int| 0 <= i < s.len() implies tame(#[trigger] s[i]) by {
            if i > 0 {
                assert(s[i] == d[i - 1]);
            }
        }
    } else {
        dec2_value(m as nat);
        digits_are_tame(s);
        whole_seconds(s);
    }
}

// ---------------------------------------------------------------------------
// One line.
// ---------------------------------------------------------------------------

proof fn first_of(a: Seq<char>, c: char, b: Seq<char>, from: int)
    requires
        forall|i: int| 0 <= i < a.len() ==> a[i] != c,
        0 <= from <= a.len(),
    ensures
        text::char_from(a + seq![c] + b, c, from) == Some(a.len() as int),
    decreases a.len() - from,
{
    let s = a + seq![c] + b;
    if from < a.len() {
        assert(s[from] == a[from]);
        first_of(a, c, b, from + 1);
    } else {
        assert(s[from] == c);
    }
}

proof fn rounding_stays_bounded(t: int)
    requires
        -digits::TIME_LIMIT <= t <= digits::TIME_LIMIT,
    ensures
        digits::bounded(lrc::rounded(t)) == lrc::rounded(t),
{
    let m = t / 60_000_000_000;
    let r = t % 60_000_000_000;
    let q = r / 10_000_000;
    let rem = r % 10_000_000;
    let k = m * 6000 + q;
    assert(t == k * 10_000_000 + rem && 0 <= rem < 10_000_000);
    assert(-922_337_203_686 <= k <= 922_337_203_685);
    assert(k == 922_337_203_685 ==> rem < 5_000_000);
    assert(k == -922_337_203_686 ==> rem > 5_000_000);
    let up: int = lrc::hundredths(r) - q;
    assert(up == 0 && rem <= 5_000_000 || up == 1 && rem >= 5_000_000);
    assert(lrc::rounded(t) == (k + up) * 10_000_000);
}

/// Two numbers with a colon between them are read as minutes and seconds.
proof fn parts_read_back(a: Seq<char>, b: Seq<char>, m: int, n: int)
    requires
        all_tame(a),
        all_tame(b),
        a.len() > 0,
        b.len() > 0,
        digits::nanos(a) == Some(m),
        digits::nanos(b) == Some(n),
    ensures
        lrc::stamp(a + seq![':'] + b) == Some(digits::bounded(m * 60 + n)),
        forall|i: int|
            0 <= i < (a + seq![':'] + b).len() ==> #[trigger] (a + seq![':'] + b)[i] != ']' && (a
                + seq![':'] + b)[i] != '\n',
{
    let s = a + seq![':'] + b;
    assert forall|i: int| 0 <= i < a.len() implies a[i] != ':' by {
        assert(tame(a[i]));
    }
    first_of(a, ':', b, 0);
    assert(s.take(a.len() as int) =~= a);
    assert(s.skip(a.len() as int + 1) =~= b);
    assert(tame(a[0]) && tame(a[a.len() - 1]) && tame(b[0]) && tame(b[b.len() - 1]));
    text::trimmed_fixed(a);
    text::trimmed_fixed(b);
    assert forall|i: int| 0 <= i < s.len() implies #[trigger] s[i] != ']' && s[i] != '\n' by {
        if i < a.len() {
            assert(tame(a[i]));
        } else if i > a.len() {
            assert(tame(b[i - a.len() - 1]));
            assert(s[i] == b[i - a.len() - 1]);
        }
    }
}

/// A time is whole minutes and the hundredths of a second behind them.
proof fn rounded_parts(t: int)
    requires
        -digits::TIME_LIMIT <= t <= digits::TIME_LIMIT,
    ensures
        ({
            let m = t / lrc::MINUTE as int;
            let c = lrc::hundredths(t % lrc::MINUTE as int);
            &&& 0 <= c <= 6000
            &&& -digits::TIME_LIMIT <= m * 1_000_000_000 <= digits::TIME_LIMIT
            &&& lrc::rounded(t) == (m * 1_000_000_000) * 60 + c * 10_000_000
        }),
{
}

proof fn stamp_reads_back(t: int)
    requires
        -digits::TIME_LIMIT <= t <= digits::TIME_LIMIT,
    ensures
        lrc::stamp(lrc::stamp_text(t)) == Some(lrc::rounded(t)),
        forall|i: int|
            0 <= i < lrc::stamp_text(t).len() ==> #[trigger] lrc::stamp_text(t)[i] != ']'
                && lrc::stamp_text(t)[i] != '\n',
{
    let m = t / lrc::MINUTE as int;
    let c = lrc::hundredths(t % lrc::MINUTE as int);
    rounded_parts(t);
    minutes_read_back(m);
    seconds_read_back(c);
    rounding_stays_bounded(t);
    parts_read_back(
        lrc::minute_text(m),
        lrc::second_text(c),
        m * 1_000_000_000,
        c * 10_000_000,
    );
}

proof fn line_reads_back(c: (int, Seq<char>))
    requires
        storable(c.1),
        -digits::TIME_LIMIT <= c.0 <= digits::TIME_LIMIT,
    ensures
        lrc::line_cues(lrc::cue_text(c)) == seq![(lrc::rounded(c.0), c.1)],
        forall|i: int| 0 <= i < lrc::cue_text(c).len() ==> lrc::cue_text(c)[i] != '\n',
        text::chomp(lrc::cue_text(c)) == lrc::cue_text(c),
{
    let inside = lrc::stamp_text(c.0);
    let line = lrc::cue_text(c);
    stamp_reads_back(c.0);
    let head = seq!['['] + inside;
    assert forall|i: int| 0 <= i < head.len() implies head[i] != ']' by {
        if i > 0 {
            assert(head[i] == inside[i - 1]);
        }
    }
    first_of(head, ']', c.1, 0);
    assert(line =~= head + seq![']'] + c.1);
    let end = head.len() as int;
    assert(lrc::tag_end(line) == Some(end));
    assert(line.subrange(1, end) =~= inside);
    assert(line.skip(end + 1) =~= c.1);
    reveal_with_fuel(lrc::stamps, 2);
    reveal_with_fuel(lrc::untagged, 2);
    assert(lrc::stamps(line) =~= seq![lrc::rounded(c.0)]);
    assert(lrc::untagged(line) == c.1);
    assert(lrc::line_cues(line) =~= seq![(lrc::rounded(c.0), c.1)]);
    assert forall|i: int| 0 <= i < line.len() implies line[i] != '\n' by {
        if 0 < i < end {
            assert(line[i] == inside[i - 1]);
        } else if i > end {
            assert(line[i] == c.1[i - end - 1]);
        }
    }
    if c.1.len() > 0 {
        assert(line.last() == c.1.last());
        text::trimmed_ends_visible(c.1);
    } else {
        assert(line.last() == ']');
    }
}

// ---------------------------------------------------------------------------
// All lines.
// ---------------------------------------------------------------------------

proof fn rendered_from_front(list: Seq<(int, Seq<char>)>)
    requires
        list.len() > 0,
    ensures
        lrc::rendered(list) == lrc::cue_text(list[0]) + seq!['\n'] + lrc::rendered(
            list.drop_first(),
        ),
    decreases list.len(),
{
    if list.len() == 1 {
        assert(list.drop_last() =~= Seq::<(int, Seq<char>)>::empty());
        assert(list.drop_first() =~= Seq::<(int, Seq<char>)>::empty());
        assert(lrc::rendered(list) =~= lrc::cue_text(list[0]) + seq!['\n'] + lrc::rendered(
            list.drop_first(),
        ));
    } else {
        let front = list.drop_last();
        rendered_from_front(front);
        assert(front.drop_first() =~= list.drop_first().drop_last());
        assert(lrc::rendered(list) =~= lrc::cue_text(list[0]) + seq!['\n'] + (lrc::rendered(
            list.drop_first().drop_last(),
        ) + lrc::cue_text(list.last()) + seq!['\n']));
    }
}

spec fn cue_texts(list: Seq<(int, Seq<char>)>) -> Seq<Seq<char>> {
    Seq::new(list.len(), |i: int| lrc::cue_text(list[i]))
}

proof fn lines_of_rendered(list: Seq<(int, Seq<char>)>)
    requires
        all_storable(list),
    ensures
        text::line_list(lrc::rendered(list)) == cue_texts(list),
    decreases list.len(),
{
    if list.len() == 0 {
        assert(text::line_list(lrc::rendered(list)) =~= cue_texts(list));
    } else {
        rendered_from_front(list);
        assert(storable(list[0].1));
        line_reads_back(list[0]);
        let line = lrc::cue_text(list[0]);
        let rest = lrc::rendered(list.drop_first());
        let whole = line + seq!['\n'] + rest;
        first_of(line, '\n', rest, 0);
        assert(whole.take(line.len() as int) =~= line);
        assert(whole.skip(line.len() as int + 1) =~= rest);
        assert(all_storable(list.drop_first())) by {
            assert forall|i: int| 0 <= i < list.drop_first().len() implies storable(
                (#[trigger] list.drop_first()[i]).1,
            ) && -digits::TIME_LIMIT <= list.drop_first()[i].0 <= digits::TIME_LIMIT by {
                assert(list.drop_first()[i] == list[i + 1]);
            }
        }
        lines_of_rendered(list.drop_first());
        assert(seq![line] + cue_texts(list.drop_first()) =~= cue_texts(list));
    }
}

proof fn cues_of_rendered(list: Seq<(int, Seq<char>)>, n: nat)
    requires
        all_storable(list),
        n <= list.len(),
    ensures
        lrc::all_cues(cue_texts(list).take(n as int)) == all_rounded(list).take(n as int),
    decreases n,
{
    if n == 0 {
        assert(lrc::all_cues(cue_texts(list).take(0)) =~= all_rounded(list).take(0));
    } else {
        cues_of_rendered(list, (n - 1) as nat);
        assert(storable(list[n - 1].1));
        line_reads_back(list[n - 1]);
        let some = cue_texts(list).take(n as int);
        assert(some.drop_last() =~= cue_texts(list).take(n - 1));
        assert(some.last() == lrc::cue_text(list[n - 1]));
        assert(all_rounded(list).take(n as int) =~= all_rounded(list).take(n - 1) + seq![
            (lrc::rounded(list[n - 1].0), list[n - 1].1),
        ]);
    }
}

/// Rounding keeps the order of times.
#[verifier::rlimit(40)]
pub proof fn rounding_keeps_order(t: int, u: int)
    requires
        t <= u,
    ensures
        lrc::rounded(t) <= lrc::rounded(u),
{
}

/// Rounding moves a time by at most half a hundredth of a second.
pub proof fn rounding_is_close(t: int)
    ensures
        -5_000_000 <= lrc::rounded(t) - t <= 5_000_000,
{
}

/// Lyrics that were stored load back: the same lines in the same order, with
/// their times rounded to hundredths of a second.
pub proof fn stored_lyrics_load_back(list: Seq<(int, Seq<char>)>)
    requires
        lrc::ordered(list),
        all_storable(list),
    ensures
        lrc::lrc(lrc::rendered(list)) == all_rounded(list),
        lrc::lrc(
            vstd::utf8::decode_utf8(vstd::utf8::encode_utf8(lrc::rendered(list))),
        ) == all_rounded(list),
{
    lines_of_rendered(list);
    cues_of_rendered(list, list.len());
    assert(cue_texts(list).take(list.len() as int) =~= cue_texts(list));
    assert(all_rounded(list).take(list.len() as int) =~= all_rounded(list));
    assert forall|i: int, j: int|
        0 <= i <= j < list.len() implies all_rounded(list)[i].0 <= all_rounded(list)[j].0 by {
        rounding_keeps_order(list[i].0, list[j].0);
    }
    lrc::by_time_keeps_order(all_rounded(list));
    vstd::utf8::encode_utf8_decode_utf8(lrc::rendered(list));
}

/// Storing once more changes nothing: times that were loaded are already rounded.
pub proof fn rounding_settles(t: int)
    ensures
        lrc::rounded(lrc::rounded(t)) == lrc::rounded(t),
{
}

// ---------------------------------------------------------------------------
// Decimal numbers.
// ---------------------------------------------------------------------------

/// A decimal number of seconds is read exactly: its whole part in seconds, and up to nine
/// decimals below the point; a minus sign before it makes it negative.
pub proof fn decimals_are_read_exactly(whole: Seq<char>, part: Seq<char>)
    requires
        digits::all_digits(whole),
        digits::all_digits(part),
        whole.len() > 0,
        part.len() <= 9,
        digits::value(whole) < 9_000_000_000,
    ensures
        ({
            let n = 1_000_000_000 * digits::value(whole) + digits::value(part) * digits::pow10(
                (9 - part.len()) as nat,
            );
            let s = whole + seq!['.'] + part;
            &&& digits::nanos(s) == Some(n as int)
            &&& digits::nanos(seq!['-'] + s) == Some(-n)
        }),
{
    let s = whole + seq!['.'] + part;
    point_is_read(whole, part);
    decimals_have_their_value(whole, part);
    assert(s[0] == whole[0]);
    assert(digits::digit_value(whole[0]) is Some);
    let m = seq!['-'] + s;
    assert(m.skip(1) =~= s);
}

proof fn point_is_read(whole: Seq<char>, part: Seq<char>)
    requires
        digits::all_digits(whole),
        digits::all_digits(part),
        whole.len() > 0,
        part.len() <= 9,
    ensures
        digits::unsigned_nanos(whole + seq!['.'] + part) == Some(
            digits::capped(digits::shifted(whole + part, 9 - part.len())),
        ),
{
    let s = whole + seq!['.'] + part;
    digits_are_tame(whole);
    digits_are_tame(part);
    assert forall|i: int| 0 <= i < s.len() implies s[i] != 'e' && s[i] != 'E' by {
        if i < whole.len() {
            assert(s[i] == whole[i] && tame(whole[i]));
        } else if i > whole.len() {
            assert(s[i] == part[i - whole.len() - 1] && tame(part[i - whole.len() - 1]));
        }
    }
    exponent_free(s, 0);
    first_of(whole, '.', part, 0);
    assert(s.take(whole.len() as int) =~= whole);
    assert(s.skip(whole.len() as int + 1) =~= part);
    value_of_joined(whole, part);
}

proof fn decimals_have_their_value(whole: Seq<char>, part: Seq<char>)
    requires
        digits::all_digits(whole),
        digits::all_digits(part),
        part.len() <= 9,
        digits::value(whole) < 9_000_000_000,
    ensures
        digits::capped(digits::shifted(whole + part, 9 - part.len())) == 1_000_000_000
            * digits::value(whole) + digits::value(part) * digits::pow10((9 - part.len()) as nat),
{
    value_of_joined(whole, part);
    let v = digits::value(whole);
    let w = digits::value(part);
    let up = digits::pow10(part.len());
    let down = digits::pow10((9 - part.len()) as nat);
    powers_multiply(part.len(), (9 - part.len()) as nat);
    ten_to_nine();
    assert(up * down == 1_000_000_000);
    assert((v * up + w) * down == v * (up * down) + w * down) by (nonlinear_arith);
    value_is_below(part);
    assert(w * down < up * down) by (nonlinear_arith)
        requires
            w < up,
            down > 0,
    ;
}

proof fn powers_multiply(a: nat, b: nat)
    ensures
        digits::pow10(a) * digits::pow10(b) == digits::pow10(a + b),
        digits::pow10(a) > 0,
        digits::pow10(b) > 0,
    decreases a + b,
{
    if a > 0 {
        powers_multiply((a - 1) as nat, b);
        let p = digits::pow10((a - 1) as nat);
        let q = digits::pow10(b);
        assert((10 * p) * q == 10 * (p * q)) by (nonlinear_arith);
        assert((a + b - 1) as nat == (a - 1) as nat + b);
    } else {
        let q = digits::pow10(b);
        assert(digits::pow10(0) == 1);
        assert(1 * q == q);
        if b > 0 {
            powers_multiply(0, (b - 1) as nat);
        }
    }
}

proof fn value_is_below(s: Seq<char>)
    requires
        digits::all_digits(s),
    ensures
        digits::value(s) < digits::pow10(s.len()),
    decreases s.len(),
{
    if s.len() > 0 {
        assert forall|i: int| 0 <= i < s.drop_last().len() implies digits::digit_value(
            #[trigger] s.drop_last()[i],
        ) is Some by {
            assert(s.drop_last()[i] == s[i]);
        }
        value_is_below(s.drop_last());
        assert(digits::digit_value(s[s.len() - 1]) is Some);
    }
}

/// A whole number is read as itself where it is in range, with or without its sign, and nothing
/// is read where a character is no digit.
pub proof fn whole_numbers_are_read_exactly(n: nat, max: int, s: Seq<char>, i: int)
    requires
        0 <= max,
    ensures
        n <= max ==> digits::signed_upto(digits::dec(n), max) == Some(n as int)
            && digits::nat_upto(digits::dec(n), max) == Some(n as int) && digits::unsigned_upto(
            digits::dec(n),
            max,
        ) == Some(n as int),
        n > max ==> digits::signed_upto(digits::dec(n), max) is None && digits::nat_upto(
            digits::dec(n),
            max,
        ) is None,
        n <= max ==> digits::signed_upto(seq!['-'] + digits::dec(n), max) == Some(-n),
        n <= max ==> digits::signed_upto(seq!['+'] + digits::dec(n), max) == Some(n as int),
        0 <= i < s.len() && !('0' <= s[i] && s[i] <= '9') ==> digits::nat_upto(s, max) is None,
        0 < i < s.len() && !('0' <= s[i] && s[i] <= '9') ==> digits::signed_upto(s, max) is None,
        digits::nat_upto(seq![], max) is None,
{
    digits::dec_value(n);
    assert(digits::digit_value(digits::dec(n)[0]) is Some);
    assert((seq!['-'] + digits::dec(n)).skip(1) =~= digits::dec(n));
    assert((seq!['+'] + digits::dec(n)).skip(1) =~= digits::dec(n));
    if 0 <= i < s.len() && !('0' <= s[i] && s[i] <= '9') {
        assert(digits::digit_value(s[i]) is None);
        if 0 < i {
            assert(s.skip(1)[i - 1] == s[i]);
            assert(digits::digit_value(s.skip(1)[i - 1]) is None);
        }
    }
}

/// Decimal notation has no leading zero, and its last digit is the ones.
pub proof fn decimal_notation_is_canonical(n: nat)
    ensures
        n >= 10 ==> digits::dec(n)[0] != '0' && digits::dec(n) == digits::dec(n / 10).push(
            (48 + n % 10) as char,
        ),
        n < 10 ==> digits::dec(n) == seq![(48 + n) as char],
    decreases n,
{
    if n >= 10 {
        decimal_notation_is_canonical(n / 10);
        digits::dec_value(n / 10);
    }
    assert(digits::dec(n) =~= if n < 10 {
        seq![(48 + n) as char]
    } else {
        digits::dec(n / 10).push((48 + n % 10) as char)
    });
}

/// A time half-way between two hundredths of a second goes to the even one.
pub proof fn halves_of_hundredths_go_to_the_even(r: int, q: int)
    requires
        0 <= q,
        r == 10_000_000 * q + 5_000_000,
    ensures
        lrc::hundredths(r) % 2 == 0,
        lrc::hundredths(r) == q || lrc::hundredths(r) == q + 1,
{
}

/// The minutes and the seconds of a tag have two digits at least, and hundredths have two.
pub proof fn tags_have_two_digits_each(m: nat, s: nat, h: nat)
    requires
        s < 60,
        h < 100,
    ensures
        lrc::minute_text(m as int) == digits::dec2(m),
        lrc::second_text((100 * s + h) as int) == digits::dec2(s) + seq!['.'] + digits::dec2(h),
        m < 10 ==> lrc::minute_text(m as int).len() == 2 && lrc::minute_text(m as int)[0] == '0',
{
}

} // verus!
