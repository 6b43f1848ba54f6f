//! Fitting text into columns of terminal cells.

use unicode_width::{UnicodeWidthChar, UnicodeWidthStr};
use vstd::prelude::*;
use vstd::slice::slice_subrange;
use crate::digits;
use crate::text;

verus! {

/// What [`dwidth`] returns: the cells that a text takes.
pub uninterp spec fn cells(s: Seq<char>) -> nat;

/// What [`char_width`] returns: the cells that a character takes.
pub uninterp spec fn char_cells(c: char) -> Option<nat>;

/// Printable ASCII characters only.
pub open spec fn printable_ascii(s: Seq<char>) -> bool {
    forall|i: int| 0 <= i < s.len() ==> ' ' <= #[trigger] s[i] && s[i] <= '~'
}

/// Calls `UnicodeWidthStr::width`, which counts the terminal cells of a text.
/// The count is named by [`cells`]; printable ASCII takes one cell each.
#[verifier::external_body]
pub(crate) fn dwidth(s: &str) -> (r: usize)
    ensures
        r == cells(s@),
        printable_ascii(s@) ==> r == s@.len(),
{
    UnicodeWidthStr::width(s)
}

/// Calls `UnicodeWidthChar::width`, which counts the terminal cells of a
/// character. The count is named by [`char_cells`]; printable ASCII takes one
/// cell, and so does the ellipsis.
#[verifier::external_body]
pub(crate) fn char_width(c: char) -> (r: Option<usize>)
    ensures
        r matches Some(n) ==> char_cells(c) == Some(n as nat),
        r is None ==> char_cells(c) is None,
        ' ' <= c && c <= '~' || c == '…' ==> r == Some(1usize),
{
    UnicodeWidthChar::width(c)
}

/// The cells of a character; control characters count nothing.
pub open spec fn width_of(c: char) -> nat {
    match char_cells(c) {
        Some(n) => n,
        None => 0,
    }
}

/// The cells of characters one by one.
pub open spec fn total_width(s: Seq<char>) -> nat
    decreases s.len(),
{
    if s.len() == 0 {
        0
    } else {
        total_width(s.drop_last()) + width_of(s.last())
    }
}

/// How many of the first characters, from `n` on, fit in `limit` cells.
pub open spec fn fitting(s: Seq<char>, limit: nat, n: int) -> int
    decreases s.len() - n,
{
    if n < 0 || n >= s.len() || total_width(s.take(n + 1)) > limit {
        n
    } else {
        fitting(s, limit, n + 1)
    }
}

/// Text cut to `max` cells: as it is where it fits, else as many characters as
/// fit before an ellipsis. No cell holds no text.
pub open spec fn fitted(s: Seq<char>, max: nat) -> Seq<char> {
    if cells(s) <= max {
        s
    } else if max == 0 {
        seq![]
    } else {
        s.take(fitting(s, (max - 1) as nat, 0)).push('…')
    }
}

/// The cells of a character.
fn cell_count(c: char) -> (r: usize)
    ensures
        r == width_of(c),
        ' ' <= c && c <= '~' || c == '…' ==> r == 1,
{
    match char_width(c) {
        Some(n) => n,
        None => 0,
    }
}

/// Cuts text to a width of `max` cells, with an ellipsis if anything is cut.
pub fn fit_width(s: &str, max: usize) -> (r: String)
    ensures
        r@ == fitted(s@, max as nat),
        cells(s@) > max ==> total_width(r@) <= max,
{
    if dwidth(s) <= max {
        return s.to_string();
    }
    if max == 0 {
        let none = String::new();
        proof {
            assert(none@ =~= seq![]);
        }
        return none;
    }
    let limit: usize = max - cell_count('…');
    let v = text::chars_of(s);
    let mut w: usize = 0;
    let mut n: usize = 0;
    proof {
        assert(s@.take(0) =~= Seq::<char>::empty());
    }
    while n < v.len()
        invariant_except_break
            n <= v@.len(),
            v@ == s@,
            w == total_width(s@.take(n as int)),
            w <= limit,
            fitting(s@, limit as nat, 0) == fitting(s@, limit as nat, n as int),
        ensures
            n <= v@.len(),
            v@ == s@,
            n == fitting(s@, limit as nat, 0),
            total_width(s@.take(n as int)) <= limit,
        decreases v@.len() - n,
    {
        let cw: usize = cell_count(v[n]);
        proof {
            assert(s@.take(n + 1).drop_last() =~= s@.take(n as int));
        }
        if cw > limit - w {
            break;
        }
        w = w + cw;
        n += 1;
    }
    let mut out = text::string_of(slice_subrange(v.as_slice(), 0, n));
    proof {
        assert(s@.take(n as int) =~= v@.subrange(0, n as int));
    }
    out.push('…');
    proof {
        assert(out@.drop_last() =~= s@.take(n as int));
    }
    out
}

/// Text cut to `width` cells and filled up with spaces.
pub open spec fn padded(s: Seq<char>, width: nat) -> Seq<char> {
    let t = fitted(s, width);
    if cells(t) < width {
        t + text::repeated(' ', width - cells(t))
    } else {
        t
    }
}

/// The cells of a text are those of its characters.
pub open spec fn adds_up(s: Seq<char>) -> bool {
    cells(s) == total_width(s)
}

/// Cuts text to `width` cells and fills it up with spaces: where the cells of texts are those
/// of their characters, it takes exactly `width` cells.
pub fn pad_width(s: &str, width: usize) -> (r: String)
    ensures
        r@ == padded(s@, width as nat),
        cells(s@) <= width ==> r@ == s@ + text::repeated(' ', width - cells(s@)),
        adds_up(s@) && adds_up(fitted(s@, width as nat)) && adds_up(r@) ==> cells(r@) == width,
{
    let mut t = fit_width(s, width);
    let ghost cut = t@;
    let w: usize = dwidth(t.as_str());
    let mut filled: usize = w;
    proof {
        assert(cut + text::repeated(' ', 0) =~= cut);
    }
    while filled < width
        invariant
            w <= filled,
            filled <= width || filled == w,
            t@ == cut + text::repeated(' ', filled - w),
            total_width(t@) == total_width(cut) + (filled - w),
        decreases width - filled,
    {
        let ghost before = t@;
        t.push(' ');
        filled = filled + cell_count(' ');
        proof {
            assert(t@.drop_last() =~= before);
            assert(t@ =~= cut + text::repeated(' ', filled - w));
        }
    }
    proof {
        assert(s@ + text::repeated(' ', 0) =~= s@);
    }
    t
}

/// The characters of cut text never take more cells than the ellipsis leaves.
pub proof fn cut_text_leaves_room(s: Seq<char>, max: nat)
    requires
        cells(s) > max,
        max > 0,
    ensures
        ({
            let t = fitted(s, max);
            t.last() == '…' && total_width(t.drop_last()) <= max - 1
        }),
{
    let limit = (max - 1) as nat;
    assert(s.take(0) =~= Seq::<char>::empty());
    fitting_fits(s, limit, 0);
    let k = fitting(s, limit, 0);
    assert(fitted(s, max).drop_last() =~= s.take(k));
}

proof fn fitting_fits(s: Seq<char>, limit: nat, n: int)
    requires
        0 <= n <= s.len(),
        total_width(s.take(n)) <= limit,
    ensures
        n <= fitting(s, limit, n) <= s.len(),
        total_width(s.take(fitting(s, limit, n))) <= limit,
    decreases s.len() - n,
{
    if n < s.len() && total_width(s.take(n + 1)) <= limit {
        fitting_fits(s, limit, n + 1);
    }
}

/// Text that fits is not changed.
pub proof fn fitting_text_is_kept(s: Seq<char>, max: nat)
    requires
        cells(s) <= max,
    ensures
        fitted(s, max) == s,
{
}

// ---------------------------------------------------------------------------
// By characters.
// ---------------------------------------------------------------------------

/// Text cut to `max` characters, the last of them an ellipsis if anything is cut.
pub open spec fn truncated(s: Seq<char>, max: nat) -> Seq<char> {
    if s.len() <= max {
        s
    } else {
        s.take(
            if max > 0 {
                max - 1
            } else {
                0
            },
        ).push('…')
    }
}

/// Cuts text to `max` characters.
pub fn truncate(s: &str, max: usize) -> (r: String)
    ensures
        r@ == truncated(s@, max as nat),
{
    let v = text::chars_of(s);
    if v.len() <= max {
        return s.to_string();
    }
    let n: usize = if max > 0 {
        max - 1
    } else {
        0
    };
    let mut out = text::string_of(slice_subrange(v.as_slice(), 0, n));
    proof {
        assert(s@.take(n as int) =~= v@.subrange(0, n as int));
    }
    out.push('…');
    out
}

/// Cut text has at most `max` characters.
pub proof fn truncated_text_fits(s: Seq<char>, max: nat)
    requires
        max > 0,
    ensures
        truncated(s, max).len() <= max,
{
}

/// Text filled up on the left to `width` characters.
pub open spec fn right_aligned(s: Seq<char>, width: nat) -> Seq<char> {
    if s.len() < width {
        text::repeated(' ', width - s.len()) + s
    } else {
        s
    }
}

/// Fills text up on the left to `width` characters.
pub fn align_right(s: &str, width: usize) -> (r: String)
    ensures
        r@ == right_aligned(s@, width as nat),
{
    let v = text::chars_of(s);
    if v.len() < width {
        let mut out = text::repeat(' ', width - v.len());
        out.append(s);
        out
    } else {
        s.to_string()
    }
}

// ---------------------------------------------------------------------------
// Lists of names.
// ---------------------------------------------------------------------------

/// The first `take` names and how many more there are.
pub open spec fn some_members(list: Seq<Seq<char>>, take: int) -> Seq<char> {
    text::joined(list.take(take), ", "@) + " +"@ + digits::dec((list.len() - take) as nat)
}

/// The longest of the first `take` names and fewer, with the rest counted, that
/// fits in `max` cells.
pub open spec fn most_members(list: Seq<Seq<char>>, max: nat, take: int) -> Option<Seq<char>>
    decreases take,
{
    if take < 1 {
        None
    } else if cells(some_members(list, take)) <= max {
        Some(some_members(list, take))
    } else {
        most_members(list, max, take - 1)
    }
}

/// Names in `max` cells: all of them, or as many as fit and how many more there are.
pub open spec fn fitted_members(list: Seq<Seq<char>>, max: nat) -> Seq<char> {
    if list.len() == 0 {
        seq![]
    } else if cells(text::joined(list, ", "@)) <= max {
        text::joined(list, ", "@)
    } else {
        match most_members(list, max, list.len() - 1) {
            Some(s) => s,
            None => fitted(list[0] + " +"@ + digits::dec((list.len() - 1) as nat), max),
        }
    }
}

/// Lays names out in `max` cells, with "+N" for those that do not fit.
pub fn fit_members(members: &Vec<String>, max: usize) -> (r: String)
    ensures
        r@ == fitted_members(text::texts(members@), max as nat),
{
    let n: usize = members.len();
    let ghost list = text::texts(members@);
    if n == 0 {
        return String::new();
    }
    let full = text::join_strings(members, n, ", ");
    proof {
        assert(list.take(n as int) =~= list);
    }
    if dwidth(full.as_str()) <= max {
        return full;
    }
    let mut take: usize = n - 1;
    while take > 0
        invariant
            take <= n - 1,
            n == members@.len(),
            list == text::texts(members@),
            list.len() > 0,
            cells(text::joined(list, ", "@)) > max,
            most_members(list, max as nat, list.len() - 1) == most_members(
                list,
                max as nat,
                take as int,
            ),
        decreases take,
    {
        let mut s = text::join_strings(members, take, ", ");
        s.append(" +");
        digits::push_dec(&mut s, (n - take) as u64);
        proof {
            assert(s@ =~= some_members(list, take as int));
        }
        if dwidth(s.as_str()) <= max {
            return s;
        }
        take -= 1;
    }
    let mut s = text::concat2(members[0].as_str(), " +");
    digits::push_dec(&mut s, (n - 1) as u64);
    fit_width(s.as_str(), max)
}

// ---------------------------------------------------------------------------
// Wrapping.
// ---------------------------------------------------------------------------

/// The full pieces of a word that is too long, and what is left of it.
pub open spec fn hard_split(word: Seq<char>, width: nat) -> (Seq<Seq<char>>, Seq<char>)
    decreases word.len(),
{
    if width == 0 || word.len() <= width {
        (seq![], word)
    } else {
        let (pieces, rest) = hard_split(word.skip(width as int), width);
        (seq![word.take(width as int)] + pieces, rest)
    }
}

/// Finished lines and the line being filled, after one more word.
pub open spec fn word_added(done: Seq<Seq<char>>, line: Seq<char>, word: Seq<char>, width: nat) -> (
    Seq<Seq<char>>,
    Seq<char>,
) {
    if word.len() > width {
        let flushed = if line.len() > 0 {
            done.push(line)
        } else {
            done
        };
        let (pieces, rest) = hard_split(word, width);
        (flushed + pieces, rest)
    } else if line.len() == 0 {
        (done, word)
    } else if line.len() + 1 + word.len() > width {
        (done.push(line), word)
    } else {
        (done, line.push(' ') + word)
    }
}

/// Finished lines and the line being filled, after the first words.
pub open spec fn filled(words: Seq<Seq<char>>, width: nat) -> (Seq<Seq<char>>, Seq<char>)
    decreases words.len(),
{
    if words.len() == 0 {
        (seq![], seq![])
    } else {
        let (done, line) = filled(words.drop_last(), width);
        word_added(done, line, words.last(), width)
    }
}

/// Words in lines of at most `width` characters, each line as full as it can be;
/// a word that is longer than a line is split.
pub open spec fn wrapped_words(words: Seq<Seq<char>>, width: nat) -> Seq<Seq<char>> {
    let (done, line) = filled(words, width);
    if line.len() > 0 {
        done.push(line)
    } else {
        done
    }
}

/// A width of at least one.
pub open spec fn at_least_one(width: nat) -> nat {
    if width > 0 {
        width
    } else {
        1
    }
}

/// Text wrapped to lines of at most `width` characters.
pub open spec fn wrapped(s: Seq<char>, width: nat) -> Seq<Seq<char>> {
    wrapped_words(text::word_list(s), at_least_one(width))
}

fn push_pieces(out: &mut Vec<String>, word: &[char], width: usize) -> (r: usize)
    requires
        width > 0,
    ensures
        text::texts(final(out)@) == text::texts(old(out)@) + hard_split(word@, width as nat).0,
        r <= word@.len(),
        word@.skip(r as int) == hard_split(word@, width as nat).1,
{
    let n: usize = word.len();
    let mut at: usize = 0;
    let ghost all = hard_split(word@, width as nat);
    proof {
        assert(word@.skip(0) =~= word@);
        assert(text::texts(out@) + all.0 =~= text::texts(old(out)@) + all.0);
    }
    while n - at > width
        invariant
            at <= n == word@.len(),
            width > 0,
            text::texts(old(out)@) + all.0 == text::texts(out@) + hard_split(
                word@.skip(at as int),
                width as nat,
            ).0,
            all.1 == hard_split(word@.skip(at as int), width as nat).1,
        decreases n - at,
    {
        let ghost rest = word@.skip(at as int);
        let ghost before = text::texts(out@);
        out.push(text::string_of(slice_subrange(word, at, at + width)));
        proof {
            assert(rest.take(width as int) =~= word@.subrange(at as int, at + width));
            assert(rest.skip(width as int) =~= word@.skip(at + width));
            assert(text::texts(out@) =~= before.push(rest.take(width as int)));
            let tail = hard_split(word@.skip(at + width), width as nat).0;
            assert(before + (seq![rest.take(width as int)] + tail) =~= text::texts(out@) + tail);
        }
        at += width;
    }
    proof {
        assert(text::texts(out@) + hard_split(word@.skip(at as int), width as nat).0
            =~= text::texts(out@));
    }
    at
}

/// Wraps text to lines of at most `width` characters.
pub fn wrap_text(s: &str, width: usize) -> (r: Vec<String>)
    ensures
        text::texts(r@) == wrapped(s@, width as nat),
{
    let width: usize = if width > 0 {
        width
    } else {
        1
    };
    let v = text::chars_of(s);
    let words = text::words(v.as_slice());
    let ghost list = text::word_list(s@);
    let mut out: Vec<String> = Vec::new();
    let mut line: Vec<char> = Vec::new();
    let mut i: usize = 0;
    proof {
        assert(text::texts(out@) =~= filled(list.take(0), width as nat).0);
        assert(line@ =~= filled(list.take(0), width as nat).1);
    }
    while i < words.len()
        invariant
            i <= words@.len(),
            width > 0,
            list == text::views(words@),
            (text::texts(out@), line@) == filled(list.take(i as int), width as nat),
            line@.len() <= width,
        decreases words@.len() - i,
    {
        let word: &[char] = words[i];
        let ghost before = text::texts(out@);
        let ghost held = line@;
        proof {
            assert(list.take(i + 1).drop_last() =~= list.take(i as int));
            assert(list.take(i + 1).last() == word@);
        }
        if word.len() > width {
            if line.len() > 0 {
                out.push(text::string_of(line.as_slice()));
                proof {
                    assert(text::texts(out@) =~= before.push(held));
                }
            }
            let at: usize = push_pieces(&mut out, word, width);
            line = copy(slice_subrange(word, at, word.len()));
            proof {
                assert(word@.subrange(at as int, word@.len() as int) =~= word@.skip(at as int));
                rest_is_short(word@, width as nat);
            }
        } else if line.len() == 0 {
            line = copy(word);
        } else if word.len() > width - line.len() || word.len() == width - line.len() {
            out.push(text::string_of(line.as_slice()));
            proof {
                assert(text::texts(out@) =~= before.push(held));
            }
            line = copy(word);
        } else {
            line.push(' ');
            push_all(&mut line, word);
        }
        i += 1;
    }
    proof {
        assert(list.take(i as int) =~= list);
    }
    let ghost done = text::texts(out@);
    if line.len() > 0 {
        out.push(text::string_of(line.as_slice()));
        proof {
            assert(text::texts(out@) =~= done.push(line@));
        }
    }
    out
}

fn push_all(out: &mut Vec<char>, s: &[char])
    ensures
        final(out)@ == old(out)@ + s@,
{
    let mut i: usize = 0;
    proof {
        assert(old(out)@ + s@.take(0) =~= old(out)@);
    }
    while i < s.len()
        invariant
            i <= s@.len(),
            out@ == old(out)@ + s@.take(i as int),
        decreases s@.len() - i,
    {
        out.push(s[i]);
        proof {
            assert(out@ =~= old(out)@ + s@.take(i + 1));
        }
        i += 1;
    }
    proof {
        assert(s@.take(i as int) =~= s@);
    }
}

fn copy(s: &[char]) -> (r: Vec<char>)
    ensures
        r@ == s@,
{
    let mut out: Vec<char> = Vec::new();
    push_all(&mut out, s);
    proof {
        assert(Seq::<char>::empty() + s@ =~= s@);
    }
    out
}

proof fn rest_is_short(word: Seq<char>, width: nat)
    requires
        width > 0,
    ensures
        hard_split(word, width).1.len() <= width,
        word.len() > 0 ==> hard_split(word, width).1.len() > 0,
        forall|i: int|
            0 <= i < hard_split(word, width).0.len() ==> (#[trigger] hard_split(
                word,
                width,
            ).0[i]).len() == width,
    decreases word.len(),
{
    if word.len() > width {
        rest_is_short(word.skip(width as int), width);
        let tail = hard_split(word.skip(width as int), width).0;
        let all = hard_split(word, width).0;
        assert forall|i: int| 0 <= i < all.len() implies (#[trigger] all[i]).len() == width by {
            if i > 0 {
                assert(all[i] == tail[i - 1]);
            }
        }
    }
}

/// No line of wrapped text is empty or longer than the width.
pub proof fn wrapped_lines_fit(s: Seq<char>, width: nat)
    ensures
        forall|i: int|
            0 <= i < wrapped(s, width).len() ==> 0 < (#[trigger] wrapped(s, width)[i]).len()
                <= at_least_one(width),
{
    filled_fits(text::word_list(s), at_least_one(width));
}

proof fn filled_fits(words: Seq<Seq<char>>, width: nat)
    requires
        width > 0,
    ensures
        forall|i: int|
            0 <= i < filled(words, width).0.len() ==> 0 < (#[trigger] filled(
                words,
                width,
            ).0[i]).len() <= width,
        filled(words, width).1.len() <= width,
    decreases words.len(),
{
    if words.len() > 0 {
        filled_fits(words.drop_last(), width);
        let (done, line) = filled(words.drop_last(), width);
        let word = words.last();
        rest_is_short(word, width);
        let (now, _rest) = word_added(done, line, word, width);
        let pieces = hard_split(word, width).0;
        let flushed = if line.len() > 0 {
            done.push(line)
        } else {
            done
        };
        assert forall|i: int| 0 <= i < now.len() implies 0 < (#[trigger] now[i]).len()
            <= width by {
            if i < done.len() {
                assert(now[i] == done[i]);
            } else if word.len() > width {
                if i < flushed.len() {
                    assert(now[i] == flushed[i]);
                } else {
                    assert(now[i] == pieces[i - flushed.len()]);
                }
            }
        }
    }
}

/// How many characters texts have together.
pub open spec fn sum_len(list: Seq<Seq<char>>) -> nat
    decreases list.len(),
{
    if list.len() == 0 {
        0
    } else {
        sum_len(list.drop_last()) + list.last().len()
    }
}

/// Texts one after the other have the characters of both parts.
pub proof fn sum_len_adds(a: Seq<Seq<char>>, b: Seq<Seq<char>>)
    ensures
        sum_len(a + b) == sum_len(a) + sum_len(b),
    decreases b.len(),
{
    if b.len() == 0 {
        assert(a + b =~= a);
    } else {
        sum_len_adds(a, b.drop_last());
        assert((a + b).drop_last() =~= a + b.drop_last());
    }
}

/// The first texts have no more characters than all of them.
pub proof fn sum_len_grows(list: Seq<Seq<char>>, n: int)
    requires
        0 <= n <= list.len(),
    ensures
        sum_len(list.take(n)) <= sum_len(list),
{
    sum_len_adds(list.take(n), list.skip(n));
    assert(list.take(n) + list.skip(n) =~= list);
}

proof fn words_leave_room(s: Seq<char>)
    ensures
        ({
            let words = text::word_list(s);
            &&& words.len() > 0 ==> sum_len(words) + words.len() <= text::trim_front(s).len() + 1
            &&& forall|i: int| 0 <= i < words.len() ==> (#[trigger] words[i]).len() > 0
        }),
    decreases s.len(),
{
    text::trim_front_ends(s);
    let t = text::trim_front(s);
    if t.len() > 0 {
        text::word_len_bound(t);
        let w = text::word_len(t) as int;
        let rest = t.skip(w);
        let head = seq![t.take(w)];
        let tail = text::word_list(rest);
        words_leave_room(rest);
        text::trim_front_ends(rest);
        sum_len_adds(head, tail);
        assert(sum_len(head) == w) by {
            reveal_with_fuel(sum_len, 2);
        }
        if rest.len() > 0 {
            assert(text::space(rest[0]));
            text::trim_front_ends(rest.skip(1));
            assert(text::trim_front(rest).len() < rest.len());
        }
        let words = text::word_list(s);
        assert(words =~= head + tail);
        assert forall|i: int| 0 <= i < words.len() implies (#[trigger] words[i]).len() > 0 by {
            if i > 0 {
                assert(words[i] == tail[i - 1]);
            }
        }
    }
}

proof fn split_keeps_len(word: Seq<char>, width: nat)
    ensures
        sum_len(hard_split(word, width).0) + hard_split(word, width).1.len() == word.len(),
    decreases word.len(),
{
    if width > 0 && word.len() > width {
        let (pieces, _rest) = hard_split(word.skip(width as int), width);
        split_keeps_len(word.skip(width as int), width);
        let head = seq![word.take(width as int)];
        sum_len_adds(head, pieces);
        assert(sum_len(head) == width) by {
            reveal_with_fuel(sum_len, 2);
        }
    }
}

proof fn filling_never_grows(words: Seq<Seq<char>>, width: nat)
    requires
        width > 0,
        forall|i: int| 0 <= i < words.len() ==> (#[trigger] words[i]).len() > 0,
    ensures
        ({
            let (done, line) = filled(words, width);
            &&& words.len() > 0 ==> line.len() > 0 && sum_len(done) + line.len() + 1 <= sum_len(words)
                + words.len()
            &&& words.len() == 0 ==> sum_len(done) == 0 && line.len() == 0
        }),
    decreases words.len(),
{
    if words.len() > 0 {
        let short = words.drop_last();
        assert forall|i: int| 0 <= i < short.len() implies (#[trigger] short[i]).len() > 0 by {
            assert(short[i] == words[i]);
        }
        filling_never_grows(short, width);
        let (done, line) = filled(short, width);
        let word = words.last();
        assert(done.push(line).drop_last() =~= done);
        if word.len() > width {
            split_keeps_len(word, width);
            rest_is_short(word, width);
            let flushed = if line.len() > 0 {
                done.push(line)
            } else {
                done
            };
            sum_len_adds(flushed, hard_split(word, width).0);
        }
    }
}

/// Wrapping never adds a character: the lines have together no more than the text.
pub proof fn wrapping_never_grows(s: Seq<char>, width: nat)
    ensures
        sum_len(wrapped(s, width)) <= s.len(),
{
    let words = text::word_list(s);
    words_leave_room(s);
    text::trim_front_ends(s);
    filling_never_grows(words, at_least_one(width));
    let (done, line) = filled(words, at_least_one(width));
    assert(done.push(line).drop_last() =~= done);
}

/// A text without its white space.
pub open spec fn dense(s: Seq<char>) -> Seq<char>
    decreases s.len(),
{
    if s.len() == 0 {
        seq![]
    } else if text::space(s.last()) {
        dense(s.drop_last())
    } else {
        dense(s.drop_last()).push(s.last())
    }
}

/// Texts one after the other, without white space.
pub open spec fn dense_all(list: Seq<Seq<char>>) -> Seq<char>
    decreases list.len(),
{
    if list.len() == 0 {
        seq![]
    } else {
        dense_all(list.drop_last()) + dense(list.last())
    }
}

proof fn dense_joins(a: Seq<char>, b: Seq<char>)
    ensures
        dense(a + b) == dense(a) + dense(b),
    decreases b.len(),
{
    if b.len() == 0 {
        assert(a + b =~= a);
        assert(dense(a) + dense(b) =~= dense(a));
    } else {
        dense_joins(a, b.drop_last());
        assert((a + b).drop_last() =~= a + b.drop_last());
        assert(dense(a + b) =~= dense(a) + dense(b));
    }
}

proof fn dense_all_joins(a: Seq<Seq<char>>, b: Seq<Seq<char>>)
    ensures
        dense_all(a + b) == dense_all(a) + dense_all(b),
    decreases b.len(),
{
    if b.len() == 0 {
        assert(a + b =~= a);
        assert(dense_all(a) + dense_all(b) =~= dense_all(a));
    } else {
        dense_all_joins(a, b.drop_last());
        assert((a + b).drop_last() =~= a + b.drop_last());
        assert(dense_all(a + b) =~= dense_all(a) + dense_all(b));
    }
}

proof fn dense_all_push(a: Seq<Seq<char>>, x: Seq<char>)
    ensures
        dense_all(a.push(x)) == dense_all(a) + dense(x),
{
    assert(a.push(x).drop_last() =~= a);
}

proof fn dense_one(x: Seq<char>)
    ensures
        dense_all(seq![x]) == dense(x),
{
    let none = Seq::<Seq<char>>::empty();
    assert(none.push(x) =~= seq![x]);
    dense_all_push(none, x);
    assert(dense_all(none) + dense(x) =~= dense(x));
}

proof fn split_keeps(word: Seq<char>, width: nat)
    ensures
        dense_all(hard_split(word, width).0) + dense(hard_split(word, width).1) == dense(word),
    decreases word.len(),
{
    if width == 0 || word.len() <= width {
        assert(dense_all(hard_split(word, width).0) + dense(word) =~= dense(word));
    } else {
        let head = word.take(width as int);
        let tail = word.skip(width as int);
        split_keeps(tail, width);
        let (pieces, rest) = hard_split(tail, width);
        dense_all_joins(seq![head], pieces);
        dense_joins(head, tail);
        assert(head + tail =~= word);
        dense_one(head);
        assert(dense(head) + dense_all(pieces) + dense(rest) =~= dense(head) + (dense_all(pieces)
            + dense(rest)));
    }
}

proof fn filling_keeps(words: Seq<Seq<char>>, width: nat)
    requires
        width > 0,
    ensures
        dense_all(filled(words, width).0) + dense(filled(words, width).1) == dense_all(words),
    decreases words.len(),
{
    if words.len() == 0 {
        assert(dense_all(filled(words, width).0) + dense(filled(words, width).1) =~= dense_all(
            words,
        ));
    } else {
        filling_keeps(words.drop_last(), width);
        let (done, line) = filled(words.drop_last(), width);
        let word = words.last();
        let got = dense_all(done) + dense(line);
        dense_all_push(done, line);
        if word.len() > width {
            let (pieces, rest) = hard_split(word, width);
            split_keeps(word, width);
            let flushed = if line.len() > 0 {
                done.push(line)
            } else {
                done
            };
            assert(dense_all(flushed) =~= got);
            dense_all_joins(flushed, pieces);
            assert(dense_all(flushed) + dense_all(pieces) + dense(rest) =~= got + (dense_all(pieces)
                + dense(rest)));
        } else if line.len() == 0 {
            assert(got =~= dense_all(done));
        } else if line.len() + 1 + word.len() > width {
        } else {
            dense_joins(line.push(' '), word);
            assert(line.push(' ').drop_last() =~= line);
            assert(dense(line.push(' ')) == dense(line));
            assert(dense_all(done) + (dense(line) + dense(word)) =~= got + dense(word));
        }
    }
}

proof fn words_keep(s: Seq<char>)
    ensures
        dense_all(text::word_list(s)) == dense(s),
    decreases s.len(),
{
    text::trim_front_ends(s);
    let t = text::trim_front(s);
    text::word_len_bound(t);
    trimming_keeps(s);
    if t.len() == 0 {
        assert(t =~= Seq::<char>::empty());
        assert(dense_all(text::word_list(s)) =~= dense(t));
    } else {
        let k = text::word_len(t) as int;
        let head = t.take(k);
        let tail = t.skip(k);
        words_keep(tail);
        dense_all_joins(seq![head], text::word_list(tail));
        dense_one(head);
        dense_joins(head, tail);
        assert(head + tail =~= t);
    }
}

proof fn trimming_keeps(s: Seq<char>)
    ensures
        dense(text::trim_front(s)) == dense(s),
    decreases s.len(),
{
    if s.len() > 0 && text::space(s[0]) {
        trimming_keeps(s.drop_first());
        let head = seq![s[0]];
        dense_joins(head, s.drop_first());
        assert(head + s.drop_first() =~= s);
        reveal_with_fuel(dense, 2);
        assert(head.drop_last() =~= Seq::<char>::empty());
        assert(dense(head) =~= Seq::<char>::empty());
        assert(dense(head) + dense(s.drop_first()) =~= dense(s.drop_first()));
    }
}

/// Wrapping loses nothing but white space and invents nothing: the characters of
/// the lines in order are the visible characters of the text in order.
pub proof fn wrapping_keeps_every_character(s: Seq<char>, width: nat)
    ensures
        dense_all(wrapped(s, width)) == dense(s),
{
    let words = text::word_list(s);
    let w = at_least_one(width);
    filling_keeps(words, w);
    words_keep(s);
    let (done, line) = filled(words, w);
    dense_all_push(done, line);
    if line.len() == 0 {
        assert(line =~= Seq::<char>::empty());
        assert(dense_all(done) + dense(line) =~= dense_all(done));
    }
}

// ---------------------------------------------------------------------------
// What is cut and filled.
// ---------------------------------------------------------------------------

/// Text that is too wide is cut to as many of its first characters as leave a cell for the
/// ellipsis: one more would not.
pub proof fn cut_text_is_as_long_as_it_can_be(s: Seq<char>, max: nat, k: int)
    requires
        cells(s) > max,
        max > 0,
        0 <= k <= s.len(),
        total_width(s.take(k)) <= max - 1,
        k < s.len() ==> total_width(s.take(k + 1)) > max - 1,
    ensures
        fitted(s, max) == s.take(k).push('…'),
{
    widths_grow(s, k);
    fitting_is(s, (max - 1) as nat, k, 0);
}

proof fn widths_grow(s: Seq<char>, k: int)
    requires
        0 <= k <= s.len(),
    ensures
        forall|j: int| 0 <= j <= k ==> #[trigger] total_width(s.take(j)) <= total_width(s.take(k)),
    decreases k,
{
    if k > 0 {
        widths_grow(s, k - 1);
        assert(s.take(k).drop_last() =~= s.take(k - 1));
    }
}

proof fn fitting_is(s: Seq<char>, limit: nat, k: int, n: int)
    requires
        0 <= n <= k <= s.len(),
        forall|j: int| 0 <= j <= k ==> #[trigger] total_width(s.take(j)) <= limit,
        k < s.len() ==> total_width(s.take(k + 1)) > limit,
    ensures
        fitting(s, limit, n) == k,
    decreases k - n,
{
    if n < k {
        assert(total_width(s.take(n + 1)) <= limit);
        fitting_is(s, limit, k, n + 1);
    }
}

/// Text is filled up with spaces behind it to its width, and cut where it is too wide.
pub proof fn padding_fills_with_spaces(s: Seq<char>, width: nat, n: nat)
    ensures
        cells(s) + n == width ==> padded(s, width).len() == s.len() + n && padded(s, width).take(
            s.len() as int,
        ) == s && forall|i: int|
            s.len() <= i < padded(s, width).len() ==> #[trigger] padded(s, width)[i] == ' ',
        cells(s) == width ==> padded(s, width) == s,
{
    if cells(s) + n == width {
        assert(padded(s, width).take(s.len() as int) =~= s);
    }
}

/// Text of too many characters is cut to as many, the last one an ellipsis; shorter text stays.
pub proof fn truncating_keeps_the_front(s: Seq<char>, max: nat)
    ensures
        s.len() <= max ==> truncated(s, max) == s,
        s.len() > max && max > 0 ==> truncated(s, max).len() == max && truncated(s, max).take(
            max - 1,
        ) == s.take(max - 1) && truncated(s, max).last() == '…',
{
    if s.len() > max && max > 0 {
        assert(truncated(s, max).take(max - 1) =~= s.take(max - 1));
    }
}

/// Text is filled up with spaces before it to its width, and never cut.
pub proof fn aligning_fills_before(s: Seq<char>, width: nat)
    ensures
        s.len() >= width ==> right_aligned(s, width) == s,
        s.len() < width ==> right_aligned(s, width).len() == width && right_aligned(s, width).skip(
            width - s.len(),
        ) == s && forall|i: int|
            0 <= i < width - s.len() ==> #[trigger] right_aligned(s, width)[i] == ' ',
{
    if s.len() < width {
        assert(right_aligned(s, width).skip(width - s.len()) =~= s);
    }
}

/// Names are listed whole where they fit; otherwise as many of the first ones as fit are, with the
/// number of the others behind them: with one name more it would not fit.
pub proof fn names_fill_their_room(list: Seq<Seq<char>>, max: nat, k: int)
    requires
        1 <= k < list.len(),
        cells(text::joined(list, ", "@)) > max,
        cells(text::joined(list.take(k), ", "@) + " +"@ + digits::dec((list.len() - k) as nat))
            <= max,
        forall|j: int|
            k < j < list.len() ==> cells(
                #[trigger] text::joined(list.take(j), ", "@) + " +"@ + digits::dec(
                    (list.len() - j) as nat,
                ),
            ) > max,
    ensures
        fitted_members(list, max) == text::joined(list.take(k), ", "@) + " +"@ + digits::dec(
            (list.len() - k) as nat,
        ),
        forall|m: nat| m >= cells(text::joined(list, ", "@)) ==> #[trigger] fitted_members(list, m)
            == text::joined(list, ", "@),
{
    most_is(list, max, k, list.len() - 1);
}

proof fn most_is(list: Seq<Seq<char>>, max: nat, k: int, take: int)
    requires
        1 <= k <= take < list.len(),
        cells(some_members(list, k)) <= max,
        forall|j: int|
            k < j < list.len() ==> cells(
                #[trigger] text::joined(list.take(j), ", "@) + " +"@ + digits::dec(
                    (list.len() - j) as nat,
                ),
            ) > max,
    ensures
        most_members(list, max, take) == Some(some_members(list, k)),
    decreases take - k,
{
    if k < take {
        assert(some_members(list, take) == text::joined(list.take(take), ", "@) + " +"@
            + digits::dec((list.len() - take) as nat));
        assert(cells(some_members(list, take)) > max);
        most_is(list, max, k, take - 1);
    }
}

/// Wrapping puts a word on the line that is being filled wherever it fits there with a space
/// before it, and begins a new line with it only where it does not; a word too long for any line
/// is cut into full lines.
pub proof fn words_stay_on_their_line(words: Seq<Seq<char>>, word: Seq<char>, width: nat)
    requires
        width > 0,
    ensures
        ({
            let (done, line) = filled(words, width);
            let (more, last) = filled(words.push(word), width);
            &&& word.len() <= width && line.len() > 0 && line.len() + 1 + word.len() <= width
                ==> more == done && last == line + seq![' '] + word
            &&& word.len() <= width && line.len() > 0 && line.len() + 1 + word.len() > width
                ==> more == done.push(line) && last == word
            &&& word.len() <= width && line.len() == 0 ==> more == done && last == word
            &&& word.len() > width && line.len() == 0 && word.len() <= 2 * width ==> more
                == done.push(word.take(width as int)) && last == word.skip(width as int)
        }),
        filled(seq![], width) == (Seq::<Seq<char>>::empty(), Seq::<char>::empty()),
{
    assert(words.push(word).drop_last() =~= words);
    let (done, line) = filled(words, width);
    assert(line.push(' ') + word =~= line + seq![' '] + word);
    if word.len() > width && word.len() <= 2 * width {
        assert(hard_split(word.skip(width as int), width) == (
            Seq::<Seq<char>>::empty(),
            word.skip(width as int),
        ));
        assert(done + (seq![word.take(width as int)] + Seq::<Seq<char>>::empty()) =~= done.push(
            word.take(width as int),
        ));
    }
}

/// Wrapped text is the lines that were filled and the one that is left, if anything is on it; the
/// words are those of the text, and a width of nothing counts as one.
pub proof fn wrapping_ends_with_the_last_line(s: Seq<char>, width: nat)
    ensures
        ({
            let w = if width == 0 {
                1
            } else {
                width
            };
            let (done, line) = filled(text::word_list(s), w);
            &&& line.len() > 0 ==> wrapped(s, width) == done.push(line)
            &&& line.len() == 0 ==> wrapped(s, width) == done
        }),
{
}

/// A character without a width takes no cell; every other takes its own.
pub proof fn characters_take_their_cells(c: char, n: nat)
    ensures
        char_cells(c) is None ==> width_of(c) == 0,
        char_cells(c) == Some(n) ==> width_of(c) == n,
{
}

} // verus!
