//! Timestamped lyrics: the lines, the `.lrc` text they are stored as, and the
//! line that is being sung.
//!
//! Times are whole nanoseconds. Stored times are rounded to hundredths of a
//! second.

use vstd::prelude::*;
use vstd::slice::slice_subrange;
use crate::digits;
use crate::text;

verus! {

/// One timestamped lyric line.
#[derive(Clone, Debug)]
pub struct LyricLine {
    /// When the line starts, in nanoseconds; one second before the start for
    /// lines without a time.
    pub t: i64,
    pub text: String,
}

/// The lyrics of one track.
#[derive(Clone, Debug)]
pub struct Lyrics {
    pub lines: Vec<LyricLine>,
    pub synced: bool,
    /// Which track these belong to.
    pub track_id: String,
    /// A remark such as "no lyrics found" or "🎵 instrumental".
    pub note: String,
}

/// The time that stands for "no time".
pub const UNTIMED: i64 = -1_000_000_000;

/// One minute in nanoseconds.
pub const MINUTE: i64 = 60_000_000_000;

/// A hundredth of a second in nanoseconds.
pub const HUNDREDTH: i64 = 10_000_000;

/// How long the last line is sung: four seconds.
pub const LAST_LINE: i64 = 4_000_000_000;

/// A line as a time and a text.
pub open spec fn cue(l: LyricLine) -> (int, Seq<char>) {
    (l.t as int, l.text@)
}

/// Lines as times and texts.
pub open spec fn cues(v: Seq<LyricLine>) -> Seq<(int, Seq<char>)> {
    Seq::new(v.len(), |i: int| cue(v[i]))
}

// ---------------------------------------------------------------------------
// The line that is being sung.
// ---------------------------------------------------------------------------

/// How far something has come: `num` parts of `den`, never more than the whole.
#[derive(Clone, Copy, Debug, PartialEq, Eq, Structural)]
pub struct Share {
    pub num: u64,
    pub den: u64,
}

/// How many lines from `i` on start no later than `pos`, counted to the first
/// one that starts later.
pub open spec fn reached(list: Seq<(int, Seq<char>)>, pos: int, i: int) -> int
    decreases list.len() - i,
{
    if i < 0 || i >= list.len() || list[i].0 > pos {
        i
    } else {
        reached(list, pos, i + 1)
    }
}

/// When line `i` ends: at the next line's start, the last one after [`LAST_LINE`].
pub open spec fn line_end(list: Seq<(int, Seq<char>)>, i: int) -> int {
    if i + 1 < list.len() {
        list[i + 1].0
    } else {
        list[i].0 + LAST_LINE
    }
}

/// The share of the time from `start` to `end` that has passed at `pos`.
pub open spec fn passed(start: int, end: int, pos: int) -> (int, int) {
    if end <= start {
        (0, 1)
    } else if pos - start >= end - start {
        (end - start, end - start)
    } else {
        (pos - start, end - start)
    }
}

impl Lyrics {
    /// Lyrics without a line.
    pub fn empty() -> (r: Lyrics)
        ensures
            r.lines@.len() == 0,
            !r.synced,
            r.track_id@.len() == 0,
            r.note@.len() == 0,
    {
        Lyrics {
            lines: Vec::new(),
            synced: false,
            track_id: String::new(),
            note: String::new(),
        }
    }

    /// The active line at a playback position, and how far it is through towards
    /// the next one.
    pub fn active(&self, pos: i64) -> (r: Option<(usize, Share)>)
        ensures
            match r {
                None => reached(cues(self.lines@), pos as int, 0) == 0,
                Some((i, share)) => {
                    let list = cues(self.lines@);
                    &&& i < list.len()
                    &&& reached(list, pos as int, 0) == i + 1
                    &&& (share.num as int, share.den as int) == passed(
                        list[i as int].0,
                        line_end(list, i as int),
                        pos as int,
                    )
                    &&& share.num <= share.den
                    &&& forall|j: int|
                        0 <= j <= i ==> (#[trigger] self.lines@[j]).t <= pos
                    &&& i + 1 < self.lines@.len() ==> {
                        &&& self.lines@[i + 1].t > pos
                        &&& share.num == pos - self.lines@[i as int].t
                        &&& share.den == self.lines@[i + 1].t - self.lines@[i as int].t
                    }
                    &&& i + 1 == self.lines@.len() ==> {
                        &&& share.den == 4_000_000_000
                        &&& share.num == (if pos - self.lines@[i as int].t < 4_000_000_000 {
                            pos - self.lines@[i as int].t
                        } else {
                            4_000_000_000
                        })
                    }
                },
            },
            r is None <==> self.lines@.len() == 0 || self.lines@[0].t > pos,
    {
        let ghost list = cues(self.lines@);
        let mut n: usize = 0;
        while n < self.lines.len() && self.lines[n].t <= pos
            invariant
                n <= self.lines@.len(),
                list == cues(self.lines@),
                reached(list, pos as int, 0) == reached(list, pos as int, n as int),
                n > 0 ==> list[n - 1].0 <= pos,
                forall|j: int| 0 <= j < n ==> (#[trigger] self.lines@[j]).t <= pos,
            decreases self.lines@.len() - n,
        {
            n += 1;
        }
        if n == 0 {
            return None;
        }
        let i: usize = n - 1;
        let start: i128 = self.lines[i].t as i128;
        let end: i128 = if n < self.lines.len() {
            self.lines[n].t as i128
        } else {
            start + LAST_LINE as i128
        };
        let share: Share = if end <= start {
            Share { num: 0, den: 1 }
        } else if pos as i128 - start >= end - start {
            Share { num: (end - start) as u64, den: (end - start) as u64 }
        } else {
            Share { num: (pos as i128 - start) as u64, den: (end - start) as u64 }
        };
        Some((i, share))
    }
}

/// The times never go back.
pub open spec fn ordered(list: Seq<(int, Seq<char>)>) -> bool {
    forall|i: int, j: int| 0 <= i <= j < list.len() ==> list[i].0 <= list[j].0
}

/// In ordered lyrics the active line is the last one that has started: it and
/// all lines before it start no later than the position, all after it later.
pub proof fn active_line_is_the_last_started(list: Seq<(int, Seq<char>)>, pos: int)
    requires
        ordered(list),
    ensures
        0 <= reached(list, pos, 0) <= list.len(),
        forall|j: int| 0 <= j < reached(list, pos, 0) ==> list[j].0 <= pos,
        forall|j: int| reached(list, pos, 0) <= j < list.len() ==> list[j].0 > pos,
{
    reached_splits(list, pos, 0);
}

proof fn reached_splits(list: Seq<(int, Seq<char>)>, pos: int, i: int)
    requires
        ordered(list),
        0 <= i <= list.len(),
    ensures
        i <= reached(list, pos, i) <= list.len(),
        forall|j: int| i <= j < reached(list, pos, i) ==> list[j].0 <= pos,
        forall|j: int| reached(list, pos, i) <= j < list.len() ==> list[j].0 > pos,
    decreases list.len() - i,
{
    if i < list.len() && list[i].0 <= pos {
        reached_splits(list, pos, i + 1);
        assert forall|j: int| i <= j < reached(list, pos, i) implies list[j].0 <= pos by {
            if j > i {
                assert(i + 1 <= j);
            }
        }
    }
}

// ---------------------------------------------------------------------------
// Reading `.lrc` text.
// ---------------------------------------------------------------------------

/// The time of a tag `mm:ss.xx` or `mm:ss`; other tags have none.
pub open spec fn stamp(tag: Seq<char>) -> Option<int> {
    match text::char_from(tag, ':', 0) {
        None => None,
        Some(i) => match (
            digits::nanos(text::trimmed(tag.take(i))),
            digits::nanos(text::trimmed(tag.skip(i + 1))),
        ) {
            (Some(m), Some(s)) => Some(digits::bounded(m * 60 + s)),
            _ => None,
        },
    }
}

/// Where the tag that starts a line is closed.
pub open spec fn tag_end(line: Seq<char>) -> Option<int> {
    if line.len() > 0 && line[0] == '[' {
        text::char_from(line, ']', 0)
    } else {
        None
    }
}

/// The times of the tags that start a line.
pub open spec fn stamps(line: Seq<char>) -> Seq<int>
    decreases line.len(),
{
    proof {
        text::char_from_is_least(line, ']', 0);
    }
    match tag_end(line) {
        None => seq![],
        Some(c) => {
            let rest = stamps(line.skip(c + 1));
            match stamp(line.subrange(1, c)) {
                Some(t) => seq![t] + rest,
                None => rest,
            }
        },
    }
}

/// What follows the tags that start a line.
pub open spec fn untagged(line: Seq<char>) -> Seq<char>
    decreases line.len(),
{
    proof {
        text::char_from_is_least(line, ']', 0);
    }
    match tag_end(line) {
        None => line,
        Some(c) => untagged(line.skip(c + 1)),
    }
}

/// One line of `.lrc` text: its text once for each time it is sung at.
pub open spec fn line_cues(line: Seq<char>) -> Seq<(int, Seq<char>)> {
    Seq::new(stamps(line).len(), |i: int| (stamps(line)[i], text::trimmed(untagged(line))))
}

/// The cues of the lines one after the other.
pub open spec fn all_cues(lines: Seq<Seq<char>>) -> Seq<(int, Seq<char>)>
    decreases lines.len(),
{
    if lines.len() == 0 {
        seq![]
    } else {
        all_cues(lines.drop_last()) + line_cues(lines.last())
    }
}

/// Behind which of the first `n` cues a time belongs: behind all that are not later.
pub open spec fn slot(list: Seq<(int, Seq<char>)>, t: int, n: int) -> int
    decreases n,
{
    if 0 < n && list[n - 1].0 > t {
        slot(list, t, n - 1)
    } else {
        n
    }
}

/// The cues in order of their times; equal times stay in the order they came in.
pub open spec fn by_time(list: Seq<(int, Seq<char>)>) -> Seq<(int, Seq<char>)>
    decreases list.len(),
{
    if list.len() == 0 {
        seq![]
    } else {
        let before = by_time(list.drop_last());
        before.insert(slot(before, list.last().0, before.len() as int), list.last())
    }
}

/// What an `.lrc` text says.
pub open spec fn lrc(s: Seq<char>) -> Seq<(int, Seq<char>)> {
    by_time(all_cues(text::line_list(s)))
}

proof fn slot_bound(list: Seq<(int, Seq<char>)>, t: int, n: int)
    requires
        0 <= n <= list.len(),
    ensures
        0 <= slot(list, t, n) <= n,
        slot(list, t, n) > 0 ==> list[slot(list, t, n) - 1].0 <= t,
        forall|j: int| slot(list, t, n) <= j < n ==> list[j].0 > t,
    decreases n,
{
    if 0 < n && list[n - 1].0 > t {
        slot_bound(list, t, n - 1);
    }
}

/// Ordering by time orders, and loses or invents no cue.
pub proof fn by_time_orders(list: Seq<(int, Seq<char>)>)
    ensures
        ordered(by_time(list)),
        by_time(list).to_multiset() == list.to_multiset(),
        by_time(list).len() == list.len(),
    decreases list.len(),
{
    broadcast use vstd::seq_lib::group_to_multiset_ensures;

    if list.len() > 0 {
        by_time_orders(list.drop_last());
        let before = by_time(list.drop_last());
        let x = list.last();
        let k = slot(before, x.0, before.len() as int);
        slot_bound(before, x.0, before.len() as int);
        let after = before.insert(k, x);
        assert(list.drop_last().push(x) =~= list);
        assert forall|i: int, j: int| 0 <= i <= j < after.len() implies after[i].0 <= after[j].0 by {
            let a = if i < k {
                i
            } else {
                i - 1
            };
            let b = if j < k {
                j
            } else {
                j - 1
            };
            if i != k && j != k {
                assert(before[a].0 <= before[b].0);
            } else if i == k && j != k {
                assert(before[j - 1].0 > x.0);
            } else if j == k && i != k {
                assert(before[i].0 <= before[k - 1].0);
            }
        }
    } else {
        assert(by_time(list) =~= list);
    }
}

/// What is in order stays as it is.
pub proof fn by_time_keeps_order(list: Seq<(int, Seq<char>)>)
    requires
        ordered(list),
    ensures
        by_time(list) == list,
    decreases list.len(),
{
    if list.len() > 0 {
        let front = list.drop_last();
        assert(ordered(front));
        by_time_keeps_order(front);
        assert(slot(front, list.last().0, front.len() as int) == front.len());
        assert(front.insert(front.len() as int, list.last()) =~= list);
    } else {
        assert(by_time(list) =~= list);
    }
}

/// Parses `mm:ss.xx` or `mm:ss` into nanoseconds. Ignores metadata tags.
pub fn parse_stamp(tag: &[char]) -> (r: Option<i64>)
    ensures
        match r {
            Some(t) => stamp(tag@) == Some(t as int),
            None => stamp(tag@) is None,
        },
{
    let n: usize = tag.len();
    match text::find_char(tag, ':', 0) {
        None => None,
        Some(i) => {
            proof {
                assert(tag@.take(i as int) =~= tag@.subrange(0, i as int));
                assert(tag@.skip(i + 1) =~= tag@.subrange(i + 1, tag@.len() as int));
            }
            match digits::read_nanos(text::trim(slice_subrange(tag, 0, i))) {
                None => None,
                Some(m) => match digits::read_nanos(
                    text::trim(slice_subrange(tag, i + 1, n)),
                ) {
                    None => None,
                    Some(s) => Some(digits::bound(m as i128 * 60 + s as i128)),
                },
            }
        },
    }
}

/// Puts a line behind all lines that do not start later.
fn insert_line(lines: &mut Vec<LyricLine>, line: LyricLine)
    ensures
        cues(final(lines)@) == cues(old(lines)@).insert(
            slot(cues(old(lines)@), line.t as int, old(lines)@.len() as int),
            cue(line),
        ),
{
    let ghost list = cues(lines@);
    let mut k: usize = lines.len();
    while k > 0 && lines[k - 1].t > line.t
        invariant
            k <= lines@.len(),
            lines@ == old(lines)@,
            list == cues(lines@),
            slot(list, line.t as int, lines@.len() as int) == slot(list, line.t as int, k as int),
        decreases k,
    {
        k -= 1;
    }
    lines.insert(k, line);
    proof {
        assert(cues(lines@) =~= list.insert(k as int, cue(line)));
    }
}

/// Reads the tags that start a line: their times, and where they end.
fn read_tags(line: &[char]) -> (r: (Vec<i64>, usize))
    ensures
        r.1 <= line@.len(),
        Seq::new(r.0@.len(), |i: int| r.0@[i] as int) == stamps(line@),
        line@.skip(r.1 as int) == untagged(line@),
{
    let mut times: Vec<i64> = Vec::new();
    let n: usize = line.len();
    let mut at: usize = 0;
    proof {
        assert(line@.skip(0) =~= line@);
        assert(Seq::new(times@.len(), |i: int| times@[i] as int) + stamps(line@) =~= stamps(line@));
    }
    while at < n && line[at] == '['
        invariant
            at <= n == line@.len(),
            stamps(line@) == Seq::new(times@.len(), |i: int| times@[i] as int) + stamps(
                line@.skip(at as int),
            ),
            untagged(line@) == untagged(line@.skip(at as int)),
        decreases n - at,
    {
        let ghost rest = line@.skip(at as int);
        let ghost before = Seq::new(times@.len(), |i: int| times@[i] as int);
        proof {
            text::char_from_is_least(rest, ']', 0);
            text::char_from_shift(line@, ']', at as int, 0);
        }
        match text::find_char(line, ']', at) {
            None => {
                proof {
                    assert(stamps(rest) =~= seq![]);
                    assert(before + stamps(rest) =~= before);
                }
                return (times, at);
            },
            Some(c) => {
                proof {
                    assert(rest.subrange(1, c - at) =~= line@.subrange(at + 1, c as int));
                    assert(rest.skip(c - at + 1) =~= line@.skip(c + 1));
                }
                match parse_stamp(slice_subrange(line, at + 1, c)) {
                    Some(t) => {
                        times.push(t);
                        proof {
                            let after = Seq::new(times@.len(), |i: int| times@[i] as int);
                            assert(after =~= before.push(t as int));
                            assert(before + (seq![t as int] + stamps(line@.skip(c + 1))) =~= after
                                + stamps(line@.skip(c + 1)));
                        }
                    },
                    None => {},
                }
                at = c + 1;
            },
        }
    }
    proof {
        let now = Seq::new(times@.len(), |i: int| times@[i] as int);
        assert(now + stamps(line@.skip(at as int)) =~= now);
    }
    (times, at)
}

/// Parses an `.lrc` text: lines like `[01:23.45] text`, possibly with several
/// tags per line. Sorted by time.
pub fn parse_lrc(s: &str) -> (r: Vec<LyricLine>)
    ensures
        cues(r@) == lrc(s@),
{
    let v = text::chars_of(s);
    let rows = text::lines(v.as_slice());
    let ghost list = text::line_list(s@);
    let mut out: Vec<LyricLine> = Vec::new();
    let mut i: usize = 0;
    proof {
        assert(list.take(0) =~= Seq::<Seq<char>>::empty());
        assert(cues(out@) =~= by_time(all_cues(list.take(0))));
    }
    while i < rows.len()
        invariant
            i <= rows@.len(),
            list == text::views(rows@),
            cues(out@) == by_time(all_cues(list.take(i as int))),
        decreases rows@.len() - i,
    {
        let row: &[char] = rows[i];
        let ghost mine = line_cues(row@);
        let ghost before = all_cues(list.take(i as int));
        proof {
            assert(list.take(i + 1).drop_last() =~= list.take(i as int));
            assert(list.take(i + 1).last() == row@);
            assert(before + mine.take(0) =~= before);
        }
        let (times, at) = read_tags(row);
        proof {
            assert(row@.subrange(at as int, row@.len() as int) =~= row@.skip(at as int));
            assert(stamps(row@).len() == times@.len());
        }
        let body = text::string_of(text::trim(slice_subrange(row, at, row.len())));
        let mut k: usize = 0;
        while k < times.len()
            invariant
                k <= times@.len(),
                mine == line_cues(row@),
                mine.len() == times@.len(),
                forall|j: int| 0 <= j < times@.len() ==> times@[j] == stamps(row@)[j],
                body@ == text::trimmed(untagged(row@)),
                cues(out@) == by_time(before + mine.take(k as int)),
            decreases times@.len() - k,
        {
            let line = LyricLine { t: times[k], text: body.clone() };
            proof {
                let next = before + mine.take(k + 1);
                assert(mine[k as int] == cue(line));
                assert(next.drop_last() =~= before + mine.take(k as int));
                assert(next.last() == cue(line));
            }
            insert_line(&mut out, line);
            k += 1;
        }
        proof {
            assert(mine.take(k as int) =~= mine);
        }
        i += 1;
    }
    proof {
        assert(list.take(i as int) =~= list);
    }
    out
}

// ---------------------------------------------------------------------------
// Writing `.lrc` text.
// ---------------------------------------------------------------------------

/// A time below one minute in hundredths of a second, rounded to the nearest,
/// ties to even.
pub open spec fn hundredths(r: int) -> int {
    let q = r / HUNDREDTH as int;
    let rem = r % HUNDREDTH as int;
    if 2 * rem > HUNDREDTH || (2 * rem == HUNDREDTH && q % 2 == 1) {
        q + 1
    } else {
        q
    }
}

/// A time rounded to hundredths of a second.
pub open spec fn rounded(t: int) -> int {
    t / MINUTE as int * MINUTE + hundredths(t % MINUTE as int) * HUNDREDTH
}

/// The minutes of a tag: at least two digits, or a sign and digits.
pub open spec fn minute_text(m: int) -> Seq<char> {
    if m < 0 {
        seq!['-'] + digits::dec((-m) as nat)
    } else {
        digits::dec2(m as nat)
    }
}

/// The seconds of a tag: two digits, a point, two digits.
pub open spec fn second_text(c: int) -> Seq<char> {
    digits::dec2((c / 100) as nat) + seq!['.'] + digits::dec2((c % 100) as nat)
}

/// The inside of the tag of a time.
pub open spec fn stamp_text(t: int) -> Seq<char> {
    minute_text(t / MINUTE as int) + seq![':'] + second_text(hundredths(t % MINUTE as int))
}

/// One stored line, without its line feed.
pub open spec fn cue_text(c: (int, Seq<char>)) -> Seq<char> {
    seq!['['] + stamp_text(c.0) + seq![']'] + c.1
}

/// The stored lines.
pub open spec fn rendered(list: Seq<(int, Seq<char>)>) -> Seq<char>
    decreases list.len(),
{
    if list.len() == 0 {
        seq![]
    } else {
        rendered(list.drop_last()) + cue_text(list.last()) + seq!['\n']
    }
}

/// Appends the tag of a time.
#[verifier::rlimit(40)]
fn push_stamp(out: &mut String, t: i64)
    ensures
        final(out)@ == old(out)@ + stamp_text(t as int),
{
    let wide: i128 = t as i128;
    let minute: i128 = MINUTE as i128;
    let m: i128 = if wide >= 0 {
        wide / minute
    } else {
        -((-1 - wide) / minute) - 1
    };
    let r: i128 = wide - m * minute;
    proof {
        assert(m == t as int / MINUTE as int && r == t as int % MINUTE as int);
    }
    let q: i128 = r / HUNDREDTH as i128;
    let rem: i128 = r % HUNDREDTH as i128;
    let c: u64 = if 2 * rem > HUNDREDTH as i128 || (2 * rem == HUNDREDTH as i128 && q % 2 == 1) {
        (q + 1) as u64
    } else {
        q as u64
    };
    proof {
        assert(c == hundredths(r as int));
    }
    let ghost start = out@;
    if m < 0 {
        out.push('-');
        digits::push_dec(out, (-m) as u64);
    } else {
        digits::push_dec2(out, m as u64);
    }
    proof {
        assert(out@ =~= start + minute_text(m as int));
    }
    out.push(':');
    digits::push_dec2(out, c / 100);
    out.push('.');
    digits::push_dec2(out, c % 100);
    proof {
        assert(out@ =~= start + stamp_text(t as int));
    }
}

/// The `.lrc` text of lines.
pub fn render_lrc(lines: &Vec<LyricLine>) -> (r: String)
    ensures
        r@ == rendered(cues(lines@)),
{
    let mut out = String::new();
    let mut i: usize = 0;
    let ghost list = cues(lines@);
    while i < lines.len()
        invariant
            i <= lines@.len(),
            list == cues(lines@),
            out@ == rendered(list.take(i as int)),
        decreases lines@.len() - i,
    {
        let ghost start = out@;
        out.push('[');
        push_stamp(&mut out, lines[i].t);
        out.push(']');
        out.append(lines[i].text.as_str());
        out.push('\n');
        proof {
            assert(list.take(i + 1).drop_last() =~= list.take(i as int));
            assert(list.take(i + 1).last() == cue(lines@[i as int]));
            assert(out@ =~= start + cue_text(cue(lines@[i as int])) + seq!['\n']);
        }
        i += 1;
    }
    proof {
        assert(list.take(i as int) =~= list);
    }
    out
}

/// The text to store for a track: only synced lyrics with at least one line are stored.
pub fn cache_save(ly: &Lyrics) -> (r: Option<String>)
    ensures
        r is Some == (ly.synced && ly.lines@.len() > 0),
        r matches Some(body) ==> body@ == rendered(cues(ly.lines@)),
{
    if !ly.synced || ly.lines.len() == 0 {
        return None;
    }
    Some(render_lrc(&ly.lines))
}

/// The lyrics that a stored text holds: synced, and none when there is no line.
pub fn loaded(track_id: &str, body: &str) -> (r: Option<Lyrics>)
    ensures
        r is Some == (lrc(body@).len() > 0),
        r matches Some(ly) ==> cues(ly.lines@) == lrc(body@) && ly.synced && ly.track_id@
            == track_id@ && ly.note@.len() == 0,
{
    let lines = parse_lrc(body);
    proof {
        assert(cues(lines@).len() == lines@.len());
    }
    if lines.len() == 0 {
        return None;
    }
    Some(Lyrics { lines, synced: true, track_id: track_id.to_string(), note: String::new() })
}

/// Loads the lyrics of a track from the bytes stored for it.
pub fn cache_load(track_id: &str, body: &[u8]) -> (r: Option<Lyrics>)
    ensures
        r is Some == (lrc(text::lossy(body@)).len() > 0),
        r matches Some(ly) ==> cues(ly.lines@) == lrc(text::lossy(body@)) && ly.synced
            && ly.track_id@ == track_id@ && ly.note@.len() == 0,
{
    let s = text::decode_lossy(body);
    loaded(track_id, s.as_str())
}

// ---------------------------------------------------------------------------
// What is lit and what is read.
// ---------------------------------------------------------------------------

/// A line is lit in step with the music: between its start and the start of the next line the
/// lit share is the time since its start out of the time between the two starts. So it is less
/// than the whole before the next line starts, and the whole when it does.
pub proof fn line_is_lit_in_step(list: Seq<(int, Seq<char>)>, i: int, pos: int)
    requires
        0 <= i,
        i + 1 < list.len(),
        list[i].0 < list[i + 1].0,
        list[i].0 <= pos <= list[i + 1].0,
    ensures
        passed(list[i].0, line_end(list, i), pos) == (
            pos - list[i].0,
            list[i + 1].0 - list[i].0,
        ),
{
}

/// The last line is lit over four seconds and stays lit.
pub proof fn last_line_is_lit_for_four_seconds(list: Seq<(int, Seq<char>)>, pos: int)
    requires
        list.len() > 0,
        list.last().0 <= pos,
    ensures
        ({
            let (num, den) = passed(list.last().0, line_end(list, list.len() - 1), pos);
            &&& den == 4_000_000_000
            &&& pos <= list.last().0 + 4_000_000_000 ==> num == pos - list.last().0
            &&& pos >= list.last().0 + 4_000_000_000 ==> num == den
        }),
{
}

proof fn first_mark(a: Seq<char>, c: char, b: Seq<char>, from: int)
    requires
        forall|i: int| 0 <= i < a.len() ==> a[i] != c,
        0 <= from <= a.len(),
    ensures
        text::char_from(a + seq![c] + b, c, from) == Some(a.len() as int),
    decreases a.len() - from,
{
    let whole = a + seq![c] + b;
    if from < a.len() {
        assert(whole[from] == a[from]);
        first_mark(a, c, b, from + 1);
    } else {
        assert(whole[from] == c);
    }
}

/// A tag is minutes and seconds around its first colon: sixty times the one and the other,
/// whatever white space is around them; where one of them is no number, the tag has no time.
pub proof fn tags_are_minutes_and_seconds(a: Seq<char>, b: Seq<char>)
    requires
        forall|i: int| 0 <= i < a.len() ==> a[i] != ':',
    ensures
        ({
            let minutes = digits::nanos(text::trimmed(a));
            let seconds = digits::nanos(text::trimmed(b));
            let t = stamp(a + seq![':'] + b);
            &&& t is Some <==> minutes is Some && seconds is Some
            &&& minutes is Some && seconds is Some && -0x7fff_ffff_ffff_ffff <= 60 * minutes->0
                + seconds->0 <= 0x7fff_ffff_ffff_ffff ==> t == Some(60 * minutes->0 + seconds->0)
        }),
{
    first_mark(a, ':', b, 0);
    let whole = a + seq![':'] + b;
    assert(whole.take(a.len() as int) =~= a);
    assert(whole.skip(a.len() as int + 1) =~= b);
}

/// A line that starts with a tag is sung at the time of that tag and at the times of those that
/// follow it, and its text stands behind them all.
pub proof fn tags_stand_before_the_text(tag: Seq<char>, rest: Seq<char>)
    requires
        forall|i: int| 0 <= i < tag.len() ==> tag[i] != ']',
    ensures
        ({
            let line = seq!['['] + tag + seq![']'] + rest;
            &&& untagged(line) == untagged(rest)
            &&& stamp(tag) matches Some(t) ==> stamps(line) == seq![t] + stamps(rest)
            &&& stamp(tag) is None ==> stamps(line) == stamps(rest)
        }),
{
    let line = seq!['['] + tag + seq![']'] + rest;
    let head = seq!['['] + tag;
    assert forall|i: int| 0 <= i < head.len() implies head[i] != ']' by {
        if i > 0 {
            assert(head[i] == tag[i - 1]);
        }
    }
    first_mark(head, ']', rest, 0);
    assert(line[0] == '[');
    assert(line.subrange(1, head.len() as int) =~= tag);
    assert(line.skip(head.len() as int + 1) =~= rest);
}

/// A line that does not start with a bracket is all text and is sung at no time.
pub proof fn plain_lines_have_no_time(line: Seq<char>)
    requires
        line.len() == 0 || line[0] != '[',
    ensures
        untagged(line) == line,
        stamps(line).len() == 0,
        line_cues(line).len() == 0,
{
}

/// What an `.lrc` text says: each time of each line with the trimmed text of that line, nothing
/// else, and in the order of the times.
pub proof fn texts_say_their_lines(s: Seq<char>)
    ensures
        ordered(lrc(s)),
        forall|l: int, k: int|
            0 <= l < text::line_list(s).len() && 0 <= k < stamps(text::line_list(s)[l]).len()
                ==> lrc(s).contains(
                (
                    #[trigger] stamps(text::line_list(s)[l])[k],
                    text::trimmed(untagged(text::line_list(s)[l])),
                ),
            ),
        forall|c: (int, Seq<char>)| #[trigger]
            lrc(s).contains(c) ==> exists|l: int|
                0 <= l < text::line_list(s).len() && c.1 == text::trimmed(
                    untagged(#[trigger] text::line_list(s)[l]),
                ) && stamps(text::line_list(s)[l]).contains(c.0),
        lrc(s).len() == count_of_times(text::line_list(s)),
{
    let lines = text::line_list(s);
    let all = all_cues(lines);
    by_time_orders(all);
    cues_of_lines(lines);
    assert forall|c: (int, Seq<char>)| lrc(s).contains(c) == all.contains(c) by {
        all.to_multiset_ensures();
        lrc(s).to_multiset_ensures();
        assert(lrc(s).contains(c) <==> lrc(s).to_multiset().count(c) > 0);
        assert(all.contains(c) <==> all.to_multiset().count(c) > 0);
    }
    assert forall|l: int, k: int|
        0 <= l < lines.len() && 0 <= k < stamps(lines[l]).len() implies lrc(s).contains(
        (#[trigger] stamps(lines[l])[k], text::trimmed(untagged(lines[l]))),
    ) by {
        assert(all.contains((stamps(lines[l])[k], text::trimmed(untagged(lines[l])))));
    }
    assert forall|c: (int, Seq<char>)| #[trigger] lrc(s).contains(c) implies exists|l: int|
        0 <= l < lines.len() && c.1 == text::trimmed(untagged(#[trigger] lines[l])) && stamps(
            lines[l],
        ).contains(c.0) by {
        assert(all.contains(c));
    }
}

/// How many times the lines are sung at, all together.
pub open spec fn count_of_times(lines: Seq<Seq<char>>) -> nat
    decreases lines.len(),
{
    if lines.len() == 0 {
        0
    } else {
        count_of_times(lines.drop_last()) + stamps(lines.last()).len()
    }
}

proof fn cues_of_lines(lines: Seq<Seq<char>>)
    ensures
        all_cues(lines).len() == count_of_times(lines),
        forall|l: int, k: int|
            0 <= l < lines.len() && 0 <= k < stamps(lines[l]).len() ==> all_cues(lines).contains(
                (#[trigger] stamps(lines[l])[k], text::trimmed(untagged(lines[l]))),
            ),
        forall|c: (int, Seq<char>)| #[trigger]
            all_cues(lines).contains(c) ==> exists|l: int|
                0 <= l < lines.len() && c.1 == text::trimmed(untagged(#[trigger] lines[l]))
                    && stamps(lines[l]).contains(c.0),
    decreases lines.len(),
{
    if lines.len() > 0 {
        let before = lines.drop_last();
        cues_of_lines(before);
        let old = all_cues(before);
        let new = line_cues(lines.last());
        let all = all_cues(lines);
        assert(all == old + new);
        assert forall|l: int, k: int|
            0 <= l < lines.len() && 0 <= k < stamps(lines[l]).len() implies all.contains(
            (#[trigger] stamps(lines[l])[k], text::trimmed(untagged(lines[l]))),
        ) by {
            let c = (stamps(lines[l])[k], text::trimmed(untagged(lines[l])));
            if l < before.len() {
                assert(before[l] == lines[l]);
                assert(old.contains((stamps(before[l])[k], text::trimmed(untagged(before[l])))));
                let i = choose|i: int| 0 <= i < old.len() && old[i] == c;
                assert(all[i] == c);
            } else {
                assert(new[k] == c);
                assert(all[old.len() + k] == c);
            }
        }
        assert forall|c: (int, Seq<char>)| #[trigger] all.contains(c) implies exists|l: int|
            0 <= l < lines.len() && c.1 == text::trimmed(untagged(#[trigger] lines[l])) && stamps(
                lines[l],
            ).contains(c.0) by {
            let i = choose|i: int| 0 <= i < all.len() && all[i] == c;
            if i < old.len() {
                assert(old[i] == c);
                assert(old.contains(c));
                let l = choose|l: int|
                    0 <= l < before.len() && c.1 == text::trimmed(untagged(#[trigger] before[l]))
                        && stamps(before[l]).contains(c.0);
                assert(lines[l] == before[l]);
            } else {
                let k = i - old.len();
                assert(new[k] == c);
                assert(stamps(lines.last())[k] == c.0);
                assert(lines[lines.len() - 1] == lines.last());
            }
        }
    }
}

} // verus!
