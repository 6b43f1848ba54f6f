//! The lyrics card: the lines around the one being sung.

use vstd::prelude::*;
use crate::lrc;
use crate::lrc::{LyricLine, Lyrics, Share};
use crate::media_cards;
use crate::message_cards;
use crate::panel;
use crate::panel::{Area, Bit, Card, Hue, Ink, Piece, Sweep};
use crate::state;
use crate::state::{MediaSource, MusicStats, WatchInfo};
use crate::text;
use crate::width;

verus! {

/// How many lines are shown at most.
pub const BAND: usize = 5;

/// In how many steps a line is sung.
pub const STEPS: u64 = 1_048_576;

// ---------------------------------------------------------------------------
// Rows around the active line.
// ---------------------------------------------------------------------------

/// One row of wrapped lyrics: which line it belongs to, its text, where it starts
/// in that line, and how long the line is.
#[verifier::ext_equal]
pub struct Sung {
    pub line: int,
    pub text: Seq<char>,
    pub start: int,
    pub total: int,
}

/// One row of wrapped lyrics.
pub struct Row {
    pub line: usize,
    pub text: String,
    pub start: usize,
    pub total: usize,
}

/// A row as a mathematical value.
pub open spec fn sung(r: Row) -> Sung {
    Sung { line: r.line as int, text: r.text@, start: r.start as int, total: r.total as int }
}

/// Rows as mathematical values.
pub open spec fn sung_all(v: Seq<Row>) -> Seq<Sung> {
    Seq::new(v.len(), |i: int| sung(v[i]))
}

/// The texts of lyrics.
pub open spec fn words_of(v: Seq<LyricLine>) -> Seq<Seq<char>> {
    Seq::new(v.len(), |i: int| v[i].text@)
}

/// The rows of one line: a note where it has no words.
pub open spec fn line_rows(lines: Seq<Seq<char>>, i: int, cells: nat) -> Seq<Sung> {
    if lines[i].len() == 0 {
        seq![Sung { line: i, text: "♪"@, start: 0, total: 1 }]
    } else {
        let parts = width::wrapped(lines[i], cells);
        let total = width::sum_len(parts);
        Seq::new(
            parts.len(),
            |j: int|
                Sung {
                    line: i,
                    text: parts[j],
                    start: width::sum_len(parts.take(j)) as int,
                    total: if total > 0 {
                        total as int
                    } else {
                        1
                    },
                },
        )
    }
}

/// The rows of the lines from `lo` up to `hi`.
pub open spec fn band_rows(lines: Seq<Seq<char>>, lo: int, hi: int, cells: nat) -> Seq<Sung>
    decreases hi - lo,
{
    if lo >= hi {
        seq![]
    } else {
        band_rows(lines, lo, hi - 1, cells) + line_rows(lines, hi - 1, cells)
    }
}

/// The first line that can be in sight.
pub open spec fn first_line(active: int, center: int, height: int) -> int {
    panel::minus(active, height + center)
}

/// The line behind the last one that can be in sight.
pub open spec fn past_line(n: int, active: int, height: int) -> int {
    message_cards::lesser(active + height + 1, n)
}

/// The row at which the active line starts.
pub open spec fn active_row(
    lines: Seq<Seq<char>>,
    active: int,
    center: int,
    height: int,
    cells: nat,
) -> int {
    if active < lines.len() {
        band_rows(lines, first_line(active, center, height), active, cells).len() as int
    } else {
        0
    }
}

/// How many rows the active line takes, one at least.
pub open spec fn active_height(lines: Seq<Seq<char>>, active: int, cells: nat) -> int {
    if active < lines.len() && line_rows(lines, active, cells).len() > 1 {
        line_rows(lines, active, cells).len() as int
    } else {
        1
    }
}

/// The row at the top of the band: the active line starts at the centre, moved up
/// as far as its last row needs, and at the top where it is taller than the band.
pub open spec fn top_row(start: int, tall: int, center: int, height: int) -> int {
    if tall > height {
        start
    } else if tall > height - center {
        start + tall - height
    } else {
        start - center
    }
}

/// The ink of a character of the active line.
pub open spec fn wipe_ink(at: int, total: int, lit: (int, int)) -> Ink {
    let full = (lit.0 * total) / lit.1;
    let p = Share { num: at as u64, den: total as u64 };
    if at < full {
        Ink::Wiped(p)
    } else if at == full {
        Ink::Wiping(p, Share { num: ((lit.0 * total) % lit.1) as u64, den: lit.1 as u64 })
    } else {
        Ink::Pending
    }
}

/// A row of the active line, character by character. `lit` is how much of the line
/// has been sung.
pub open spec fn karaoke(r: Sung, lit: (int, int)) -> Seq<Bit> {
    Seq::new(
        r.text.len(),
        |i: int| panel::strong(seq![r.text[i]], wipe_ink(r.start + i, r.total, lit)),
    )
}

/// A row as it is shown.
pub open spec fn shown_row(r: Sung, active: int, lit: Option<(int, int)>) -> Seq<Bit> {
    if r.text == "♪"@ {
        seq![panel::flat("♪"@, Hue::Faint)]
    } else if r.line == active {
        match lit {
            Some(l) => karaoke(r, l),
            None => seq![panel::bold(r.text, Hue::Pink)],
        }
    } else if r.line == active - 1 || r.line == active + 1 {
        seq![panel::flat(r.text, Hue::Dim)]
    } else {
        seq![panel::flat(r.text, Hue::Faint)]
    }
}

/// The band of lyrics: `height` rows around the active line.
pub open spec fn window_rows(
    lines: Seq<Seq<char>>,
    active: int,
    center: int,
    height: int,
    cells: nat,
    lit: Option<(int, int)>,
) -> Seq<Seq<Bit>> {
    let rows = band_rows(
        lines,
        first_line(active, center, height),
        past_line(lines.len() as int, active, height),
        cells,
    );
    let top = top_row(
        active_row(lines, active, center, height, cells),
        active_height(lines, active, cells),
        center,
        height,
    );
    Seq::new(
        height as nat,
        |k: int|
            if 0 <= top + k < rows.len() {
                shown_row(rows[top + k], active, lit)
            } else {
                seq![]
            },
    )
}

fn push_line_rows(rows: &mut Vec<Row>, lines: &Vec<LyricLine>, i: usize, cells: usize) -> (n: usize)
    requires
        i < lines@.len(),
    ensures
        sung_all(final(rows)@) == sung_all(old(rows)@) + line_rows(
            words_of(lines@),
            i as int,
            cells as nat,
        ),
        n == line_rows(words_of(lines@), i as int, cells as nat).len(),
{
    let ghost all = words_of(lines@);
    let ghost want = line_rows(all, i as int, cells as nat);
    let ghost before = sung_all(rows@);
    let chars = text::chars_of(lines[i].text.as_str());
    if chars.len() == 0 {
        rows.push(Row { line: i, text: "♪".to_string(), start: 0, total: 1 });
        proof {
            assert(sung_all(rows@) =~= before + want);
        }
        return 1;
    }
    let parts = width::wrap_text(lines[i].text.as_str(), cells);
    let ghost views = text::texts(parts@);
    proof {
        assert(all[i as int] == lines@[i as int].text@);
        assert(views.len() == parts@.len());
        width::wrapping_never_grows(all[i as int], cells as nat);
    }
    let mut total: usize = 0;
    let mut k: usize = 0;
    proof {
        assert(views.take(0) =~= Seq::<Seq<char>>::empty());
    }
    while k < parts.len()
        invariant
            k <= parts@.len(),
            views == text::texts(parts@),
            views.len() == parts@.len(),
            width::sum_len(views) <= chars@.len(),
            chars@.len() <= usize::MAX,
            total == width::sum_len(views.take(k as int)),
        decreases parts@.len() - k,
    {
        let c = text::chars_of(parts[k].as_str());
        proof {
            width::sum_len_grows(views, k + 1);
            assert(views.take(k + 1).drop_last() =~= views.take(k as int));
            assert(views[k as int] == parts@[k as int]@);
        }
        total += c.len();
        k += 1;
    }
    proof {
        assert(views.take(k as int) =~= views);
    }
    if total == 0 {
        total = 1;
    }
    let mut start: usize = 0;
    let mut j: usize = 0;
    proof {
        assert(want.take(0) =~= Seq::<Sung>::empty());
        assert(before + want.take(0) =~= before);
    }
    while j < parts.len()
        invariant
            i < lines@.len(),
            all == words_of(lines@),
            all[i as int].len() > 0,
            j <= parts@.len() == want.len(),
            views == text::texts(parts@),
            views.len() == parts@.len(),
            views == width::wrapped(all[i as int], cells as nat),
            want == line_rows(all, i as int, cells as nat),
            total == if width::sum_len(views) > 0 {
                width::sum_len(views)
            } else {
                1
            },
            width::sum_len(views) <= usize::MAX,
            start == width::sum_len(views.take(j as int)),
            sung_all(rows@) == before + want.take(j as int),
        decreases parts@.len() - j,
    {
        let c = text::chars_of(parts[j].as_str());
        let ghost so_far = sung_all(rows@);
        rows.push(Row { line: i, text: parts[j].clone(), start, total });
        proof {
            assert(views[j as int] == parts@[j as int]@);
            assert(sung_all(rows@) =~= so_far.push(want[j as int]));
            assert(before + want.take(j + 1) =~= (before + want.take(j as int)).push(
                want[j as int],
            ));
            width::sum_len_grows(views, j + 1);
            assert(views.take(j + 1).drop_last() =~= views.take(j as int));
        }
        start += c.len();
        j += 1;
    }
    proof {
        assert(want.take(j as int) =~= want);
    }
    parts.len()
}

fn karaoke_row(r: &Row, lit: (u64, u64)) -> (v: Vec<Piece>)
    requires
        0 < lit.1,
        lit.0 <= lit.1 <= u64::MAX,
        r.start + r.text@.len() <= usize::MAX,
    ensures
        panel::bits(v@) == karaoke(sung(*r), (lit.0 as int, lit.1 as int)),
{
    let ghost want = karaoke(sung(*r), (lit.0 as int, lit.1 as int));
    let chars = text::chars_of(r.text.as_str());
    let swept: u128 = mul_wide(lit.0, r.total as u64);
    let full: u128 = swept / lit.1 as u128;
    let part: u64 = (swept % lit.1 as u128) as u64;
    let mut v = panel::line();
    let mut i: usize = 0;
    proof {
        assert(panel::bits(v@) =~= want.take(0));
    }
    while i < chars.len()
        invariant
            chars@ == r.text@,
            i <= chars@.len() == want.len(),
            r.start + r.text@.len() <= usize::MAX,
            0 < lit.1,
            swept == lit.0 * r.total,
            full == swept as int / lit.1 as int,
            part == swept as int % lit.1 as int,
            want == karaoke(sung(*r), (lit.0 as int, lit.1 as int)),
            panel::bits(v@) == want.take(i as int),
        decreases chars@.len() - i,
    {
        let at: u64 = (r.start + i) as u64;
        let p = Share { num: at, den: r.total as u64 };
        let ink = if (at as u128) < full {
            Ink::Wiped(p)
        } else if at as u128 == full {
            Ink::Wiping(p, Share { num: part, den: lit.1 })
        } else {
            Ink::Pending
        };
        let mut one = String::new();
        one.push(chars[i]);
        proof {
            assert(one@ =~= seq![r.text@[i as int]]);
            assert(want.take(i + 1) =~= want.take(i as int).push(want[i as int]));
        }
        panel::push_strong(&mut v, one, ink);
        i += 1;
    }
    proof {
        assert(want.take(i as int) =~= want);
    }
    v
}

fn mul_wide(a: u64, b: u64) -> (r: u128)
    ensures
        r == a * b,
{
    proof {
        assert(a * b <= 0xffff_ffff_ffff_ffff * 0xffff_ffff_ffff_ffff) by (nonlinear_arith)
            requires
                0 <= a <= 0xffff_ffff_ffff_ffff,
                0 <= b <= 0xffff_ffff_ffff_ffff,
        ;
    }
    a as u128 * b as u128
}

/// A row stays within its line.
pub open spec fn row_ok(r: Sung) -> bool {
    0 < r.total && r.start + r.text.len() <= usize::MAX
}

fn show_row(r: &Row, active: u128, lit: Option<(u64, u64)>) -> (v: Vec<Piece>)
    requires
        row_ok(sung(*r)),
        lit matches Some(l) ==> 0 < l.1 && l.0 <= l.1,
    ensures
        panel::bits(v@) == shown_row(sung(*r), active as int, pair(lit)),
{
    if text::same_str(r.text.as_str(), "♪") {
        return panel::flat_line("♪", Hue::Faint);
    }
    let here: u128 = r.line as u128;
    if here == active {
        return match lit {
            Some(l) => karaoke_row(r, l),
            None => {
                let mut v = panel::line();
                panel::push_bold(&mut v, r.text.as_str(), Hue::Pink);
                proof {
                    assert(panel::bits(v@) =~= seq![panel::bold(r.text@, Hue::Pink)]);
                }
                v
            },
        };
    }
    let near = if here < active {
        active - here == 1
    } else {
        here - active == 1
    };
    panel::flat_line(
        r.text.as_str(),
        if near {
            Hue::Dim
        } else {
            Hue::Faint
        },
    )
}

/// A pair of numbers as mathematical values.
pub open spec fn pair(p: Option<(u64, u64)>) -> Option<(int, int)> {
    match p {
        Some(l) => Some((l.0 as int, l.1 as int)),
        None => None,
    }
}

proof fn line_rows_ok(lines: Seq<LyricLine>, i: int, cells: nat)
    requires
        0 <= i < lines.len(),
        lines[i].text@.len() <= usize::MAX,
    ensures
        forall|j: int|
            0 <= j < line_rows(words_of(lines), i, cells).len() ==> row_ok(
                #[trigger] line_rows(words_of(lines), i, cells)[j],
            ),
{
    let all = words_of(lines);
    reveal_strlit("♪");
    if all[i].len() > 0 {
        let parts = width::wrapped(all[i], cells);
        width::wrapping_never_grows(all[i], cells);
        assert forall|j: int| 0 <= j < line_rows(all, i, cells).len() implies row_ok(
            #[trigger] line_rows(all, i, cells)[j],
        ) by {
            width::sum_len_grows(parts, j + 1);
            assert(parts.take(j + 1).drop_last() =~= parts.take(j));
        }
    }
}

fn fits_memory(s: &str)
    ensures
        s@.len() <= usize::MAX,
{
    let c = text::chars_of(s);
    let n: usize = c.len();
    proof {
        assert(s@.len() == n);
    }
}

/// The rows of the lines from `lo` up to `hi`, the row at which the active line
/// starts, and how many rows it takes.
fn gather(lines: &Vec<LyricLine>, lo: usize, hi: usize, active: u128, cells: usize) -> (r: (
    Vec<Row>,
    usize,
    usize,
))
    requires
        lo <= hi <= lines@.len(),
        lo <= active,
    ensures
        sung_all(r.0@) == band_rows(words_of(lines@), lo as int, hi as int, cells as nat),
        forall|k: int| 0 <= k < r.0@.len() ==> row_ok(#[trigger] sung_all(r.0@)[k]),
        r.1 == if active < hi {
            band_rows(words_of(lines@), lo as int, active as int, cells as nat).len() as int
        } else {
            0
        },
        r.2 == if active < hi {
            active_height(words_of(lines@), active as int, cells as nat)
        } else {
            1
        },
{
    let ghost all = words_of(lines@);
    let mut rows: Vec<Row> = Vec::new();
    let mut start: usize = 0;
    let mut tall: usize = 1;
    let mut i: usize = lo;
    proof {
        assert(sung_all(rows@) =~= band_rows(all, lo as int, lo as int, cells as nat));
        assert(all.len() == lines@.len());
    }
    while i < hi
        invariant
            lo <= i <= hi <= lines@.len() == all.len(),
            all == words_of(lines@),
            sung_all(rows@) == band_rows(all, lo as int, i as int, cells as nat),
            forall|k: int| 0 <= k < rows@.len() ==> row_ok(#[trigger] sung_all(rows@)[k]),
            start == if active < i {
                band_rows(all, lo as int, active as int, cells as nat).len() as int
            } else {
                0
            },
            tall == if active < i {
                active_height(all, active as int, cells as nat)
            } else {
                1
            },
            lo <= active,
        decreases hi - i,
    {
        fits_memory(lines[i].text.as_str());
        let ghost before = sung_all(rows@);
        proof {
            assert(before.len() == rows@.len());
        }
        if i as u128 == active {
            start = rows.len();
        }
        let k = push_line_rows(&mut rows, lines, i, cells);
        if i as u128 == active && k > 1 {
            tall = k;
        }
        proof {
            line_rows_ok(lines@, i as int, cells as nat);
            let added = line_rows(all, i as int, cells as nat);
            assert(sung_all(rows@).len() == rows@.len());
            assert forall|k: int| 0 <= k < rows@.len() implies row_ok(
                #[trigger] sung_all(rows@)[k],
            ) by {
                if k < before.len() {
                    assert(sung_all(rows@)[k] == before[k]);
                } else {
                    assert(sung_all(rows@)[k] == added[k - before.len()]);
                }
            }
        }
        i += 1;
    }
    (rows, start, tall)
}

/// The band of lyrics around the active line. Where `lit` is given, that much of the
/// active line is shown as sung.
#[verifier::rlimit(40)]
pub fn window(
    lines: &Vec<LyricLine>,
    active: u128,
    center: usize,
    height: usize,
    cells: usize,
    lit: Option<(u64, u64)>,
) -> (r: Vec<Vec<Piece>>)
    requires
        lit matches Some(l) ==> 0 < l.1 && l.0 <= l.1,
        active <= i128::MAX,
    ensures
        panel::rows(r@) == window_rows(
            words_of(lines@),
            active as int,
            center as int,
            height as int,
            if cells > 4 {
                cells as nat
            } else {
                4
            },
            pair(lit),
        ),
{
    let cells: usize = if cells > 4 {
        cells
    } else {
        4
    };
    let ghost all = words_of(lines@);
    let n: usize = lines.len();
    let reach: u128 = height as u128 + center as u128;
    let lo: u128 = if active > reach {
        active - reach
    } else {
        0
    };
    let past: u128 = active + height as u128 + 1;
    let hi: u128 = if past < n as u128 {
        past
    } else {
        n as u128
    };
    proof {
        assert(all.len() == n);
    }
    let (rows, start, tall) = if lo < hi {
        gather(lines, lo as usize, hi as usize, active, cells)
    } else {
        let none: Vec<Row> = Vec::new();
        proof {
            assert(sung_all(none@) =~= band_rows(all, lo as int, hi as int, cells as nat));
        }
        (none, 0, 1)
    };
    let top: i128 = if tall > height {
        start as i128
    } else if tall as i128 > height as i128 - center as i128 {
        start as i128 + tall as i128 - height as i128
    } else {
        start as i128 - center as i128
    };
    let ghost want = window_rows(
        all,
        active as int,
        center as int,
        height as int,
        cells as nat,
        pair(lit),
    );
    let mut out: Vec<Vec<Piece>> = Vec::new();
    let mut k: usize = 0;
    let count: usize = rows.len();
    proof {
        assert(panel::rows(out@) =~= want.take(0));
        assert(sung_all(rows@).len() == count);
    }
    while k < height
        invariant
            k <= height == want.len(),
            count == rows@.len(),
            lit matches Some(l) ==> 0 < l.1 && l.0 <= l.1,
            forall|j: int| 0 <= j < rows@.len() ==> row_ok(#[trigger] sung_all(rows@)[j]),
            -0x1_0000_0000_0000_0000 <= top <= 0x2_0000_0000_0000_0000,
            forall|j: int|
                0 <= j < height ==> #[trigger] want[j] == if 0 <= top + j < count {
                    shown_row(sung_all(rows@)[top + j], active as int, pair(lit))
                } else {
                    seq![]
                },
            panel::rows(out@) == want.take(k as int),
        decreases height - k,
    {
        let at: i128 = top + k as i128;
        let l = if 0 <= at && at < count as i128 {
            let j: usize = at as usize;
            proof {
                assert(sung_all(rows@)[j as int] == sung(rows@[j as int]));
            }
            show_row(&rows[j], active, lit)
        } else {
            panel::line()
        };
        proof {
            assert(panel::bits(l@) =~= want[k as int]);
            assert(want.take(k + 1) =~= want.take(k as int).push(want[k as int]));
        }
        panel::push_row(&mut out, l);
        k += 1;
    }
    proof {
        assert(want.take(k as int) =~= want);
    }
    out
}

// ---------------------------------------------------------------------------
// The card.
// ---------------------------------------------------------------------------

/// The inside of the lyrics card.
pub enum LyricsBody {
    /// One centred line at the top.
    Note(Vec<Piece>),
    /// No lyrics: a caption, and bars of so many rows; `bars` is where they are drawn,
    /// if there is room.
    Quiet { caption: Vec<Piece>, at: Area, bars: Option<Area> },
    /// Centred lines.
    Band { lines: Vec<Vec<Piece>>, at: Area },
}

/// The inside of the lyrics card, as a mathematical value.
pub enum LyricsInside {
    Note(Seq<Bit>),
    Quiet { caption: Seq<Bit>, at: Area, bars: Option<Area> },
    Band { lines: Seq<Seq<Bit>>, at: Area },
}

/// The inside of the lyrics card as a mathematical value.
pub open spec fn lyrics_view(b: LyricsBody) -> LyricsInside {
    match b {
        LyricsBody::Note(l) => LyricsInside::Note(panel::bits(l@)),
        LyricsBody::Quiet { caption, at, bars } => LyricsInside::Quiet {
            caption: panel::bits(caption@),
            at,
            bars,
        },
        LyricsBody::Band { lines, at } => LyricsInside::Band { lines: panel::rows(lines@), at },
    }
}

/// How many rows the bars have: what the caption leaves, two to four.
pub open spec fn bar_rows(h: int) -> int {
    if h < 4 {
        2
    } else if h < 6 {
        h - 2
    } else {
        4
    }
}

/// What is shown of a track without lyrics.
pub open spec fn quiet_inside(a: Area, note: Seq<char>) -> LyricsInside {
    let rows = bar_rows(a.height as int);
    LyricsInside::Quiet {
        caption: seq![
            panel::flat("♫  "@, Hue::Faint),
            panel::flat(note, Hue::Dim),
            panel::flat("  ♫"@, Hue::Faint),
        ],
        at: Area {
            x: a.x,
            y: (a.y + panel::minus(a.height as int, rows) / 2) as u16,
            width: a.width,
            height: 1,
        },
        bars: if a.width >= 4 {
            Some(
                Area {
                    x: a.x,
                    y: (a.y + a.height - rows) as u16,
                    width: a.width,
                    height: rows as u16,
                },
            )
        } else {
            None
        },
    }
}

/// The band within the card: at most five rows, centred.
pub open spec fn band_area(a: Area) -> Area {
    let height = message_cards::lesser(a.height as int, BAND as int);
    Area {
        x: a.x,
        y: (a.y + (a.height - height) / 2) as u16,
        width: a.width,
        height: height as u16,
    }
}

/// The row of the band at which the active line is meant to start.
pub open spec fn center_of(height: int) -> int {
    message_cards::lesser(height / 2, 2)
}

/// How far along plain lyrics are: as far as the track is.
pub open spec fn scrolled(n: nat, m: MusicStats, now: u64) -> int {
    let pos = state::position_at(m, now);
    if m.duration > 0 && pos > 0 {
        (n * pos) / m.duration as int
    } else {
        0
    }
}

/// How much of a line has been sung, in steps.
pub open spec fn steps(s: (int, int)) -> int {
    if s.1 > 0 {
        (s.0 * STEPS) / s.1
    } else {
        0
    }
}

/// How much of a line is lit, eased in and out: the cubic that starts and ends slowly.
pub open spec fn eased(x: int) -> (int, int) {
    (x * x * (3 * STEPS - 2 * x), STEPS * STEPS * STEPS)
}

/// The line being sung and how much of it is lit; the first line before it starts.
pub open spec fn singing(list: Seq<(int, Seq<char>)>, pos: int) -> (int, (int, int)) {
    let k = lrc::reached(list, pos, 0);
    if k == 0 {
        (0, eased(0))
    } else {
        (
            k - 1,
            eased(steps(lrc::passed(list[k - 1].0, lrc::line_end(list, k - 1), pos))),
        )
    }
}

/// The inside of the lyrics card.
pub open spec fn lyrics_inside(a: Area, ly: Lyrics, m: MusicStats, now: u64) -> LyricsInside {
    let band = band_area(a);
    let height = band.height as int;
    let cells: nat = if a.width > 4 {
        a.width as nat
    } else {
        4
    };
    if media_cards::silent(m) {
        LyricsInside::Note(seq![panel::flat("♫"@, Hue::Faint)])
    } else if ly.track_id@ != state::identity(m) {
        LyricsInside::Note(seq![panel::flat("loading lyrics…"@, Hue::Dim)])
    } else if ly.lines@.len() == 0 {
        if ly.note@.len() == 0 {
            LyricsInside::Note(seq![panel::flat("…"@, Hue::Dim)])
        } else if text::holds(ly.note@, "loading"@) {
            LyricsInside::Note(seq![panel::flat(ly.note@, Hue::Dim)])
        } else {
            quiet_inside(a, ly.note@)
        }
    } else if ly.synced {
        let (active, lit) = singing(lrc::cues(ly.lines@), state::position_at(m, now));
        LyricsInside::Band {
            lines: window_rows(
                words_of(ly.lines@),
                active,
                center_of(height),
                height,
                cells,
                Some(lit),
            ),
            at: band,
        }
    } else {
        LyricsInside::Band {
            lines: window_rows(
                words_of(ly.lines@),
                scrolled(ly.lines@.len(), m, now),
                center_of(height),
                height,
                cells,
                None,
            ),
            at: band,
        }
    }
}

fn scroll_to(n: usize, m: &MusicStats, now: u64) -> (r: u128)
    requires
        n <= u64::MAX,
    ensures
        r == scrolled(n as nat, *m, now),
        r <= i128::MAX,
{
    let pos: i64 = m.position(now);
    if m.duration > 0 && pos > 0 {
        proof {
            assert(n * pos <= 0x7fff_ffff_ffff_ffff_ffff_ffff_ffff_ffff && 0 <= n * pos) by (
            nonlinear_arith)
                requires
                    0 <= n <= 0xffff_ffff_ffff_ffff,
                    0 <= pos <= 0x7fff_ffff_ffff_ffff,
            ;
            assert((n * pos) / m.duration as int <= n * pos) by (nonlinear_arith)
                requires
                    0 <= n * pos,
                    0 < m.duration,
            ;
        }
        mul_wide(n as u64, pos as u64) / m.duration as u128
    } else {
        0
    }
}

fn ease(s: Share) -> (r: (u64, u64))
    requires
        s.num <= s.den,
    ensures
        (r.0 as int, r.1 as int) == eased(steps((s.num as int, s.den as int))),
        0 < r.1,
        r.0 <= r.1,
{
    let x: u64 = if s.den > 0 {
        let wide: u128 = mul_wide(s.num, STEPS);
        proof {
            assert((s.num * STEPS) / s.den as int <= STEPS) by (nonlinear_arith)
                requires
                    0 < s.den,
                    0 <= s.num <= s.den,
            ;
            assert((s.num * STEPS) / s.den as int >= 0) by (nonlinear_arith)
                requires
                    0 < s.den,
                    0 <= s.num,
            ;
        }
        (wide / s.den as u128) as u64
    } else {
        0
    };
    proof {
        assert(x <= STEPS);
        assert(0 <= x * x <= STEPS * STEPS && x * x * (3 * STEPS - 2 * x) <= STEPS * STEPS * STEPS
            && x * x * (3 * STEPS - 2 * x) >= 0) by (nonlinear_arith)
            requires
                0 <= x <= STEPS,
                STEPS == 1_048_576,
        ;
    }
    (x * x * (3 * STEPS - 2 * x), 1_152_921_504_606_846_976)
}

fn quiet_body(a: Area, note: &str) -> (r: LyricsBody)
    requires
        a.y + a.height <= u16::MAX,
        a.y + a.height >= 2,
    ensures
        lyrics_view(r) == quiet_inside(a, note@),
{
    let rows: u16 = if a.height < 4 {
        2
    } else if a.height < 6 {
        a.height - 2
    } else {
        4
    };
    let upper: u16 = if a.height > rows {
        a.height - rows
    } else {
        0
    };
    let mut caption = panel::line();
    panel::push_flat(&mut caption, "♫  ", Hue::Faint);
    panel::push_flat(&mut caption, note, Hue::Dim);
    panel::push_flat(&mut caption, "  ♫", Hue::Faint);
    let bars = if a.width >= 4 {
        Some(Area { x: a.x, y: a.y + a.height - rows, width: a.width, height: rows })
    } else {
        None
    };
    let at = Area { x: a.x, y: a.y + upper / 2, width: a.width, height: 1 };
    proof {
        assert(panel::bits(caption@) =~= quiet_inside(a, note@)->caption);
    }
    LyricsBody::Quiet { caption, at, bars }
}

fn lyrics_body(a: Area, ly: &Lyrics, m: &MusicStats, now: u64) -> (r: LyricsBody)
    requires
        a.y + a.height <= u16::MAX,
        a.y + a.height >= 2,
    ensures
        lyrics_view(r) == lyrics_inside(a, *ly, *m, now),
{
    if media_cards::is_silent(m) {
        return LyricsBody::Note(panel::flat_line("♫", Hue::Faint));
    }
    if !text::same_str(ly.track_id.as_str(), m.track_id().as_str()) {
        return LyricsBody::Note(panel::flat_line("loading lyrics…", Hue::Dim));
    }
    let n: usize = ly.lines.len();
    if n == 0 {
        if text::chars_of(ly.note.as_str()).len() == 0 {
            return LyricsBody::Note(panel::flat_line("…", Hue::Dim));
        }
        if text::contains(ly.note.as_str(), "loading") {
            return LyricsBody::Note(panel::flat_line(ly.note.as_str(), Hue::Dim));
        }
        return quiet_body(a, ly.note.as_str());
    }
    let height: u16 = if a.height < 5 {
        a.height
    } else {
        5
    };
    let center: u16 = if height / 2 < 2 {
        height / 2
    } else {
        2
    };
    let at = Area { x: a.x, y: a.y + (a.height - height) / 2, width: a.width, height };
    let cells: usize = a.width as usize;
    if ly.synced {
        let (active, share) = match ly.active(m.position(now)) {
            Some((i, s)) => (i, s),
            None => (0, Share { num: 0, den: 1 }),
        };
        let lit = ease(share);
        let lines = window(
            &ly.lines,
            active as u128,
            center as usize,
            height as usize,
            cells,
            Some(lit),
        );
        return LyricsBody::Band { lines, at };
    }
    let goal: u128 = scroll_to(n, m, now);
    let lines = window(&ly.lines, goal, center as usize, height as usize, cells, None);
    LyricsBody::Band { lines, at }
}

/// The lyrics card: its title and its inside.
pub struct LyricsCard {
    pub title: Vec<Piece>,
    pub body: LyricsBody,
}

/// The lyrics card. `area` is the whole card.
pub fn lyrics_card(area: Area, ly: &Lyrics, m: &MusicStats, now: u64) -> (r: LyricsCard)
    requires
        area.wf(),
        panel::inside(area).y + panel::inside(area).height >= 2,
    ensures
        panel::bits(r.title@) == seq![panel::bold(" LYRICS  "@, Hue::Accent)],
        lyrics_view(r.body) == lyrics_inside(panel::inside(area), *ly, *m, now),
{
    let mut title = panel::line();
    panel::push_bold(&mut title, " LYRICS  ", Hue::Accent);
    proof {
        assert(panel::bits(title@) =~= seq![panel::bold(" LYRICS  "@, Hue::Accent)]);
    }
    LyricsCard { title, body: lyrics_body(panel::inner(area), ly, m, now) }
}

/// What stands below the player.
pub enum BelowPlayer {
    Lyrics(LyricsCard),
    Watch(Card),
}

/// The card below the player: lyrics for a song, the synopsis for a film. `now` is
/// the time by which the player is read and `t` the time on the wall.
pub fn below_player(
    area: Area,
    ly: &Lyrics,
    w: &WatchInfo,
    m: &MusicStats,
    now: u64,
    t: u64,
) -> (r: BelowPlayer)
    requires
        area.wf(),
        panel::inside(area).y + panel::inside(area).height >= 2,
    ensures
        match r {
            BelowPlayer::Watch(c) => {
                &&& m.source == MediaSource::Tv
                &&& c.flash is None && c.sweep == Sweep::Still
                &&& panel::bits(c.title@) == media_cards::watch_title(*m, area.width as int)
                &&& panel::body_view(c.body) == media_cards::watch_inside(
                    panel::inside(area),
                    *w,
                    *m,
                    t,
                )
            },
            BelowPlayer::Lyrics(c) => {
                &&& m.source == MediaSource::Music
                &&& panel::bits(c.title@) == seq![panel::bold(" LYRICS  "@, Hue::Accent)]
                &&& lyrics_view(c.body) == lyrics_inside(panel::inside(area), *ly, *m, now)
            },
        },
{
    if m.is_tv() {
        BelowPlayer::Watch(media_cards::watch_synopsis_card(area, w, m, t))
    } else {
        BelowPlayer::Lyrics(lyrics_card(area, ly, m, now))
    }
}

// ---------------------------------------------------------------------------
// Laws of the lyrics card.
// ---------------------------------------------------------------------------

proof fn band_holds_a_line(lines: Seq<Seq<char>>, lo: int, hi: int, i: int, cells: nat)
    requires
        lo <= i < hi,
    ensures
        ({
            let rows = band_rows(lines, lo, hi, cells);
            let start = band_rows(lines, lo, i, cells).len();
            let own = line_rows(lines, i, cells);
            &&& start + own.len() <= rows.len()
            &&& forall|j: int| 0 <= j < own.len() ==> rows[start + j] == #[trigger] own[j]
        }),
    decreases hi - lo,
{
    if i < hi - 1 {
        band_holds_a_line(lines, lo, hi - 1, i, cells);
        let front = band_rows(lines, lo, hi - 1, cells);
        let rows = band_rows(lines, lo, hi, cells);
        let start = band_rows(lines, lo, i, cells).len();
        let own = line_rows(lines, i, cells);
        assert forall|j: int| 0 <= j < own.len() implies rows[start + j] == #[trigger] own[j] by {
            assert(rows[start + j] == front[start + j]);
        }
    }
}

/// The line being sung is never clipped: where it fits the band, each of its rows is
/// shown; where it is taller, it is shown from its first row.
pub proof fn active_line_stays_in_sight(
    lines: Seq<Seq<char>>,
    active: int,
    center: int,
    height: int,
    cells: nat,
    lit: Option<(int, int)>,
    j: int,
)
    requires
        0 <= active < lines.len(),
        0 <= center <= height,
        0 <= j < line_rows(lines, active, cells).len(),
        line_rows(lines, active, cells).len() <= height || j < height,
    ensures
        ({
            let start = active_row(lines, active, center, height, cells);
            let tall = active_height(lines, active, cells);
            let k = start + j - top_row(start, tall, center, height);
            &&& 0 <= k < height
            &&& window_rows(lines, active, center, height, cells, lit)[k] == shown_row(
                line_rows(lines, active, cells)[j],
                active,
                lit,
            )
        }),
{
    let lo = first_line(active, center, height);
    let hi = past_line(lines.len() as int, active, height);
    band_holds_a_line(lines, lo, hi, active, cells);
    let own = line_rows(lines, active, cells);
    assert(band_rows(lines, lo, hi, cells)[active_row(lines, active, center, height, cells) + j]
        == own[j]);
}

/// The rows of a line follow each other without a gap, and the last one ends where
/// the line ends: the light runs through them as through one line.
pub proof fn rows_run_on(lines: Seq<Seq<char>>, i: int, cells: nat, j: int)
    requires
        0 <= j < line_rows(lines, i, cells).len(),
        lines[i].len() > 0,
    ensures
        ({
            let rows = line_rows(lines, i, cells);
            let end = rows[j].start + rows[j].text.len();
            &&& j == 0 ==> rows[j].start == 0
            &&& j + 1 < rows.len() ==> rows[j + 1].start == end
            &&& j + 1 == rows.len() ==> end == rows[j].total
        }),
{
    let parts = width::wrapped(lines[i], cells);
    assert(parts.take(j + 1).drop_last() =~= parts.take(j));
    assert(parts.take(0) =~= Seq::<Seq<char>>::empty());
    if j + 1 == parts.len() {
        assert(parts.take(j + 1) =~= parts);
        width::wrapped_lines_fit(lines[i], cells);
    }
}

/// A line starts dark, ends lit, and never goes dark again on the way.
pub proof fn light_only_grows(x: int, y: int)
    requires
        0 <= x <= y <= STEPS,
    ensures
        eased(0).0 == 0,
        eased(STEPS as int).0 == eased(STEPS as int).1,
        eased(x).0 <= eased(y).0,
{
    let s = STEPS as int;
    assert(s * s * (3 * s - 2 * s) == s * s * s) by (nonlinear_arith);
    assert(x * x * (3 * s - 2 * x) <= y * y * (3 * s - 2 * y)) by (nonlinear_arith)
        requires
            0 <= x <= y <= s,
    {
        assert(y * y * (3 * s - 2 * y) - x * x * (3 * s - 2 * x) == (y - x) * (3 * s * (x + y) - 2
            * (x * x + x * y + y * y)));
        assert(x * x <= s * x && x * y <= s * y && y * y <= s * y && x * y <= s * x);
        assert(3 * s * (x + y) - 2 * (x * x + x * y + y * y) >= 0);
    }
}

/// The line being sung is lit character by character: those whose whole place has been sung are
/// lit, the one that is being sung is lit by what of it has been sung, and those still to come
/// are dark. Each knows how far into the line it stands.
pub proof fn characters_are_lit_one_by_one(at: int, total: int, lit: (int, int))
    requires
        0 <= at < total <= usize::MAX,
        0 <= lit.0 <= lit.1,
        0 < lit.1 <= u64::MAX,
    ensures
        (at + 1) * lit.1 <= lit.0 * total ==> wipe_ink(at, total, lit) == Ink::Wiped(
            Share { num: at as u64, den: total as u64 },
        ),
        at * lit.1 <= lit.0 * total < (at + 1) * lit.1 ==> wipe_ink(at, total, lit) == Ink::Wiping(
            Share { num: at as u64, den: total as u64 },
            Share { num: (lit.0 * total - at * lit.1) as u64, den: lit.1 as u64 },
        ),
        lit.0 * total < at * lit.1 ==> wipe_ink(at, total, lit) == Ink::Pending,
{
    let a = lit.0 * total;
    let d = lit.1;
    let full = a / d;
    assert((at + 1) * d == at * d + d) by (nonlinear_arith);
    vstd::arithmetic::div_mod::lemma_fundamental_div_mod(a, d);
    if (at + 1) * d <= a {
        assert(at < full) by (nonlinear_arith)
            requires
                (at + 1) * d <= a,
                a == d * full + a % d,
                0 <= a % d < d,
                d > 0,
        ;
    } else if at * d <= a {
        assert(at == full) by (nonlinear_arith)
            requires
                at * d <= a < (at + 1) * d,
                a == d * full + a % d,
                0 <= a % d < d,
                d > 0,
        ;
        assert(a % d == a - at * d) by (nonlinear_arith)
            requires
                at == full,
                a == d * full + a % d,
        ;
    } else {
        assert(at > full) by (nonlinear_arith)
            requires
                a < at * d,
                a == d * full + a % d,
                0 <= a % d < d,
                d > 0,
        ;
    }
}

/// A row of the line being sung shows each of its characters, bold, in its place.
pub proof fn sung_rows_show_every_character(r: Sung, lit: (int, int), i: int)
    requires
        0 <= i < r.text.len(),
    ensures
        karaoke(r, lit).len() == r.text.len(),
        karaoke(r, lit)[i].text == seq![r.text[i]],
        karaoke(r, lit)[i].bold,
        karaoke(r, lit)[i].ink == wipe_ink(r.start + i, r.total, lit),
{
}

/// Lines next to the one being sung are dim, those further off are faint, and a line without
/// words is a faint note wherever it stands.
pub proof fn lines_fade_with_distance(r: Sung, active: int, lit: Option<(int, int)>)
    ensures
        r.text == "♪"@ ==> shown_row(r, active, lit) == seq![panel::flat("♪"@, Hue::Faint)],
        r.text != "♪"@ && (r.line - active == 1 || active - r.line == 1) ==> shown_row(
            r,
            active,
            lit,
        ) == seq![panel::flat(r.text, Hue::Dim)],
        r.text != "♪"@ && (r.line - active > 1 || active - r.line > 1) ==> shown_row(r, active, lit)
            == seq![panel::flat(r.text, Hue::Faint)],
        r.text != "♪"@ && r.line == active && lit is None ==> shown_row(r, active, lit) == seq![
            panel::bold(r.text, Hue::Pink),
        ],
{
}

/// A line of one row stands at the centre of the band.
pub proof fn active_line_stands_at_the_centre(
    lines: Seq<Seq<char>>,
    active: int,
    center: int,
    height: int,
    cells: nat,
    lit: Option<(int, int)>,
)
    requires
        0 <= active < lines.len(),
        0 <= center < height,
        line_rows(lines, active, cells).len() == 1,
    ensures
        window_rows(lines, active, center, height, cells, lit).len() == height,
        window_rows(lines, active, center, height, cells, lit)[center] == shown_row(
            line_rows(lines, active, cells)[0],
            active,
            lit,
        ),
{
    let lo = first_line(active, center, height);
    let hi = past_line(lines.len() as int, active, height);
    band_holds_a_line(lines, lo, hi, active, cells);
}

/// A line with words is shown in the rows that it is wrapped into, one without as a note.
pub proof fn lines_are_wrapped(lines: Seq<Seq<char>>, i: int, cells: nat, j: int)
    requires
        0 <= i < lines.len(),
        0 <= j < line_rows(lines, i, cells).len(),
    ensures
        lines[i].len() == 0 ==> line_rows(lines, i, cells).len() == 1 && line_rows(
            lines,
            i,
            cells,
        )[j].text == "♪"@,
        lines[i].len() > 0 ==> line_rows(lines, i, cells).len() == width::wrapped(
            lines[i],
            cells,
        ).len() && line_rows(lines, i, cells)[j].text == width::wrapped(lines[i], cells)[j],
        line_rows(lines, i, cells)[j].line == i,
{
}

/// The band has at most five rows, lies in the card and has as much above as below, or one row
/// less.
pub proof fn band_lies_in_the_middle(a: Area)
    requires
        a.y + a.height <= u16::MAX,
    ensures
        ({
            let b = band_area(a);
            let above = b.y - a.y;
            let below = a.y + a.height - b.y - b.height;
            &&& b.x == a.x && b.width == a.width
            &&& a.height >= 5 ==> b.height == 5
            &&& a.height < 5 ==> b.height == a.height
            &&& 0 <= above <= below <= above + 1
        }),
        center_of(5) == 2,
        center_of(4) == 2,
        center_of(3) == 1,
        center_of(2) == 1,
        center_of(1) == 0,
{
}

/// Plain lyrics go as far as the track has: of `n` lines the one is in the middle whose part of
/// the track is being played.
pub proof fn plain_lyrics_go_with_the_track(n: nat, m: MusicStats, now: u64)
    requires
        m.duration > 0,
    ensures
        ({
            let pos = state::position_at(m, now);
            let k = scrolled(n, m, now);
            &&& pos <= 0 ==> k == 0
            &&& pos > 0 ==> k * m.duration <= n * pos < (k + 1) * m.duration
        }),
{
    let pos = state::position_at(m, now);
    if pos > 0 {
        let d = m.duration as int;
        let k = (n * pos) / d;
        vstd::arithmetic::div_mod::lemma_fundamental_div_mod(n * pos, d);
        assert(k * d == d * k && (k + 1) * d == d * k + d) by (nonlinear_arith);
    }
}

/// How much of a line is lit follows the share that has been sung to a millionth, and is eased:
/// it goes as slowly out as in, and is half at the half.
pub proof fn light_follows_the_voice(num: int, den: int, x: int)
    requires
        0 <= num <= den,
        0 < den,
        0 <= x <= 1_048_576,
    ensures
        steps((num, den)) * den <= num * 1_048_576 < (steps((num, den)) + 1) * den,
        0 <= steps((num, den)) <= 1_048_576,
        eased(x).1 == 1_048_576 * 1_048_576 * 1_048_576,
        eased(x).0 + eased(1_048_576 - x).0 == eased(x).1,
        eased(262_144).0 * 64 == 10 * eased(262_144).1,
{
    let a = num * 1_048_576;
    let k = a / den;
    vstd::arithmetic::div_mod::lemma_fundamental_div_mod(a, den);
    assert(k * den == den * k && (k + 1) * den == den * k + den) by (nonlinear_arith);
    assert(0 <= k <= 1_048_576) by (nonlinear_arith)
        requires
            0 <= a <= den * 1_048_576,
            a == den * k + a % den,
            0 <= a % den < den,
    ;
    let d = 1_048_576int;
    let q = 262_144int;
    assert(q * q * (3 * d - 2 * q) * 64 == 10 * (d * d * d)) by (nonlinear_arith)
        requires
            d == 4 * q,
    ;
    assert(x * x * (3 * d - 2 * x) + (d - x) * (d - x) * (3 * d - 2 * (d - x)) == d * d * d)
        by (nonlinear_arith);
}

/// The line being sung is the last one that has started, and its light follows the time between
/// its start and that of the next; before the first line, that one is shown dark.
pub proof fn card_shows_the_line_being_sung(list: Seq<(int, Seq<char>)>, pos: int, i: int)
    requires
        0 <= i < list.len(),
        forall|j: int| 0 <= j <= i ==> (#[trigger] list[j]).0 <= pos,
        i + 1 < list.len() ==> list[i + 1].0 > pos,
    ensures
        singing(list, pos).0 == i,
        i + 1 < list.len() ==> singing(list, pos).1 == eased(
            ((pos - list[i].0) * 1_048_576) / (list[i + 1].0 - list[i].0),
        ),
        i + 1 == list.len() && pos < list[i].0 + 4_000_000_000 ==> singing(list, pos).1 == eased(
            ((pos - list[i].0) * 1_048_576) / 4_000_000_000,
        ),
        i + 1 == list.len() && pos >= list[i].0 + 4_000_000_000 ==> singing(list, pos).1 == eased(
            1_048_576,
        ),
{
    reached_is(list, pos, 0, i + 1);
    if i + 1 == list.len() && pos >= list[i].0 + 4_000_000_000 {
        assert((4_000_000_000int * 1_048_576) / 4_000_000_000int == 1_048_576);
    }
}

proof fn reached_is(list: Seq<(int, Seq<char>)>, pos: int, from: int, k: int)
    requires
        0 <= from <= k <= list.len(),
        forall|j: int| from <= j < k ==> (#[trigger] list[j]).0 <= pos,
        k < list.len() ==> list[k].0 > pos,
    ensures
        lrc::reached(list, pos, from) == k,
    decreases k - from,
{
    if from < k {
        reached_is(list, pos, from + 1, k);
    }
}

/// Before the first line starts, it is shown dark.
pub proof fn first_line_waits_in_the_dark(list: Seq<(int, Seq<char>)>, pos: int)
    requires
        list.len() > 0,
        list[0].0 > pos,
    ensures
        singing(list, pos).0 == 0,
        singing(list, pos).1.0 == 0,
        singing(list, pos).1.1 > 0,
{
    reached_is(list, pos, 0, 0);
    assert(0 * 0 * (3 * STEPS - 2 * 0) == 0);
}

/// Lyrics of another track are never shown: the card says that it is loading.
pub proof fn lyrics_of_another_track_are_not_shown(a: Area, ly: Lyrics, m: MusicStats, now: u64)
    requires
        m.running,
        m.track@.len() > 0,
        ly.track_id@ != state::identity(m),
    ensures
        lyrics_inside(a, ly, m, now) == LyricsInside::Note(
            seq![panel::flat("loading lyrics…"@, Hue::Dim)],
        ),
{
}

/// Without a track the card shows a note, whatever lyrics there are.
pub proof fn silence_shows_a_note(a: Area, ly: Lyrics, m: MusicStats, now: u64)
    requires
        !m.running || m.track@.len() == 0,
    ensures
        lyrics_inside(a, ly, m, now) == LyricsInside::Note(seq![panel::flat("♫"@, Hue::Faint)]),
{
}

/// A track that has no lyrics shows the note that says so over bars of two to four rows that
/// stand on the card's lower edge.
pub proof fn tracks_without_lyrics_say_so(a: Area, ly: Lyrics, m: MusicStats, now: u64)
    requires
        m.running,
        m.track@.len() > 0,
        ly.track_id@ == state::identity(m),
        ly.lines@.len() == 0,
        ly.note@.len() > 0,
        !text::holds(ly.note@, "loading"@),
        a.y + a.height <= u16::MAX,
        a.height >= 4,
        a.width >= 4,
    ensures
        lyrics_inside(a, ly, m, now) matches LyricsInside::Quiet { caption, at, bars } && ({
            &&& caption.len() == 3
            &&& caption[1].text == ly.note@
            &&& bars matches Some(b) && ({
                &&& b.y + b.height == a.y + a.height
                &&& b.width == a.width
                &&& 2 <= b.height <= 4
                &&& a.y <= at.y < b.y
            })
        }),
{
}

} // verus!
