//! The player card: cover, titles, progress and equaliser.

use vstd::prelude::*;
use crate::art::AlbumArt;
use crate::digits;
use crate::lrc::Share;
use crate::media_cards;
use crate::panel;
use crate::panel::{Area, Bit, Hue, Ink, Piece};
use crate::state;
use crate::state::{MediaSource, MusicStats};
use crate::text;
use crate::theme;

verus! {

// ---------------------------------------------------------------------------
// Bars.
// ---------------------------------------------------------------------------

/// A quotient rounded to the nearest whole number, halves up.
pub open spec fn rounded(a: int, b: int) -> int {
    (2 * a + b) / (2 * b)
}

fn round_div(a: u128, b: u128) -> (r: u128)
    requires
        0 < b,
        2 * a + b <= u128::MAX,
        2 * b <= u128::MAX,
    ensures
        r == rounded(a as int, b as int),
{
    (2 * a + b) / (2 * b)
}

/// A progress bar: full cells, a cell that is partly filled, and the rail.
#[derive(Clone, Copy, Debug, PartialEq, Eq, Structural)]
pub struct Bar {
    pub full: usize,
    pub part: Option<char>,
    pub rail: usize,
}

/// The glyph of a cell that is filled by so many eighths from the left.
pub open spec fn eighth(n: int) -> char {
    if n == 1 {
        '▏'
    } else if n == 2 {
        '▎'
    } else if n == 3 {
        '▍'
    } else if n == 4 {
        '▌'
    } else if n == 5 {
        '▋'
    } else if n == 6 {
        '▊'
    } else if n == 7 {
        '▉'
    } else {
        '█'
    }
}

fn eighth_glyph(n: u128) -> (r: char)
    ensures
        r == eighth(n as int),
{
    if n == 1 {
        '▏'
    } else if n == 2 {
        '▎'
    } else if n == 3 {
        '▍'
    } else if n == 4 {
        '▌'
    } else if n == 5 {
        '▋'
    } else if n == 6 {
        '▊'
    } else if n == 7 {
        '▉'
    } else {
        '█'
    }
}

/// How many eighths of a cell a bar fills, rounded.
pub open spec fn eighths(s: Share, width: int) -> int {
    rounded(8 * (s.num * width), s.den as int)
}

/// A bar of a width, filled to a share.
pub open spec fn bar(s: Share, width: int) -> Bar {
    let n = eighths(s, width);
    let full = n / 8;
    let part = if full < width && n % 8 > 0 {
        Some(eighth(n % 8))
    } else {
        None
    };
    Bar {
        full: full as usize,
        part,
        rail: (width - full - if part is Some {
            1int
        } else {
            0
        }) as usize,
    }
}

/// A bar that is filled to a share, one cell wide at least.
pub fn progress_bar(s: Share, width: usize) -> (r: Bar)
    requires
        0 < s.den,
        s.num <= s.den,
        width <= u32::MAX,
    ensures
        r == bar(
            s,
            if width > 0 {
                width as int
            } else {
                1
            },
        ),
        r.full + (if r.part is Some {
            1int
        } else {
            0
        }) + r.rail == if width > 0 {
            width as int
        } else {
            1
        },
{
    let width: usize = if width > 0 {
        width
    } else {
        1
    };
    proof {
        assert(0 <= s.num * width <= s.den * width && s.den * width <= 0xffff_ffff_ffff_ffff
            * 0xffff_ffff) by (nonlinear_arith)
            requires
                0 <= s.num <= s.den <= 0xffff_ffff_ffff_ffff,
                0 <= width <= 0xffff_ffff,
        ;
        eighths_fit(s, width as int);
    }
    let n: u128 = round_div(8 * (s.num as u128 * width as u128), s.den as u128);
    let full: usize = (n / 8) as usize;
    let rest: u128 = n % 8;
    if full < width && rest > 0 {
        Bar { full, part: Some(eighth_glyph(rest)), rail: width - full - 1 }
    } else {
        Bar { full, part: None, rail: width - full }
    }
}

proof fn eighths_fit(s: Share, width: int)
    requires
        0 < s.den,
        s.num <= s.den,
        0 < width,
    ensures
        0 <= eighths(s, width) <= 8 * width,
{
    let d = s.den as int;
    let a = 8 * (s.num * width);
    assert(0 <= a <= 8 * (d * width)) by (nonlinear_arith)
        requires
            a == 8 * (s.num * width),
            0 <= s.num <= d,
            0 < width,
    ;
    assert(0 <= (2 * a + d) / (2 * d) < 8 * width + 1) by (nonlinear_arith)
        requires
            0 <= a <= 8 * (d * width),
            0 < d,
            0 < width,
    ;
}

/// An empty bar is all rail, a full one has none.
pub proof fn bars_have_ends(den: u64, width: int)
    requires
        0 < den,
        0 < width <= u32::MAX,
    ensures
        bar((Share { num: 0, den }), width).full == 0,
        bar((Share { num: 0, den }), width).rail == width,
        bar((Share { num: den, den }), width).full == width,
        bar((Share { num: den, den }), width).rail == 0,
{
    let d = den as int;
    assert(0 * width == 0) by (nonlinear_arith);
    assert((2 * 0 + d) / (2 * d) == 0) by (nonlinear_arith)
        requires
            0 < d,
    ;
    assert((2 * (8 * (d * width)) + d) / (2 * d) == 8 * width) by (nonlinear_arith)
        requires
            0 < d,
            0 < width,
    ;
}

/// A column of cells that is filled by so many eighths from below, from the top.
pub open spec fn column(total: int, rows: nat) -> Seq<char> {
    Seq::new(rows, |r: int| theme::block_glyph(total - 8 * (rows - 1 - r)))
}

/// A column of the equaliser, one cell tall at least.
pub fn spectrum_column(total: usize, rows: usize) -> (r: Vec<char>)
    requires
        rows <= u16::MAX,
    ensures
        r@ == column(
            total as int,
            if rows > 0 {
                rows as nat
            } else {
                1
            },
        ),
{
    let rows: usize = if rows > 0 {
        rows
    } else {
        1
    };
    let ghost want = column(total as int, rows as nat);
    let mut out: Vec<char> = Vec::new();
    let mut i: usize = 0;
    while i < rows
        invariant
            i <= rows <= u16::MAX,
            want == column(total as int, rows as nat),
            out@ == want.take(i as int),
        decreases rows - i,
    {
        let below: usize = 8 * (rows - 1 - i);
        let level: usize = if total > below {
            total - below
        } else {
            0
        };
        out.push(theme::block_char(level as u64));
        proof {
            assert(out@ =~= want.take(i + 1));
        }
        i += 1;
    }
    proof {
        assert(want.take(i as int) =~= want);
    }
    out
}

// ---------------------------------------------------------------------------
// Lines that are too long.
// ---------------------------------------------------------------------------

/// How long a line rests at each end, in sixths of a nanosecond.
pub const REST: u64 = 13_200_000_000;

/// How long a line takes for a cell, in sixths of a nanosecond.
pub const PER_CELL: u64 = 1_000_000_000;

/// The shortest time for a whole pass, in sixths of a nanosecond.
pub const SHORTEST: u64 = 12_000_000_000;

/// How far a line that is too long has to travel: its end clears the box.
pub open spec fn travel(n: int, width: int) -> int {
    panel::minus(n + 3, width)
}

/// How long a pass takes.
pub open spec fn pass_time(n: int, width: int) -> int {
    if travel(n, width) * PER_CELL > SHORTEST {
        travel(n, width) * PER_CELL
    } else {
        SHORTEST as int
    }
}

/// How far along its way a line of `n` characters is: it rests, passes, rests, and
/// comes back. None where it fits.
pub open spec fn marquee_share(n: int, width: int, t: u64) -> Option<(int, int)> {
    if n <= width {
        None
    } else {
        let scan = pass_time(n, width);
        let x = (6 * t) % (2 * (scan + REST));
        Some(
            if x < REST {
                (0, scan)
            } else if x < REST + scan {
                (x - REST, scan)
            } else if x < REST + scan + REST {
                (scan, scan)
            } else {
                (scan - (x - REST - scan - REST), scan)
            },
        )
    }
}

/// How far along its way a line is, one cell being the narrowest box.
pub fn marquee_phase(n: usize, width: usize, t: u64) -> (r: Option<Share>)
    requires
        n <= u32::MAX,
    ensures
        match r {
            Some(s) => marquee_share(
                n as int,
                if width > 0 {
                    width as int
                } else {
                    1
                },
                t,
            ) == Some((s.num as int, s.den as int)) && 0 < s.den && s.num <= s.den,
            None => marquee_share(
                n as int,
                if width > 0 {
                    width as int
                } else {
                    1
                },
                t,
            ) is None,
        },
{
    let width: usize = if width > 0 {
        width
    } else {
        1
    };
    if n <= width {
        return None;
    }
    let cells: u64 = (n - width) as u64 + 3;
    let wish: u64 = cells * PER_CELL;
    let scan: u64 = if wish > SHORTEST {
        wish
    } else {
        SHORTEST
    };
    let period: u128 = 2 * (scan as u128 + REST as u128);
    let x: u128 = (6 * t as u128) % period;
    let rest: u128 = REST as u128;
    let whole: u128 = scan as u128;
    let num: u128 = if x < rest {
        0
    } else if x < rest + whole {
        x - rest
    } else if x < rest + whole + rest {
        whole
    } else {
        whole - (x - rest - whole - rest)
    };
    Some(Share { num: num as u64, den: scan })
}

/// A character in one style.
#[derive(Clone, Copy, Debug, PartialEq, Eq, Structural)]
pub struct Glyph {
    pub ch: char,
    pub ink: Ink,
    pub bold: bool,
}

/// A character in the style of a piece.
pub open spec fn in_style(b: Bit, c: char) -> Glyph {
    Glyph { ch: c, ink: b.ink, bold: b.bold }
}

/// The characters of a piece.
pub open spec fn piece_glyphs(b: Bit) -> Seq<Glyph> {
    b.text.map_values(|c: char| in_style(b, c))
}

/// The characters of a line.
pub open spec fn glyphs(line: Seq<Bit>) -> Seq<Glyph>
    decreases line.len(),
{
    if line.len() == 0 {
        seq![]
    } else {
        glyphs(line.drop_last()) + piece_glyphs(line.last())
    }
}

/// The characters of a line.
pub fn glyphs_of(line: &Vec<Piece>) -> (r: Vec<Glyph>)
    ensures
        r@ == glyphs(panel::bits(line@)),
{
    let ghost all = panel::bits(line@);
    let mut out: Vec<Glyph> = Vec::new();
    let mut i: usize = 0;
    proof {
        assert(out@ =~= glyphs(all.take(0)));
    }
    while i < line.len()
        invariant
            i <= line@.len(),
            all == panel::bits(line@),
            out@ == glyphs(all.take(i as int)),
        decreases line@.len() - i,
    {
        let chars = text::chars_of(line[i].text.as_str());
        let ghost before = out@;
        let ghost own = panel::bit(line@[i as int]);
        let ghost more = piece_glyphs(own);
        let mut k: usize = 0;
        proof {
            assert(before + more.take(0) =~= before);
        }
        while k < chars.len()
            invariant
                i < line@.len(),
                own == panel::bit(line@[i as int]),
                chars@ == line@[i as int].text@,
                more == piece_glyphs(own),
                k <= chars@.len(),
                out@ == before + more.take(k as int),
            decreases chars@.len() - k,
        {
            let g = Glyph { ch: chars[k], ink: line[i].ink, bold: line[i].bold };
            out.push(g);
            proof {
                assert(more[k as int] == g);
                assert(out@ =~= before + more.take(k + 1));
            }
            k += 1;
        }
        proof {
            assert(more.take(k as int) =~= more);
            assert(all[i as int] == own);
            assert(all.take(i + 1).drop_last() =~= all.take(i as int));
        }
        i += 1;
    }
    proof {
        assert(all.take(i as int) =~= all);
    }
    out
}

/// The part of a line that is in its box, moved left by `off` characters.
pub open spec fn in_box(g: Seq<Glyph>, off: int, width: int) -> Seq<Glyph> {
    g.subrange(
        off,
        if off + width < g.len() {
            off + width
        } else {
            g.len() as int
        },
    )
}

/// The part of a line that is in its box, moved left by `off` characters.
pub fn marquee_window(line: &Vec<Piece>, off: usize, width: usize) -> (r: Vec<Glyph>)
    requires
        off <= glyphs(panel::bits(line@)).len(),
    ensures
        r@ == in_box(glyphs(panel::bits(line@)), off as int, width as int),
{
    let all = glyphs_of(line);
    let n: usize = all.len();
    let end: usize = if n - off > width {
        off + width
    } else {
        n
    };
    let ghost want = in_box(all@, off as int, width as int);
    let mut out: Vec<Glyph> = Vec::new();
    let mut i: usize = off;
    while i < end
        invariant
            off <= i <= end <= n == all@.len(),
            want == all@.subrange(off as int, end as int),
            out@ == want.take(i - off),
        decreases end - i,
    {
        out.push(all[i]);
        proof {
            assert(out@ =~= want.take(i + 1 - off));
        }
        i += 1;
    }
    proof {
        assert(want.take(i - off) =~= want);
    }
    out
}

// ---------------------------------------------------------------------------
// The card.
// ---------------------------------------------------------------------------

/// How wide a cover is for its height: its own proportions, kept within bounds, and
/// square until there is a cover.
pub open spec fn aspect(w: int, h: int) -> (int, int) {
    if w <= 0 || h <= 0 {
        (1, 1)
    } else if 5 * w < 2 * h {
        (2, 5)
    } else if 2 * w > 5 * h {
        (5, 2)
    } else {
        (w, h)
    }
}

/// The columns and rows of a cover in a card of `iw` by `ih` cells: as tall as the
/// card, unless that leaves too little for the text; a cell is twice as tall as wide.
pub open spec fn art_size(iw: int, ih: int, a: (int, int)) -> (int, int) {
    let rows = if panel::minus(ih, 2) > 1 {
        panel::minus(ih, 2)
    } else {
        1
    };
    let room = if panel::minus(iw, 24) > 2 {
        panel::minus(iw, 24)
    } else {
        2
    };
    let cols = rounded(2 * (a.0 * rows), a.1);
    if cols > room {
        let back = rounded(room * a.1, 2 * a.0);
        (
            room,
            if back > 1 {
                back
            } else {
                1
            },
        )
    } else {
        (
            if cols > 2 {
                cols
            } else {
                2
            },
            rows,
        )
    }
}

fn size_art(iw: u16, ih: u16, w: usize, h: usize) -> (r: (u16, u16))
    ensures
        (r.0 as int, r.1 as int) == art_size(iw as int, ih as int, aspect(w as int, h as int)),
        2 <= r.0,
        r.0 <= 2 || r.0 + 24 <= iw,
        1 <= r.1,
        r.1 <= 1 || r.1 <= ih,
{
    let num: u128;
    let den: u128;
    if w == 0 || h == 0 {
        num = 1;
        den = 1;
    } else if (5 * w as u128) < 2 * h as u128 {
        num = 2;
        den = 5;
    } else if 2 * w as u128 > 5 * h as u128 {
        num = 5;
        den = 2;
    } else {
        num = w as u128;
        den = h as u128;
    }
    let rows: u16 = if ih > 3 {
        ih - 2
    } else {
        1
    };
    let room: u16 = if iw > 26 {
        iw - 24
    } else {
        2
    };
    proof {
        assert(num * rows <= 0xffff_ffff_ffff_ffff * 0xffff && 0 <= num * rows) by (nonlinear_arith)
            requires
                0 <= num <= 0xffff_ffff_ffff_ffff,
                0 <= rows <= 0xffff,
        ;
        assert(room * den <= 0xffff * 0xffff_ffff_ffff_ffff && 0 <= room * den) by (nonlinear_arith)
            requires
                0 <= den <= 0xffff_ffff_ffff_ffff,
                0 <= room <= 0xffff,
        ;
    }
    let cols: u128 = round_div(2 * (num * rows as u128), den);
    if cols > room as u128 {
        let back: u128 = round_div(room as u128 * den, 2 * num);
        proof {
            back_fits(num as int, den as int, rows as int, room as int);
        }
        (
            room,
            if back > 1 {
                back as u16
            } else {
                1
            },
        )
    } else {
        (
            if cols > 2 {
                cols as u16
            } else {
                2
            },
            rows,
        )
    }
}

proof fn back_fits(num: int, den: int, rows: int, room: int)
    requires
        0 < num,
        0 < den,
        0 < rows,
        0 < room,
        rounded(2 * (num * rows), den) > room,
    ensures
        0 <= rounded(room * den, 2 * num) <= rows,
{
    let a = 2 * (num * rows);
    assert(2 * a + den >= 2 * den * (room + 1)) by (nonlinear_arith)
        requires
            (2 * a + den) / (2 * den) >= room + 1,
            0 < den,
    ;
    assert(2 * a >= 2 * (room * den) + den) by (nonlinear_arith)
        requires
            2 * a + den >= 2 * den * (room + 1),
    ;
    let b = room * den;
    let m = 2 * num;
    assert(b < m * rows) by (nonlinear_arith)
        requires
            a == 2 * (num * rows),
            m == 2 * num,
            2 * a >= 2 * b + den,
            0 < den,
    ;
    assert(0 <= b) by (nonlinear_arith)
        requires
            b == room * den,
            0 < room,
            0 < den,
    ;
    assert(0 <= (2 * b + m) / (2 * m) < rows + 1) by (nonlinear_arith)
        requires
            0 <= b < m * rows,
            0 < m,
            0 < rows,
    ;
}

/// The texts of a list that are not empty.
pub open spec fn filled(list: Seq<Seq<char>>) -> Seq<Seq<char>>
    decreases list.len(),
{
    if list.len() == 0 {
        seq![]
    } else if list.last().len() > 0 {
        filled(list.drop_last()).push(list.last())
    } else {
        filled(list.drop_last())
    }
}

fn push_filled(list: &mut Vec<String>, s: &str, before: Ghost<Seq<Seq<char>>>)
    requires
        text::texts(old(list)@) == filled(before@),
    ensures
        text::texts(final(list)@) == filled(before@.push(s@)),
{
    proof {
        assert(before@.push(s@).drop_last() =~= before@);
    }
    if text::chars_of(s).len() > 0 {
        list.push(s.to_string());
        proof {
            assert(text::texts(list@) =~= text::texts(old(list)@).push(s@));
        }
    }
}

/// What is said of a film below its title: year, genre, director.
pub open spec fn film_line(m: MusicStats) -> Seq<char> {
    text::joined(
        filled(seq![m.watch.year@, m.watch.genre@, m.watch.director@]),
        "  ·  "@,
    )
}

fn film_text(m: &MusicStats) -> (r: String)
    ensures
        r@ == film_line(*m),
{
    let mut parts: Vec<String> = Vec::new();
    let ghost none: Seq<Seq<char>> = seq![];
    proof {
        assert(text::texts(parts@) =~= filled(none));
    }
    push_filled(&mut parts, m.watch.year.as_str(), Ghost(none));
    push_filled(&mut parts, m.watch.genre.as_str(), Ghost(none.push(m.watch.year@)));
    push_filled(
        &mut parts,
        m.watch.director.as_str(),
        Ghost(none.push(m.watch.year@).push(m.watch.genre@)),
    );
    proof {
        assert(none.push(m.watch.year@).push(m.watch.genre@).push(m.watch.director@) =~= seq![
            m.watch.year@,
            m.watch.genre@,
            m.watch.director@,
        ]);
        assert(text::texts(parts@).take(parts@.len() as int) =~= text::texts(parts@));
    }
    text::join_strings(&parts, parts.len(), "  ·  ")
}

/// The season and episode of a series.
pub open spec fn episode_tag(m: MusicStats) -> Seq<char> {
    if m.watch.season > 0 {
        "  S"@ + digits::dec(m.watch.season as nat) + "·E"@ + digits::dec(m.watch.episode as nat)
    } else {
        seq![]
    }
}

/// The first line beside the cover.
pub open spec fn first_line(m: MusicStats) -> Seq<Bit> {
    if m.source == MediaSource::Music {
        seq![
            panel::bold(m.artist@, Hue::Accent),
            panel::flat(" - "@, Hue::Faint),
            panel::bold(m.track@, Hue::Text),
        ]
    } else if m.watch.show@.len() > 0 {
        seq![panel::bold(m.watch.show@, Hue::Accent), panel::flat(episode_tag(m), Hue::Faint)]
    } else {
        seq![panel::bold(m.track@, Hue::Accent)]
    }
}

/// The second line beside the cover.
pub open spec fn second_line(m: MusicStats) -> Seq<Bit> {
    if m.source == MediaSource::Music {
        seq![panel::flat(m.album@, Hue::Dim)]
    } else if m.watch.show@.len() > 0 {
        seq![panel::bold(m.track@, Hue::Text)]
    } else {
        seq![panel::flat(film_line(m), Hue::Dim)]
    }
}

fn title_lines(m: &MusicStats) -> (r: (Vec<Piece>, Vec<Piece>))
    ensures
        panel::bits(r.0@) == first_line(*m),
        panel::bits(r.1@) == second_line(*m),
{
    let mut one = panel::line();
    let mut two = panel::line();
    if !m.is_tv() {
        panel::push_bold(&mut one, m.artist.as_str(), Hue::Accent);
        panel::push_flat(&mut one, " - ", Hue::Faint);
        panel::push_bold(&mut one, m.track.as_str(), Hue::Text);
        panel::push_flat(&mut two, m.album.as_str(), Hue::Dim);
    } else if text::chars_of(m.watch.show.as_str()).len() > 0 {
        let mut tag = String::new();
        if m.watch.season > 0 {
            tag.append("  S");
            digits::push_dec(&mut tag, m.watch.season as u64);
            tag.append("·E");
            digits::push_dec(&mut tag, m.watch.episode as u64);
        }
        proof {
            assert(tag@ =~= episode_tag(*m));
        }
        panel::push_bold(&mut one, m.watch.show.as_str(), Hue::Accent);
        panel::push_flat(&mut one, tag.as_str(), Hue::Faint);
        panel::push_bold(&mut two, m.track.as_str(), Hue::Text);
    } else {
        panel::push_bold(&mut one, m.track.as_str(), Hue::Accent);
        panel::push_flat(&mut two, film_text(m).as_str(), Hue::Dim);
    }
    proof {
        assert(panel::bits(one@) =~= first_line(*m));
        assert(panel::bits(two@) =~= second_line(*m));
    }
    (one, two)
}

/// How much of the track has been played.
pub open spec fn played(m: MusicStats, now: u64) -> Share {
    let pos = state::position_at(m, now);
    if m.duration <= 0 || pos <= 0 {
        Share {
            num: 0,
            den: if m.duration > 0 {
                m.duration as u64
            } else {
                1
            },
        }
    } else if pos >= m.duration {
        Share { num: m.duration as u64, den: m.duration as u64 }
    } else {
        Share { num: pos as u64, den: m.duration as u64 }
    }
}

fn played_share(m: &MusicStats, pos: i64) -> (r: Share)
    ensures
        forall|now: u64| pos == state::position_at(*m, now) ==> r == #[trigger] played(*m, now),
        0 < r.den,
        r.num <= r.den,
{
    let den: u64 = if m.duration > 0 {
        m.duration as u64
    } else {
        1
    };
    if m.duration <= 0 || pos <= 0 {
        Share { num: 0, den }
    } else if pos >= m.duration {
        Share { num: den, den }
    } else {
        Share { num: pos as u64, den }
    }
}

/// The cells of the progress bar: what the two times leave, eight at least.
pub open spec fn bar_cells(textw: int, times: int) -> int {
    if panel::minus(textw, times) > 8 {
        panel::minus(textw, times)
    } else {
        8
    }
}

/// The player at work.
pub struct Player {
    /// Where the cover is drawn.
    pub art: Area,
    /// The cover belongs to the track.
    pub current: bool,
    /// Where the three lines are drawn.
    pub info: Area,
    pub first: Vec<Piece>,
    pub second: Vec<Piece>,
    /// The time before the bar.
    pub elapsed: String,
    pub bar: Bar,
    /// The time behind the bar.
    pub total: String,
    /// Where the equaliser is drawn.
    pub eq: Option<Area>,
}

/// Where the equaliser is drawn: its lower edge lines up with that of the cover, it
/// never covers the text, and a film has none.
pub open spec fn eq_area(a: Area, tv: bool, gap: int, rows: int) -> Option<Area> {
    let tw = panel::minus(a.width as int, gap);
    let wish = panel::minus(a.y + 1 + rows, 2);
    let y = if wish > a.y + 4 {
        wish
    } else {
        a.y + 4
    };
    if !tv && tw >= 4 && y + 2 <= a.y + a.height {
        Some(Area { x: (a.x + gap) as u16, y: y as u16, width: tw as u16, height: 2 })
    } else {
        None
    }
}

/// The player in `a`, the inside of its card.
pub open spec fn playing(
    a: Area,
    m: MusicStats,
    cover: AlbumArt,
    now: u64,
    p: Player,
) -> bool {
    let (cols, rows) = art_size(
        a.width as int,
        a.height as int,
        aspect(cover.w as int, cover.h as int),
    );
    let gap = cols + 3;
    let tw = panel::minus(a.width as int, gap);
    let tv = m.source == MediaSource::Tv;
    let before = crate::format::clock_text(state::position_at(m, now)) + " "@;
    let after = " "@ + crate::format::clock_text(m.duration as int);
    &&& p.art == Area {
        x: (a.x + 1) as u16,
        y: (a.y + 1) as u16,
        width: cols as u16,
        height: rows as u16,
    }
    &&& p.current == (state::identity(m) == cover.track_id@)
    &&& p.info == Area {
        x: (a.x + gap) as u16,
        y: (a.y + 1) as u16,
        width: tw as u16,
        height: 3,
    }
    &&& panel::bits(p.first@) == first_line(m)
    &&& panel::bits(p.second@) == second_line(m)
    &&& p.elapsed@ == before
    &&& p.total@ == after
    &&& p.bar == bar(played(m, now), bar_cells(tw, before.len() + after.len() as int))
    &&& p.eq == eq_area(a, tv, gap, rows)
}

/// The title of the player card.
pub open spec fn player_title(m: MusicStats) -> Seq<Bit> {
    panel::plain_title(
        if m.source == MediaSource::Tv {
            "NOW WATCHING"@
        } else {
            "NOW PLAYING"@
        },
    )
}

/// The player card. `area` is the whole card. Without a track it is idle.
pub fn now_playing(area: Area, m: &MusicStats, cover: &AlbumArt, now: u64) -> (r: (
    Vec<Piece>,
    Option<Player>,
))
    requires
        area.wf(),
        area.x + area.width <= u16::MAX - 8,
        area.y + area.height <= u16::MAX - 8,
    ensures
        panel::bits(r.0@) == player_title(*m),
        r.1 is None == media_cards::silent(*m),
        r.1 matches Some(p) ==> playing(panel::inside(area), *m, *cover, now, p),
{
    let title = if m.is_tv() {
        panel::title("NOW WATCHING")
    } else {
        panel::title("NOW PLAYING")
    };
    if media_cards::is_silent(m) {
        return (title, None);
    }
    let a = panel::inner(area);
    let (cols, rows) = size_art(a.width, a.height, cover.w, cover.h);
    proof {
        assert(a.x <= area.x + area.width + 1 && a.x + a.width <= area.x + area.width + 1);
        assert(a.y <= area.y + area.height && a.y + a.height <= area.y + area.height);
    }
    let gap: u16 = cols + 3;
    let tw: u16 = if a.width > gap {
        a.width - gap
    } else {
        0
    };
    let pos: i64 = m.position(now);
    let (first, second) = title_lines(m);
    let elapsed = text::concat2(crate::format::fmt_clock(pos).as_str(), " ");
    let total = text::concat2(" ", crate::format::fmt_clock(m.duration).as_str());
    let before: usize = text::chars_of(elapsed.as_str()).len();
    let after: usize = text::chars_of(total.as_str()).len();
    let rest: usize = if tw as usize > before {
        tw as usize - before
    } else {
        0
    };
    let rest: usize = if rest > after {
        rest - after
    } else {
        0
    };
    let cells: usize = if rest > 8 {
        rest
    } else {
        8
    };
    let share = played_share(m, pos);
    proof {
        assert(share == played(*m, now));
    }
    let meter = progress_bar(share, cells);
    let wish: u16 = a.y + rows - 1;
    let y: u16 = if wish > a.y + 4 {
        wish
    } else {
        a.y + 4
    };
    let eq = if !m.is_tv() && tw >= 4 && y + 2 <= a.y + a.height {
        Some(Area { x: a.x + gap, y, width: tw, height: 2 })
    } else {
        None
    };
    let current = text::same_str(m.track_id().as_str(), cover.track_id.as_str());
    let p = Player {
        art: Area { x: a.x + 1, y: a.y + 1, width: cols, height: rows },
        current,
        info: Area { x: a.x + gap, y: a.y + 1, width: tw, height: 3 },
        first,
        second,
        elapsed,
        bar: meter,
        total,
        eq,
    };
    proof {
        assert(eq == eq_area(a, m.source == MediaSource::Tv, gap as int, rows as int));
    }
    (title, Some(p))
}

/// The equaliser never covers the text beside the cover and stays in the card.
pub proof fn equaliser_keeps_clear(a: Area, tv: bool, gap: int, rows: int)
    requires
        0 <= rows,
        0 <= gap,
        a.y + a.height <= u16::MAX,
        a.x + a.width <= u16::MAX,
        eq_area(a, tv, gap, rows) is Some,
    ensures
        ({
            let e = eq_area(a, tv, gap, rows)->0;
            &&& e.y >= a.y + 1 + 3
            &&& e.y + e.height <= a.y + a.height
            &&& e.x + e.width == a.x + a.width
        }),
{
}

// ---------------------------------------------------------------------------
// Laws of the player card.
// ---------------------------------------------------------------------------

proof fn rounded_is_closest(a: int, b: int)
    requires
        0 <= a,
        0 < b,
    ensures
        -b <= 2 * (b * rounded(a, b) - a) <= b,
        rounded(a, b) >= 0,
{
    vstd::arithmetic::div_mod::lemma_fundamental_div_mod(2 * a + b, 2 * b);
    let q = (2 * a + b) / (2 * b);
    assert((2 * b) * q == 2 * (b * q)) by (nonlinear_arith);
    vstd::arithmetic::div_mod::lemma_div_pos_is_pos(2 * a + b, 2 * b);
}

/// Each glyph fills one eighth of its cell more than the one before.
pub proof fn eighths_have_their_glyphs()
    ensures
        eighth(1) == '▏',
        eighth(2) == '▎',
        eighth(3) == '▍',
        eighth(4) == '▌',
        eighth(5) == '▋',
        eighth(6) == '▊',
        eighth(7) == '▉',
        forall|i: int, j: int|
            1 <= i < j <= 8 ==> #[trigger] eighth(i) != #[trigger] eighth(j),
{
}

/// A bar has as many cells as it is wide, and the eighths that it fills are the closest to the
/// share of all its eighths.
pub proof fn bars_fill_in_proportion(s: Share, width: int, k: int)
    requires
        0 < s.den,
        s.num <= s.den,
        0 < width <= u32::MAX,
        1 <= k <= 7,
    ensures
        ({
            let b = bar(s, width);
            &&& b.part is Some ==> b.full + 1 + b.rail == width
            &&& b.part is None ==> b.full + b.rail == width
            &&& b.part is None ==> -(s.den as int) <= 2 * (s.den * (8 * b.full) - 8 * (s.num
                * width)) <= s.den
            &&& b.part == Some(eighth(k)) ==> -(s.den as int) <= 2 * (s.den * (8 * b.full + k) - 8
                * (s.num * width)) <= s.den
        }),
{
    eighths_fit(s, width);
    eighths_have_their_glyphs();
    let n = eighths(s, width);
    assert(8 * (s.num * width) >= 0) by (nonlinear_arith)
        requires
            width > 0,
    ;
    rounded_is_closest(8 * (s.num * width), s.den as int);
    let b = bar(s, width);
    assert(n == 8 * (n / 8) + n % 8);
    if b.part == Some(eighth(k)) {
        assert(n % 8 == k);
    }
    assert(s.den * n == s.den * (8 * (n / 8) + n % 8));
}

/// In a column the cells below the height are full, those above it are empty, and the one at it
/// has its part of eight.
pub proof fn columns_fill_from_below(total: int, rows: nat, r: int)
    requires
        0 <= total,
        0 <= r < rows,
    ensures
        column(total, rows).len() == rows,
        total >= 8 * (rows - r) ==> column(total, rows)[r] == '█',
        total <= 8 * (rows - r) - 8 ==> column(total, rows)[r] == ' ',
        total == 8 * (rows - r) - 7 ==> column(total, rows)[r] == '▁',
        total == 8 * (rows - r) - 6 ==> column(total, rows)[r] == '▂',
        total == 8 * (rows - r) - 5 ==> column(total, rows)[r] == '▃',
        total == 8 * (rows - r) - 4 ==> column(total, rows)[r] == '▄',
        total == 8 * (rows - r) - 3 ==> column(total, rows)[r] == '▅',
        total == 8 * (rows - r) - 2 ==> column(total, rows)[r] == '▆',
        total == 8 * (rows - r) - 1 ==> column(total, rows)[r] == '▇',
{
}

/// How long a line that is too long is on its way, in nanoseconds, six times over: six cells a
/// second and three cells more than what does not fit, two seconds at least.
pub open spec fn way(n: int, width: int) -> int {
    if n + 3 - width > 12 {
        (n + 3 - width) * 1_000_000_000
    } else {
        12_000_000_000
    }
}

/// A line that fits stands still. One that does not rests for 2.2 seconds, passes evenly, rests
/// as long, comes back evenly, and begins again.
pub proof fn long_lines_pass_and_return(n: int, width: int, t: u64, round: int, x: int)
    requires
        0 <= width,
        0 <= round,
        6 * t == round * (2 * way(n, width) + 26_400_000_000) + x,
        0 <= x < 2 * way(n, width) + 26_400_000_000,
    ensures
        n <= width ==> marquee_share(n, width, t) is None,
        n > width ==> marquee_share(n, width, t) is Some && ({
            let (num, den) = marquee_share(n, width, t)->0;
            let w = way(n, width);
            &&& den == w
            &&& x < 13_200_000_000 ==> num == 0
            &&& 13_200_000_000 <= x < 13_200_000_000 + w ==> num == x - 13_200_000_000
            &&& 13_200_000_000 + w <= x < 26_400_000_000 + w ==> num == w
            &&& 26_400_000_000 + w <= x ==> num == 26_400_000_000 + 2 * w - x
        }),
{
    if n > width {
        let period = 2 * way(n, width) + 26_400_000_000;
        assert(pass_time(n, width) == way(n, width));
        assert(period == 2 * (pass_time(n, width) + REST));
        vstd::arithmetic::div_mod::lemma_fundamental_div_mod_converse(
            (6 * t) as int,
            period,
            round,
            x,
        );
    }
}

/// What is in the box stands there in its order, from its place on, and nothing else does.
pub proof fn box_shows_what_is_there(g: Seq<Glyph>, off: int, width: int, i: int)
    requires
        0 <= off <= g.len(),
        0 <= width,
        0 <= i < width,
    ensures
        in_box(g, off, width).len() <= width,
        off + i < g.len() ==> i < in_box(g, off, width).len() && in_box(g, off, width)[i] == g[off
            + i],
        off + i >= g.len() ==> i >= in_box(g, off, width).len(),
{
}

/// The characters of two lines one after the other are those of the first and then those of the
/// second, each in the style of its piece.
pub proof fn characters_keep_their_style(line: Seq<Bit>, b: Bit)
    ensures
        glyphs(line.push(b)).len() == glyphs(line).len() + b.text.len(),
        forall|i: int|
            0 <= i < b.text.len() ==> (#[trigger] b.text[i]) == glyphs(line.push(
                b,
            ))[glyphs(line).len() + i].ch && glyphs(line.push(b))[glyphs(line).len() + i].ink
                == b.ink && glyphs(line.push(b))[glyphs(line).len() + i].bold == b.bold,
        forall|i: int|
            0 <= i < glyphs(line).len() ==> glyphs(line.push(b))[i] == #[trigger] glyphs(line)[i],
{
    assert(line.push(b).drop_last() =~= line);
}

/// A cover keeps its proportions, but is never narrower than two fifths of its height nor wider
/// than two and a half times; it is square until there is one.
pub proof fn covers_keep_their_proportions(w: int, h: int)
    ensures
        w <= 0 || h <= 0 ==> aspect(w, h).0 == aspect(w, h).1,
        w > 0 && h > 0 && 2 * h <= 5 * w && 2 * w <= 5 * h ==> aspect(w, h) == (w, h),
        2 * aspect(w, h).1 <= 5 * aspect(w, h).0,
        2 * aspect(w, h).0 <= 5 * aspect(w, h).1,
        w > 0 && h > 0 && 5 * w < 2 * h ==> 5 * aspect(w, h).0 == 2 * aspect(w, h).1,
        w > 0 && h > 0 && 2 * w > 5 * h ==> 2 * aspect(w, h).0 == 5 * aspect(w, h).1,
        aspect(w, h).0 > 0,
        aspect(w, h).1 > 0,
{
}

/// A cover is as tall as the card leaves and as wide as its proportions ask, a cell being twice
/// as tall as wide; where the text would get less than 24 columns, it is as wide as that leaves
/// and as tall as its proportions ask.
pub proof fn covers_leave_room_for_the_text(iw: int, ih: int, w: int, h: int)
    requires
        iw >= 26,
        ih >= 3,
        w > 0,
        h > 0,
        2 * h <= 5 * w,
        2 * w <= 5 * h,
    ensures
        ({
            let (cols, rows) = art_size(iw, ih, aspect(w, h));
            &&& 2 <= cols <= iw - 24
            &&& 1 <= rows
            &&& cols < iw - 24 ==> rows == ih - 2
            &&& rows == ih - 2 && cols > 2 && cols < iw - 24 ==> -h <= 2 * (h * cols - 2 * (w * (ih
                - 2))) <= h
            &&& rows != ih - 2 ==> cols == iw - 24
            &&& rows != ih - 2 && rows > 1 ==> -(2 * w) <= 2 * ((2 * w) * rows - (iw - 24) * h) <= 2
                * w
        }),
{
    let rows = ih - 2;
    let room = iw - 24;
    let cols = rounded(2 * (w * rows), h);
    assert(2 * (w * rows) >= 0) by (nonlinear_arith)
        requires
            w > 0,
            rows > 0,
    ;
    rounded_is_closest(2 * (w * rows), h);
    if cols > room {
        assert(room * h >= 0) by (nonlinear_arith)
            requires
                room > 0,
                h > 0,
        ;
        rounded_is_closest(room * h, 2 * w);
    }
}

/// What is said of a film is what is known of its year, genre and director, in this order.
pub proof fn films_are_told_by_what_is_known(list: Seq<Seq<char>>)
    ensures
        filled(list) == list.filter(|t: Seq<char>| t.len() > 0),
    decreases list.len(),
{
    reveal(Seq::filter);
    if list.len() > 0 {
        films_are_told_by_what_is_known(list.drop_last());
    }
}

/// The lines beside the cover name artist and track over the album for a song, the series with
/// its episode over its title, and the film over what is said of it.
pub proof fn lines_name_what_plays(m: MusicStats)
    ensures
        m.source == MediaSource::Music ==> first_line(m).len() == 3 && first_line(m)[0].text
            == m.artist@ && first_line(m)[1].text == " - "@ && first_line(m)[2].text == m.track@
            && second_line(m).len() == 1 && second_line(m)[0].text == m.album@,
        m.source != MediaSource::Music && m.watch.show@.len() > 0 ==> first_line(m)[0].text
            == m.watch.show@ && second_line(m)[0].text == m.track@,
        m.source != MediaSource::Music && m.watch.show@.len() > 0 && m.watch.season > 0
            ==> first_line(m)[1].text == "  S"@ + digits::dec(m.watch.season as nat) + "·E"@
            + digits::dec(m.watch.episode as nat),
        m.source != MediaSource::Music && m.watch.show@.len() == 0 ==> first_line(m).len() == 1
            && first_line(m)[0].text == m.track@ && second_line(m)[0].text == text::joined(
            seq![m.watch.year@, m.watch.genre@, m.watch.director@].filter(
                |t: Seq<char>| t.len() > 0,
            ),
            "  ·  "@,
        ),
{
    films_are_told_by_what_is_known(seq![m.watch.year@, m.watch.genre@, m.watch.director@]);
}

/// The share that has been played is the position within the length: nothing before the start,
/// all from the end on, and in between exactly so much of it.
pub proof fn progress_is_the_position(m: MusicStats, now: u64)
    requires
        m.duration > 0,
    ensures
        ({
            let p = played(m, now);
            let pos = state::position_at(m, now);
            &&& p.den == m.duration
            &&& p.num <= p.den
            &&& 0 <= pos <= m.duration ==> p.num == pos
            &&& pos < 0 ==> p.num == 0
            &&& pos > m.duration ==> p.num == p.den
        }),
{
}

/// The bar and the two times fill the text's width where that leaves eight cells for the bar, and
/// the text stands two cells beside the cover and reaches the edge.
pub proof fn times_and_bar_fill_the_line(
    a: Area,
    m: MusicStats,
    cover: AlbumArt,
    now: u64,
    p: Player,
)
    requires
        playing(a, m, cover, now, p),
        p.info.width >= 8 + p.elapsed@.len() + p.total@.len(),
        a.wf(),
    ensures
        p.bar == bar(played(m, now), p.info.width - p.elapsed@.len() - p.total@.len()),
        p.elapsed@ == crate::format::clock_text(state::position_at(m, now)) + " "@,
        p.total@ == " "@ + crate::format::clock_text(m.duration as int),
        p.art.x == a.x + 1,
        p.info.x == p.art.x + p.art.width + 2,
        p.info.x + p.info.width == a.x + a.width,
{
}

/// The card says what kind of thing plays.
pub proof fn player_is_titled_by_what_plays(m: MusicStats)
    ensures
        m.source == MediaSource::Tv ==> player_title(m)[0].text == " "@ + "NOW WATCHING"@ + " "@,
        m.source == MediaSource::Music ==> player_title(m)[0].text == " "@ + "NOW PLAYING"@ + " "@,
        player_title(m).len() == 1,
{
}

} // verus!
