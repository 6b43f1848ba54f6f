//! What a card consists of: areas of cells, pieces of coloured text, lines.
//!
//! Colours are named, not computed: a piece says which hue it has, between which
//! two hues it lies and how far, or which moving light passes over it.

use vstd::prelude::*;
use crate::lrc::Share;
use crate::text;

verus! {

/// A rectangle of cells.
#[derive(Clone, Copy, Debug, PartialEq, Eq, Structural)]
pub struct Area {
    pub x: u16,
    pub y: u16,
    pub width: u16,
    pub height: u16,
}

impl Area {
    /// The far edges can be named.
    pub open spec fn wf(self) -> bool {
        self.x + self.width <= u16::MAX && self.y + self.height <= u16::MAX
    }
}

/// A number minus another, zero at least.
pub open spec fn minus(a: int, b: int) -> int {
    if a > b {
        a - b
    } else {
        0
    }
}

/// The inside of a card: within its border and one cell of padding left and right.
pub open spec fn inside(a: Area) -> Area {
    let right = if a.x + a.width <= u16::MAX {
        a.x + a.width
    } else {
        u16::MAX as int
    };
    let bottom = if a.y + a.height <= u16::MAX {
        a.y + a.height
    } else {
        u16::MAX as int
    };
    let x = if a.x + 1 < right {
        a.x + 1
    } else {
        right
    };
    let y = if a.y + 1 < bottom {
        a.y + 1
    } else {
        bottom
    };
    Area {
        x: (if x < u16::MAX {
            x + 1
        } else {
            x
        }) as u16,
        y: y as u16,
        width: minus(a.width as int, 4) as u16,
        height: minus(a.height as int, 2) as u16,
    }
}

/// The inside of a card.
pub fn inner(a: Area) -> (r: Area)
    ensures
        r == inside(a),
        a.wf() ==> r.y + r.height <= u16::MAX && r.height <= minus(a.height as int, 2) && r.width
            <= minus(a.width as int, 4),
        a.wf() && a.width >= 4 ==> r.x + r.width <= u16::MAX && r.x == a.x + 2,
        a.wf() && a.height >= 2 ==> r.y == a.y + 1 && r.y + r.height < a.y + a.height,
{
    let right: u32 = if a.x as u32 + a.width as u32 <= 0xffff {
        a.x as u32 + a.width as u32
    } else {
        0xffff
    };
    let bottom: u32 = if a.y as u32 + a.height as u32 <= 0xffff {
        a.y as u32 + a.height as u32
    } else {
        0xffff
    };
    let x: u32 = if a.x as u32 + 1 < right {
        a.x as u32 + 1
    } else {
        right
    };
    let y: u32 = if a.y as u32 + 1 < bottom {
        a.y as u32 + 1
    } else {
        bottom
    };
    Area {
        x: if x < 0xffff {
            (x + 1) as u16
        } else {
            x as u16
        },
        y: y as u16,
        width: if a.width > 4 {
            a.width - 4
        } else {
            0
        },
        height: if a.height > 2 {
            a.height - 2
        } else {
            0
        },
    }
}

/// The named hues.
#[derive(Clone, Copy, Debug, PartialEq, Eq, Structural)]
pub enum Hue {
    Bg,
    Text,
    Dim,
    Faint,
    Accent,
    Cyan,
    Pink,
    Green,
    Yellow,
    Red,
    BorderHot,
}

/// How a piece of text is coloured.
#[derive(Clone, Copy, Debug, PartialEq, Eq, Structural)]
pub enum Ink {
    /// Not at all.
    Raw,
    /// In one hue.
    Flat(Hue),
    /// Between two hues, so far from the first to the second.
    Mix(Hue, Hue, Share),
    /// Between two hues, eased in and out.
    Smooth(Hue, Hue, Share),
    /// On the ramp from cyan over violet and pink to white.
    Jazz(Share),
    /// A glint travels over a base between two hues; stacked rows are offset.
    Sheen(Hue, Hue, Share, usize),
    /// A fast glint travels over one hue.
    Urgent(Hue),
    /// The blinking caret.
    Caret,
    /// A beat in a hue, weaker with age; stacked rows are offset.
    Pulse(Hue, u64, usize),
    /// The glint of a text that is being sent, so far along.
    Whoosh(Share),
    /// A character of the line being sung that has been sung, so far into the line.
    Wiped(Share),
    /// The character being sung: how far into the line it is, and how much of it
    /// has been sung.
    Wiping(Share, Share),
    /// A character of the line being sung that is still to come.
    Pending,
    /// Soft white that breathes slowly.
    Breath,
}

/// A piece of text in one style.
#[derive(Clone, Debug, PartialEq, Eq)]
pub struct Piece {
    pub text: String,
    pub ink: Ink,
    pub bold: bool,
    pub italic: bool,
}

/// A piece of text in one style, as a mathematical value.
#[verifier::ext_equal]
pub struct Bit {
    pub text: Seq<char>,
    pub ink: Ink,
    pub bold: bool,
    pub italic: bool,
}

/// A piece as a mathematical value.
pub open spec fn bit(p: Piece) -> Bit {
    Bit { text: p.text@, ink: p.ink, bold: p.bold, italic: p.italic }
}

/// A line as a mathematical value.
pub open spec fn bits(v: Seq<Piece>) -> Seq<Bit> {
    Seq::new(v.len(), |i: int| bit(v[i]))
}

/// Lines as mathematical values.
pub open spec fn rows(v: Seq<Vec<Piece>>) -> Seq<Seq<Bit>> {
    Seq::new(v.len(), |i: int| bits(v[i]@))
}

/// Plain text in an ink.
pub open spec fn inked(s: Seq<char>, ink: Ink) -> Bit {
    Bit { text: s, ink, bold: false, italic: false }
}

/// Bold text in an ink.
pub open spec fn strong(s: Seq<char>, ink: Ink) -> Bit {
    Bit { text: s, ink, bold: true, italic: false }
}

/// Slanted text in an ink.
pub open spec fn slanted(s: Seq<char>, ink: Ink) -> Bit {
    Bit { text: s, ink, bold: false, italic: true }
}

/// Text without a style.
pub open spec fn raw(s: Seq<char>) -> Bit {
    inked(s, Ink::Raw)
}

/// Plain text in a hue.
pub open spec fn flat(s: Seq<char>, hue: Hue) -> Bit {
    inked(s, Ink::Flat(hue))
}

/// Bold text in a hue.
pub open spec fn bold(s: Seq<char>, hue: Hue) -> Bit {
    strong(s, Ink::Flat(hue))
}

/// Appends text in an ink.
pub fn push_ink(line: &mut Vec<Piece>, s: String, ink: Ink)
    ensures
        bits(final(line)@) == bits(old(line)@).push(inked(s@, ink)),
{
    line.push(Piece { text: s, ink, bold: false, italic: false });
    proof {
        assert(bits(line@) =~= bits(old(line)@).push(inked(s@, ink)));
    }
}

/// Appends bold text in an ink.
pub fn push_strong(line: &mut Vec<Piece>, s: String, ink: Ink)
    ensures
        bits(final(line)@) == bits(old(line)@).push(strong(s@, ink)),
{
    line.push(Piece { text: s, ink, bold: true, italic: false });
    proof {
        assert(bits(line@) =~= bits(old(line)@).push(strong(s@, ink)));
    }
}

/// Appends slanted text in an ink.
pub fn push_slanted(line: &mut Vec<Piece>, s: String, ink: Ink)
    ensures
        bits(final(line)@) == bits(old(line)@).push(slanted(s@, ink)),
{
    line.push(Piece { text: s, ink, bold: false, italic: true });
    proof {
        assert(bits(line@) =~= bits(old(line)@).push(slanted(s@, ink)));
    }
}

/// Appends text without a style.
pub fn push_raw(line: &mut Vec<Piece>, s: &str)
    ensures
        bits(final(line)@) == bits(old(line)@).push(raw(s@)),
{
    push_ink(line, s.to_string(), Ink::Raw);
}

/// Appends text in a hue.
pub fn push_flat(line: &mut Vec<Piece>, s: &str, hue: Hue)
    ensures
        bits(final(line)@) == bits(old(line)@).push(flat(s@, hue)),
{
    push_ink(line, s.to_string(), Ink::Flat(hue));
}

/// Appends bold text in a hue.
pub fn push_bold(line: &mut Vec<Piece>, s: &str, hue: Hue)
    ensures
        bits(final(line)@) == bits(old(line)@).push(bold(s@, hue)),
{
    push_strong(line, s.to_string(), Ink::Flat(hue));
}

/// A line without a piece.
pub fn line() -> (r: Vec<Piece>)
    ensures
        bits(r@) == Seq::<Bit>::empty(),
        r@.len() == 0,
{
    let r: Vec<Piece> = Vec::new();
    proof {
        assert(bits(r@) =~= Seq::<Bit>::empty());
    }
    r
}

/// A line of one text in a hue.
pub fn flat_line(s: &str, hue: Hue) -> (r: Vec<Piece>)
    ensures
        bits(r@) == seq![flat(s@, hue)],
{
    let mut r = line();
    push_flat(&mut r, s, hue);
    proof {
        assert(bits(r@) =~= seq![flat(s@, hue)]);
    }
    r
}

/// Appends a line.
pub fn push_row(lines: &mut Vec<Vec<Piece>>, row: Vec<Piece>)
    ensures
        rows(final(lines)@) == rows(old(lines)@).push(bits(row@)),
{
    lines.push(row);
    proof {
        assert(rows(lines@) =~= rows(old(lines)@).push(bits(row@)));
    }
}

/// Appends lines.
pub fn push_rows(lines: &mut Vec<Vec<Piece>>, more: Vec<Vec<Piece>>)
    ensures
        rows(final(lines)@) == rows(old(lines)@) + rows(more@),
{
    let ghost added = more@;
    let mut more = more;
    lines.append(&mut more);
    proof {
        assert(rows(lines@) =~= rows(old(lines)@) + rows(added));
    }
}

/// The title of a plain card.
pub open spec fn plain_title(s: Seq<char>) -> Seq<Bit> {
    seq![bold(" "@ + s + " "@, Hue::Accent)]
}

/// The title of a plain card.
pub fn title(s: &str) -> (r: Vec<Piece>)
    ensures
        bits(r@) == plain_title(s@),
{
    let mut r = line();
    push_bold(&mut r, text::concat3(" ", s, " ").as_str(), Hue::Accent);
    proof {
        assert(bits(r@) =~= plain_title(s@));
    }
    r
}

/// A copy of a line.
pub fn copy_line(l: &Vec<Piece>) -> (r: Vec<Piece>)
    ensures
        bits(r@) == bits(l@),
{
    let mut r = line();
    let mut i: usize = 0;
    proof {
        assert(bits(l@).take(0) =~= Seq::<Bit>::empty());
    }
    while i < l.len()
        invariant
            i <= l@.len(),
            bits(r@) == bits(l@).take(i as int),
        decreases l@.len() - i,
    {
        let p = Piece {
            text: l[i].text.clone(),
            ink: l[i].ink,
            bold: l[i].bold,
            italic: l[i].italic,
        };
        let ghost before = bits(r@);
        r.push(p);
        proof {
            assert(bits(r@) =~= before.push(bit(l@[i as int])));
            assert(bits(l@).take(i + 1) =~= bits(l@).take(i as int).push(bits(l@)[i as int]));
        }
        i += 1;
    }
    proof {
        assert(bits(l@).take(i as int) =~= bits(l@));
    }
    r
}

/// The light that passes around a card's border.
#[derive(Clone, Copy, Debug, PartialEq, Eq, Structural)]
pub enum Sweep {
    /// None.
    Still,
    /// A calm call for attention.
    Calm,
    /// Somebody is talking: bright and fast.
    Talking,
}

/// The inside of a card.
#[derive(Clone, Debug, PartialEq, Eq)]
pub enum Body {
    /// Nothing is drawn.
    Blank,
    /// Lines from the top.
    Lines(Vec<Vec<Piece>>),
    /// One line, centred.
    Centered(Vec<Piece>),
    /// Lines from the top, so far visible.
    Page(Vec<Vec<Piece>>, Share),
}

/// The inside of a card, as a mathematical value.
pub enum Inside {
    Blank,
    Lines(Seq<Seq<Bit>>),
    Centered(Seq<Bit>),
    Page(Seq<Seq<Bit>>, Share),
}

/// The inside of a card as a mathematical value.
pub open spec fn body_view(b: Body) -> Inside {
    match b {
        Body::Blank => Inside::Blank,
        Body::Lines(v) => Inside::Lines(rows(v@)),
        Body::Centered(l) => Inside::Centered(bits(l@)),
        Body::Page(v, a) => Inside::Page(rows(v@), a),
    }
}

/// A card: its title, its border and its inside.
#[derive(Clone, Debug, PartialEq, Eq)]
pub struct Card {
    pub title: Vec<Piece>,
    /// How far the border flashes red.
    pub flash: Option<Share>,
    pub sweep: Sweep,
    pub body: Body,
}

/// A body of one line in a hue.
pub fn note_body(s: &str, hue: Hue) -> (r: Body)
    ensures
        body_view(r) == Inside::Lines(seq![seq![flat(s@, hue)]]),
{
    let mut lines: Vec<Vec<Piece>> = Vec::new();
    let l = flat_line(s, hue);
    push_row(&mut lines, l);
    proof {
        assert(rows(lines@) =~= seq![seq![flat(s@, hue)]]);
    }
    Body::Lines(lines)
}

/// A body of two lines, the second fainter.
pub fn hint_body(s: &str, hint: &str) -> (r: Body)
    ensures
        body_view(r) == Inside::Lines(
            seq![seq![flat(s@, Hue::Dim)], seq![flat(hint@, Hue::Faint)]],
        ),
{
    let mut lines: Vec<Vec<Piece>> = Vec::new();
    push_row(&mut lines, flat_line(s, Hue::Dim));
    push_row(&mut lines, flat_line(hint, Hue::Faint));
    proof {
        assert(rows(lines@) =~= seq![seq![flat(s@, Hue::Dim)], seq![flat(hint@, Hue::Faint)]]);
    }
    Body::Lines(lines)
}

/// A body of one centred line in a hue.
pub fn centered_body(s: &str, hue: Hue) -> (r: Body)
    ensures
        body_view(r) == Inside::Centered(seq![flat(s@, hue)]),
{
    Body::Centered(flat_line(s, hue))
}

/// The glyphs that boxes are drawn with.
pub open spec fn box_glyphs() -> Seq<Seq<char>> {
    seq![
        "─"@,
        "│"@,
        "╭"@,
        "╮"@,
        "╰"@,
        "╯"@,
        "┌"@,
        "┐"@,
        "└"@,
        "┘"@,
        "├"@,
        "┤"@,
        "┬"@,
        "┴"@,
        "┼"@,
    ]
}

/// Is this one of the glyphs that boxes are drawn with?
pub fn is_box_glyph(s: &str) -> (r: bool)
    ensures
        r == box_glyphs().contains(s@),
{
    let glyphs: Vec<&str> = vec![
        "─", "│", "╭", "╮", "╰", "╯", "┌", "┐", "└", "┘", "├", "┤", "┬", "┴", "┼",
    ];
    proof {
        assert(forall|j: int| 0 <= j < 15 ==> glyphs@[j]@ == #[trigger] box_glyphs()[j]);
    }
    let mut i: usize = 0;
    while i < glyphs.len()
        invariant
            i <= glyphs@.len() == box_glyphs().len(),
            forall|j: int| 0 <= j < glyphs@.len() ==> glyphs@[j]@ == #[trigger] box_glyphs()[j],
            forall|j: int| 0 <= j < i ==> #[trigger] box_glyphs()[j] != s@,
        decreases glyphs@.len() - i,
    {
        if text::same_str(glyphs[i], s) {
            proof {
                assert(box_glyphs()[i as int] == s@);
            }
            return true;
        }
        i += 1;
    }
    false
}

// ---------------------------------------------------------------------------
// Laws of cards.
// ---------------------------------------------------------------------------

/// The inside of a card lies within its border: two cells from either side, one row from top and
/// bottom.
pub proof fn insides_lie_within_the_border(a: Area)
    requires
        a.wf(),
        a.width >= 4,
        a.height >= 2,
    ensures
        ({
            let r = inside(a);
            &&& r.x == a.x + 2 && r.x + r.width + 2 == a.x + a.width
            &&& r.y == a.y + 1 && r.y + r.height + 1 == a.y + a.height
        }),
{
}

/// Plain text has no weight and no slant, bold text only weight, slanted text only slant; a title
/// stands bold between two spaces.
pub proof fn styles_are_kept_apart(s: Seq<char>, ink: Ink)
    ensures
        !inked(s, ink).bold && !inked(s, ink).italic && inked(s, ink).text == s && inked(
            s,
            ink,
        ).ink == ink,
        strong(s, ink).bold && !strong(s, ink).italic && strong(s, ink).text == s && strong(
            s,
            ink,
        ).ink == ink,
        !slanted(s, ink).bold && slanted(s, ink).italic && slanted(s, ink).text == s && slanted(
            s,
            ink,
        ).ink == ink,
        raw(s).ink == Ink::Raw,
        plain_title(s).len() == 1 && plain_title(s)[0].bold && plain_title(s)[0].text == " "@ + s
            + " "@,
{
}

} // verus!
