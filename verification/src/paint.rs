//! Colours: blends, ramps, and what an ink looks like.

use vstd::prelude::*;
use crate::lrc::Share;
use crate::panel::{Hue, Ink};
use crate::player;
use crate::text;
use crate::theme;
use crate::theme::Rgb;

verus! {

/// The background.
pub const BG: Rgb = (13, 14, 22);

/// A calm border.
pub const PANEL_BORDER: Rgb = (44, 48, 74);

/// The border of a card.
pub const PANEL_BORDER_HOT: Rgb = (108, 92, 231);

/// Text.
pub const TEXT: Rgb = (206, 212, 235);

/// Quiet text.
pub const DIM: Rgb = (108, 116, 150);

/// Very quiet text.
pub const FAINT: Rgb = (70, 76, 104);

/// Green.
pub const GREEN: Rgb = (94, 234, 160);

/// Yellow.
pub const YELLOW: Rgb = (255, 209, 102);

/// Red.
pub const RED: Rgb = (255, 95, 109);

/// The end of the ramp.
pub const WHITE: Rgb = (245, 245, 255);

/// The accents of a frame.
#[derive(Clone, Copy, Debug, PartialEq, Eq)]
pub struct Palette {
    pub accent: Rgb,
    pub cyan: Rgb,
    pub pink: Rgb,
}

// ---------------------------------------------------------------------------
// Blends.
// ---------------------------------------------------------------------------

/// A share of at most the whole, as two numbers.
pub open spec fn part(s: Share) -> (int, int) {
    (
        if s.num < s.den {
            s.num as int
        } else {
            s.den as int
        },
        s.den as int,
    )
}

/// One channel, `p.0` of `p.1` of the way from `x` to `y`, rounded, halves up.
pub open spec fn mixed_channel(x: u8, y: u8, p: (int, int)) -> int {
    player::rounded(x * (p.1 - p.0) + y * p.0, p.1)
}

/// A colour between two others.
pub open spec fn mixed(a: Rgb, b: Rgb, p: (int, int)) -> Rgb {
    (
        mixed_channel(a.0, b.0, p) as u8,
        mixed_channel(a.1, b.1, p) as u8,
        mixed_channel(a.2, b.2, p) as u8,
    )
}

proof fn channel_fits(x: u8, y: u8, p: (int, int))
    requires
        0 <= p.0 <= p.1,
        0 < p.1,
    ensures
        0 <= x * (p.1 - p.0) + y * p.0 <= 255 * p.1,
        0 <= mixed_channel(x, y, p) <= 255,
{
    let n = x * (p.1 - p.0) + y * p.0;
    assert(0 <= n <= 255 * p.1) by (nonlinear_arith)
        requires
            n == x * (p.1 - p.0) + y * p.0,
            0 <= x <= 255,
            0 <= y <= 255,
            0 <= p.0 <= p.1,
    ;
    assert(0 <= (2 * n + p.1) / (2 * p.1) <= 255) by (nonlinear_arith)
        requires
            0 <= n <= 255 * p.1,
            0 < p.1,
    ;
}

fn mix_channel(x: u8, y: u8, num: u128, den: u128) -> (r: u8)
    requires
        num <= den,
        0 < den <= 0x1_0000_0000_0000_0000_0000_0000_0000,
    ensures
        r == mixed_channel(x, y, (num as int, den as int)),
{
    proof {
        channel_fits(x, y, (num as int, den as int));
        assert(0 <= x * (den - num) <= 255 * den && 0 <= y * num <= 255 * den) by (nonlinear_arith)
            requires
                0 <= x <= 255,
                0 <= y <= 255,
                0 <= num <= den,
        ;
    }
    let n: u128 = x as u128 * (den - num) + y as u128 * num;
    ((2 * n + den) / (2 * den)) as u8
}

fn mix(a: Rgb, b: Rgb, num: u128, den: u128) -> (r: Rgb)
    requires
        num <= den,
        0 < den <= 0x1_0000_0000_0000_0000_0000_0000_0000,
    ensures
        r == mixed(a, b, (num as int, den as int)),
{
    (
        mix_channel(a.0, b.0, num, den),
        mix_channel(a.1, b.1, num, den),
        mix_channel(a.2, b.2, num, den),
    )
}

fn cut(s: Share) -> (r: u128)
    ensures
        r == part(s).0,
        r <= s.den,
{
    if s.num < s.den {
        s.num as u128
    } else {
        s.den as u128
    }
}

/// A colour so far from one to another.
pub fn blend(a: Rgb, b: Rgb, s: Share) -> (r: Rgb)
    requires
        0 < s.den,
    ensures
        r == mixed(a, b, part(s)),
{
    mix(a, b, cut(s), s.den as u128)
}

/// A blend starts at one colour and ends at the other, and each channel stays between
/// the two.
pub proof fn blends_stay_between(x: u8, y: u8, p: (int, int))
    requires
        0 <= p.0 <= p.1,
        0 < p.1,
    ensures
        p.0 == 0 ==> mixed_channel(x, y, p) == x,
        p.0 == p.1 ==> mixed_channel(x, y, p) == y,
        x <= y ==> x <= mixed_channel(x, y, p) <= y,
        y <= x ==> y <= mixed_channel(x, y, p) <= x,
{
    let d = p.1;
    let n = x * (d - p.0) + y * p.0;
    assert(p.0 == 0 ==> n == x * d) by (nonlinear_arith)
        requires
            n == x * (d - p.0) + y * p.0,
    ;
    assert(p.0 == d ==> n == y * d) by (nonlinear_arith)
        requires
            n == x * (d - p.0) + y * p.0,
    ;
    assert((2 * (x * d) + d) / (2 * d) == x) by (nonlinear_arith)
        requires
            0 < d,
            0 <= x,
    ;
    assert((2 * (y * d) + d) / (2 * d) == y) by (nonlinear_arith)
        requires
            0 < d,
            0 <= y,
    ;
    if x <= y {
        assert(x * d <= n <= y * d) by (nonlinear_arith)
            requires
                n == x * (d - p.0) + y * p.0,
                0 <= p.0 <= d,
                0 <= x <= y,
        ;
        assert(x <= (2 * n + d) / (2 * d) <= y) by (nonlinear_arith)
            requires
                x * d <= n <= y * d,
                0 < d,
        ;
    }
    if y <= x {
        assert(y * d <= n <= x * d) by (nonlinear_arith)
            requires
                n == x * (d - p.0) + y * p.0,
                0 <= p.0 <= d,
                0 <= y <= x,
        ;
        assert(y <= (2 * n + d) / (2 * d) <= x) by (nonlinear_arith)
            requires
                y * d <= n <= x * d,
                0 < d,
        ;
    }
}

// ---------------------------------------------------------------------------
// Ramps.
// ---------------------------------------------------------------------------

/// The ramp from cyan over violet and pink to white.
pub open spec fn jazz_at(p: Palette, s: (int, int)) -> Rgb {
    if 5 * s.0 < 2 * s.1 {
        mixed(p.cyan, p.accent, (5 * s.0, 2 * s.1))
    } else if 4 * s.0 < 3 * s.1 {
        mixed(p.accent, p.pink, (20 * s.0 - 8 * s.1, 7 * s.1))
    } else {
        mixed(p.pink, WHITE, (4 * s.0 - 3 * s.1, s.1))
    }
}

/// A colour of the ramp from cyan over violet and pink to white.
pub fn jazz(p: Palette, s: Share) -> (r: Rgb)
    requires
        0 < s.den,
    ensures
        r == jazz_at(p, part(s)),
{
    let num: u128 = cut(s);
    let den: u128 = s.den as u128;
    if 5 * num < 2 * den {
        mix(p.cyan, p.accent, 5 * num, 2 * den)
    } else if 4 * num < 3 * den {
        mix(p.accent, p.pink, 20 * num - 8 * den, 7 * den)
    } else {
        mix(p.pink, WHITE, 4 * num - 3 * den, den)
    }
}

/// The ramp of sung text: cyan, violet, pink.
pub open spec fn wipe_at(p: Palette, s: (int, int)) -> Rgb {
    if 2 * s.0 < s.1 {
        mixed(p.cyan, p.accent, (2 * s.0, s.1))
    } else {
        mixed(p.accent, p.pink, (2 * s.0 - s.1, s.1))
    }
}

/// A colour of the ramp of sung text.
pub fn wipe(p: Palette, s: Share) -> (r: Rgb)
    requires
        0 < s.den,
    ensures
        r == wipe_at(p, part(s)),
{
    let num: u128 = cut(s);
    let den: u128 = s.den as u128;
    if 2 * num < den {
        mix(p.cyan, p.accent, 2 * num, den)
    } else {
        mix(p.accent, p.pink, 2 * num - den, den)
    }
}

/// The ramp starts at cyan and ends at white.
pub proof fn ramp_has_ends(p: Palette, den: int)
    requires
        0 < den,
    ensures
        jazz_at(p, (0, den)) == p.cyan,
        jazz_at(p, (den, den)) == WHITE,
        wipe_at(p, (0, den)) == p.cyan,
        wipe_at(p, (den, den)) == p.pink,
{
    blends_stay_between(p.cyan.0, p.accent.0, (0, 2 * den));
    blends_stay_between(p.cyan.1, p.accent.1, (0, 2 * den));
    blends_stay_between(p.cyan.2, p.accent.2, (0, 2 * den));
    blends_stay_between(p.cyan.0, p.accent.0, (0, den));
    blends_stay_between(p.cyan.1, p.accent.1, (0, den));
    blends_stay_between(p.cyan.2, p.accent.2, (0, den));
    blends_stay_between(p.pink.0, WHITE.0, (den, den));
    blends_stay_between(p.pink.1, WHITE.1, (den, den));
    blends_stay_between(p.pink.2, WHITE.2, (den, den));
    blends_stay_between(p.accent.0, p.pink.0, (den, den));
    blends_stay_between(p.accent.1, p.pink.1, (den, den));
    blends_stay_between(p.accent.2, p.pink.2, (den, den));
}

// ---------------------------------------------------------------------------
// Inks.
// ---------------------------------------------------------------------------

/// The colour of a hue.
pub open spec fn hue_at(p: Palette, h: Hue) -> Rgb {
    match h {
        Hue::Bg => BG,
        Hue::Text => TEXT,
        Hue::Dim => DIM,
        Hue::Faint => FAINT,
        Hue::Accent => p.accent,
        Hue::Cyan => p.cyan,
        Hue::Pink => p.pink,
        Hue::Green => GREEN,
        Hue::Yellow => YELLOW,
        Hue::Red => RED,
        Hue::BorderHot => PANEL_BORDER_HOT,
    }
}

/// The colour of a hue.
pub fn hue(p: Palette, h: Hue) -> (r: Rgb)
    ensures
        r == hue_at(p, h),
{
    match h {
        Hue::Bg => BG,
        Hue::Text => TEXT,
        Hue::Dim => DIM,
        Hue::Faint => FAINT,
        Hue::Accent => p.accent,
        Hue::Cyan => p.cyan,
        Hue::Pink => p.pink,
        Hue::Green => GREEN,
        Hue::Yellow => YELLOW,
        Hue::Red => RED,
        Hue::BorderHot => PANEL_BORDER_HOT,
    }
}

/// A share eased in and out.
pub open spec fn smooth(s: (int, int)) -> (int, int) {
    (s.0 * s.0 * (3 * s.1 - 2 * s.0), s.1 * s.1 * s.1)
}

/// The colour of text that is still to be sung.
pub open spec fn pending_at(p: Palette) -> Rgb {
    mixed(DIM, p.accent, (45, 100))
}

/// The share of an ink can be worked with.
pub open spec fn share_ok(s: Share) -> bool {
    0 < s.den
}

/// The shares of an ink can be worked with.
pub open spec fn ink_ok(i: Ink) -> bool {
    match i {
        Ink::Mix(_, _, s) => share_ok(s),
        Ink::Smooth(_, _, s) => 0 < s.den <= u32::MAX,
        Ink::Jazz(s) => share_ok(s),
        Ink::Wiped(s) => share_ok(s),
        Ink::Wiping(s, t) => share_ok(s) && share_ok(t),
        _ => true,
    }
}

/// The colour of an ink that stands still; none for text without a colour and for inks
/// that move by themselves.
pub open spec fn ink_at(p: Palette, i: Ink) -> Option<Rgb> {
    match i {
        Ink::Flat(h) => Some(hue_at(p, h)),
        Ink::Mix(a, b, s) => Some(mixed(hue_at(p, a), hue_at(p, b), part(s))),
        Ink::Smooth(a, b, s) => Some(mixed(hue_at(p, a), hue_at(p, b), smooth(part(s)))),
        Ink::Jazz(s) => Some(jazz_at(p, part(s))),
        Ink::Wiped(s) => Some(wipe_at(p, part(s))),
        Ink::Wiping(s, t) => Some(mixed(pending_at(p), wipe_at(p, part(s)), part(t))),
        Ink::Pending => Some(pending_at(p)),
        _ => None,
    }
}

fn smooth_mix(a: Rgb, b: Rgb, s: Share) -> (r: Rgb)
    requires
        0 < s.den <= u32::MAX,
    ensures
        r == mixed(a, b, smooth(part(s))),
{
    let num: u128 = cut(s);
    let den: u128 = s.den as u128;
    proof {
        assert(0 <= num * num <= 0xffff_ffff * 0xffff_ffff && 0 < den * den <= 0xffff_ffff
            * 0xffff_ffff) by (nonlinear_arith)
            requires
                0 <= num <= den,
                0 < den <= 0xffff_ffff,
        ;
        assert(0 < den * den * den <= 0xffff_ffff * 0xffff_ffff * 0xffff_ffff) by (nonlinear_arith)
            requires
                0 < den <= 0xffff_ffff,
                0 < den * den <= 0xffff_ffff * 0xffff_ffff,
        ;
        assert(0 <= num * num * (3 * den - 2 * num) <= den * den * den) by (nonlinear_arith)
            requires
                0 <= num <= den,
        {
            assert(num * num >= 0);
            assert(den * den * den - num * num * (3 * den - 2 * num) == (den - num) * (den - num)
                * (den + 2 * num));
            assert((den - num) * (den - num) >= 0);
        }
    }
    mix(a, b, num * num * (3 * den - 2 * num), den * den * den)
}

/// The colour of an ink that stands still.
pub fn ink_rgb(p: Palette, i: Ink) -> (r: Option<Rgb>)
    requires
        ink_ok(i),
    ensures
        r == ink_at(p, i),
{
    match i {
        Ink::Flat(h) => Some(hue(p, h)),
        Ink::Mix(a, b, s) => Some(blend(hue(p, a), hue(p, b), s)),
        Ink::Smooth(a, b, s) => Some(smooth_mix(hue(p, a), hue(p, b), s)),
        Ink::Jazz(s) => Some(jazz(p, s)),
        Ink::Wiped(s) => Some(wipe(p, s)),
        Ink::Wiping(s, t) => Some(blend(mix(DIM, p.accent, 45, 100), wipe(p, s), t)),
        Ink::Pending => Some(mix(DIM, p.accent, 45, 100)),
        _ => None,
    }
}

// ---------------------------------------------------------------------------
// Fading text.
// ---------------------------------------------------------------------------

/// So much of a text is seen that it is drawn as it is.
pub open spec fn clear(seen: Share) -> bool {
    seen.num * 1000 >= seen.den * 999
}

/// The colour of a text of which a share is seen: what is left goes to the background. A
/// text without a colour fades as plain text does.
pub open spec fn faded_at(fg: Option<Rgb>, seen: Share) -> Option<Rgb> {
    if clear(seen) {
        fg
    } else {
        let base = match fg {
            Some(c) => c,
            None => TEXT,
        };
        Some(mixed(base, BG, (seen.den - seen.num, seen.den as int)))
    }
}

/// The colour of a text of which a share is seen.
pub fn faded(fg: Option<Rgb>, seen: Share) -> (r: Option<Rgb>)
    requires
        0 < seen.den,
    ensures
        r == faded_at(fg, seen),
{
    if seen.num as u128 * 1000 >= seen.den as u128 * 999 {
        fg
    } else {
        let base = match fg {
            Some(c) => c,
            None => TEXT,
        };
        Some(mix(base, BG, (seen.den - seen.num) as u128, seen.den as u128))
    }
}

/// A text that is seen whole keeps its colour, and one that is not seen has that of the
/// background.
pub proof fn fading_text_has_ends(fg: Option<Rgb>, seen: Share)
    requires
        0 < seen.den,
    ensures
        seen.num >= seen.den ==> faded_at(fg, seen) == fg,
        seen.num == 0 ==> faded_at(fg, seen) == Some(BG),
{
    if seen.num == 0 {
        let base = match fg {
            Some(c) => c,
            None => TEXT,
        };
        let p = (seen.den as int, seen.den as int);
        blends_stay_between(base.0, BG.0, p);
        blends_stay_between(base.1, BG.1, p);
        blends_stay_between(base.2, BG.2, p);
    }
}

// ---------------------------------------------------------------------------
// Bars.
// ---------------------------------------------------------------------------

/// A bar as text; more than the whole is the whole.
pub open spec fn bar_text(s: Share, width: int) -> Seq<char> {
    let b = player::bar(Share { num: part(s).0 as u64, den: s.den }, width);
    text::repeated('█', b.full as int) + (match b.part {
        Some(c) => seq![c],
        None => seq![],
    }) + text::repeated('░', b.rail as int)
}

/// A horizontal bar of block glyphs, filled to an eighth of a cell.
pub fn bar(s: Share, width: usize) -> (r: String)
    requires
        0 < s.den,
        width <= u32::MAX,
    ensures
        width > 0 ==> r@ == bar_text(s, width as int),
        r@.len() == width,
{
    let mut out = String::new();
    if width == 0 {
        return out;
    }
    let b = player::progress_bar(Share { num: cut(s) as u64, den: s.den }, width);
    text::push_repeat(&mut out, '█', b.full);
    match b.part {
        Some(c) => {
            out.push(c);
        },
        None => {},
    }
    text::push_repeat(&mut out, '░', b.rail);
    proof {
        assert(out@ =~= bar_text(s, width as int));
    }
    out
}

/// The glyph of a cell that is filled to a share from below.
pub fn vblock(s: Share) -> (r: char)
    requires
        0 < s.den,
    ensures
        r == theme::block_glyph(theme::scaled(part(s).0, s.den as int, 8)),
{
    let num: u64 = if s.num < s.den {
        s.num
    } else {
        s.den
    };
    theme::block_char(theme::scale(num, s.den, 8))
}

// ---------------------------------------------------------------------------
// Laws of colours.
// ---------------------------------------------------------------------------

/// A channel of a blend is the closest to the point that lies so far on the way.
pub open spec fn lies_at(c: int, x: u8, y: u8, num: int, den: int) -> bool {
    -den <= 2 * (den * c - (x * (den - num) + y * num)) <= den
}

/// A blend lies in proportion between its two colours.
pub proof fn blends_lie_in_proportion(x: u8, y: u8, p: (int, int))
    requires
        0 <= p.0 <= p.1,
        0 < p.1,
    ensures
        lies_at(mixed_channel(x, y, p), x, y, p.0, p.1),
{
    let a = x * (p.1 - p.0) + y * p.0;
    vstd::arithmetic::div_mod::lemma_fundamental_div_mod(2 * a + p.1, 2 * p.1);
    let q = (2 * a + p.1) / (2 * p.1);
    assert((2 * p.1) * q == 2 * (p.1 * q)) by (nonlinear_arith);
}

/// A blend treats red, green and blue alike, each by itself.
pub proof fn channels_blend_by_themselves(a: Rgb, b: Rgb, s: Share)
    requires
        0 < s.den,
        s.num <= s.den,
    ensures
        ({
            let c = mixed(a, b, part(s));
            &&& lies_at(c.0 as int, a.0, b.0, s.num as int, s.den as int)
            &&& lies_at(c.1 as int, a.1, b.1, s.num as int, s.den as int)
            &&& lies_at(c.2 as int, a.2, b.2, s.num as int, s.den as int)
        }),
{
    let p = part(s);
    blends_lie_in_proportion(a.0, b.0, p);
    blends_lie_in_proportion(a.1, b.1, p);
    blends_lie_in_proportion(a.2, b.2, p);
    channel_fits(a.0, b.0, p);
    channel_fits(a.1, b.1, p);
    channel_fits(a.2, b.2, p);
}

/// The ramp is violet at two fifths and pink at three quarters, and on the way it blends the two
/// colours around it in proportion.
pub proof fn ramp_passes_its_colours(p: Palette, num: int, den: int)
    requires
        0 <= num <= den,
        0 < den,
    ensures
        5 * num == 2 * den ==> jazz_at(p, (num, den)) == p.accent,
        4 * num == 3 * den ==> jazz_at(p, (num, den)) == p.pink,
        num == den ==> jazz_at(p, (num, den)) == (245u8, 245u8, 255u8),
        5 * num < 2 * den ==> lies_at(
            jazz_at(p, (num, den)).0 as int,
            p.cyan.0,
            p.accent.0,
            5 * num,
            2 * den,
        ) && lies_at(jazz_at(p, (num, den)).1 as int, p.cyan.1, p.accent.1, 5 * num, 2 * den)
            && lies_at(jazz_at(p, (num, den)).2 as int, p.cyan.2, p.accent.2, 5 * num, 2 * den),
        2 * den < 5 * num && 4 * num < 3 * den ==> lies_at(
            jazz_at(p, (num, den)).0 as int,
            p.accent.0,
            p.pink.0,
            20 * num - 8 * den,
            7 * den,
        ),
        3 * den < 4 * num ==> lies_at(
            jazz_at(p, (num, den)).0 as int,
            p.pink.0,
            245,
            4 * num - 3 * den,
            den,
        ),
{
    if 5 * num < 2 * den {
        let q = (5 * num, 2 * den);
        blends_lie_in_proportion(p.cyan.0, p.accent.0, q);
        blends_lie_in_proportion(p.cyan.1, p.accent.1, q);
        blends_lie_in_proportion(p.cyan.2, p.accent.2, q);
        channel_fits(p.cyan.0, p.accent.0, q);
        channel_fits(p.cyan.1, p.accent.1, q);
        channel_fits(p.cyan.2, p.accent.2, q);
    } else if 4 * num < 3 * den {
        let q = (20 * num - 8 * den, 7 * den);
        blends_lie_in_proportion(p.accent.0, p.pink.0, q);
        channel_fits(p.accent.0, p.pink.0, q);
        blends_stay_between(p.accent.0, p.pink.0, q);
        blends_stay_between(p.accent.1, p.pink.1, q);
        blends_stay_between(p.accent.2, p.pink.2, q);
    } else {
        let q = (4 * num - 3 * den, den);
        blends_lie_in_proportion(p.pink.0, WHITE.0, q);
        channel_fits(p.pink.0, WHITE.0, q);
        blends_stay_between(p.pink.0, WHITE.0, q);
        blends_stay_between(p.pink.1, WHITE.1, q);
        blends_stay_between(p.pink.2, WHITE.2, q);
    }
}

/// Sung text goes from cyan over violet, in its middle, to pink.
pub proof fn sung_text_passes_its_colours(p: Palette, num: int, den: int)
    requires
        0 <= num <= den,
        0 < den,
    ensures
        2 * num == den ==> wipe_at(p, (num, den)) == p.accent,
        2 * num < den ==> lies_at(
            wipe_at(p, (num, den)).0 as int,
            p.cyan.0,
            p.accent.0,
            2 * num,
            den,
        ),
        2 * num > den ==> lies_at(
            wipe_at(p, (num, den)).0 as int,
            p.accent.0,
            p.pink.0,
            2 * num - den,
            den,
        ),
{
    if 2 * num < den {
        blends_lie_in_proportion(p.cyan.0, p.accent.0, (2 * num, den));
        channel_fits(p.cyan.0, p.accent.0, (2 * num, den));
    } else {
        let q = (2 * num - den, den);
        blends_lie_in_proportion(p.accent.0, p.pink.0, q);
        channel_fits(p.accent.0, p.pink.0, q);
        blends_stay_between(p.accent.0, p.pink.0, q);
        blends_stay_between(p.accent.1, p.pink.1, q);
        blends_stay_between(p.accent.2, p.pink.2, q);
    }
}

/// Easing goes as slowly out as in: what is still missing so long before the end is what has
/// been gained so long after the start.
pub proof fn easing_is_even(num: int, den: int)
    requires
        0 <= num <= den,
        0 < den,
    ensures
        smooth((num, den)).1 == den * den * den,
        smooth((num, den)).0 + smooth((den - num, den)).0 == den * den * den,
        smooth((0, den)).0 == 0,
        smooth((den, 4 * den)).0 * 64 == 10 * smooth((den, 4 * den)).1,
{
    assert(num * num * (3 * den - 2 * num) + (den - num) * (den - num) * (3 * den - 2 * (den - num))
        == den * den * den) by (nonlinear_arith);
    assert(den * den * (3 * (4 * den) - 2 * den) * 64 == 10 * ((4 * den) * (4 * den) * (4 * den)))
        by (nonlinear_arith);
    assert(0 * 0 * (3 * den - 2 * 0) == 0) by (nonlinear_arith);
}

/// A text below 99.9 percent fades in proportion towards the background, one from there on is
/// drawn as it is.
pub proof fn text_fades_to_the_background(fg: Rgb, seen: Share)
    requires
        0 < seen.den,
        seen.num <= seen.den,
    ensures
        1000 * seen.num >= 999 * seen.den ==> faded_at(Some(fg), seen) == Some(fg),
        1000 * seen.num >= 999 * seen.den ==> faded_at(None, seen) is None,
        1000 * seen.num < 999 * seen.den ==> faded_at(Some(fg), seen) is Some && ({
            let c = faded_at(Some(fg), seen)->0;
            &&& lies_at(c.0 as int, 13, fg.0, seen.num as int, seen.den as int)
            &&& lies_at(c.1 as int, 14, fg.1, seen.num as int, seen.den as int)
            &&& lies_at(c.2 as int, 22, fg.2, seen.num as int, seen.den as int)
        }),
        1000 * seen.num < 999 * seen.den ==> faded_at(None, seen) == faded_at(
            Some((206u8, 212u8, 235u8)),
            seen,
        ),
{
    let p = (seen.den - seen.num, seen.den as int);
    blends_lie_in_proportion(fg.0, BG.0, p);
    blends_lie_in_proportion(fg.1, BG.1, p);
    blends_lie_in_proportion(fg.2, BG.2, p);
    channel_fits(fg.0, BG.0, p);
    channel_fits(fg.1, BG.1, p);
    channel_fits(fg.2, BG.2, p);
}

/// Each hue is drawn in its own colour; violet, cyan and pink are those of the frame.
pub proof fn hues_have_their_colours(p: Palette)
    ensures
        hue_at(p, Hue::Bg) == (13u8, 14u8, 22u8),
        hue_at(p, Hue::Text) == (206u8, 212u8, 235u8),
        hue_at(p, Hue::Dim) == (108u8, 116u8, 150u8),
        hue_at(p, Hue::Faint) == (70u8, 76u8, 104u8),
        hue_at(p, Hue::Green) == (94u8, 234u8, 160u8),
        hue_at(p, Hue::Yellow) == (255u8, 209u8, 102u8),
        hue_at(p, Hue::Red) == (255u8, 95u8, 109u8),
        hue_at(p, Hue::BorderHot) == (108u8, 92u8, 231u8),
        hue_at(p, Hue::Accent) == p.accent,
        hue_at(p, Hue::Cyan) == p.cyan,
        hue_at(p, Hue::Pink) == p.pink,
{
}

/// An ink between two hues is the first at its start and the second at its end, and the
/// character being sung goes from the colour of what is to come to that of what has been sung.
pub proof fn inks_go_from_hue_to_hue(p: Palette, a: Hue, b: Hue, s: Share, den: u64)
    requires
        0 < den,
        0 < s.den,
    ensures
        ink_at(p, Ink::Mix(a, b, Share { num: 0, den })) == Some(hue_at(p, a)),
        ink_at(p, Ink::Mix(a, b, Share { num: den, den })) == Some(hue_at(p, b)),
        ink_at(p, Ink::Smooth(a, b, Share { num: 0, den })) == Some(hue_at(p, a)),
        ink_at(p, Ink::Smooth(a, b, Share { num: den, den })) == Some(hue_at(p, b)),
        ink_at(p, Ink::Wiping(s, Share { num: 0, den })) == ink_at(p, Ink::Pending),
        ink_at(p, Ink::Wiping(s, Share { num: den, den })) == ink_at(p, Ink::Wiped(s)),
        ink_at(p, Ink::Pending) is Some,
        lies_at((ink_at(p, Ink::Pending)->0).0 as int, 108, p.accent.0, 45, 100),
{
    let x = hue_at(p, a);
    let y = hue_at(p, b);
    let d = den as int;
    ends_of_mix(x, y, d);
    ends_of_mix(pending_at(p), wipe_at(p, part(s)), d);
    assert(d * d * (3 * d - 2 * d) == d * d * d) by (nonlinear_arith);
    assert(d * d * d > 0) by (nonlinear_arith)
        requires
            d > 0,
    ;
    assert(0 * 0 * (3 * d - 2 * 0) == 0) by (nonlinear_arith);
    ends_of_mix(x, y, d * d * d);
    blends_lie_in_proportion(DIM.0, p.accent.0, (45, 100));
    channel_fits(DIM.0, p.accent.0, (45, 100));
}

proof fn ends_of_mix(a: Rgb, b: Rgb, d: int)
    requires
        0 < d,
    ensures
        mixed(a, b, (0, d)) == a,
        mixed(a, b, (d, d)) == b,
{
    blends_stay_between(a.0, b.0, (0, d));
    blends_stay_between(a.1, b.1, (0, d));
    blends_stay_between(a.2, b.2, (0, d));
    blends_stay_between(a.0, b.0, (d, d));
    blends_stay_between(a.1, b.1, (d, d));
    blends_stay_between(a.2, b.2, (d, d));
}

/// A bar of text has as many characters as it is wide: full blocks, at most one that is partly
/// filled, and a rail behind; a full bar is all blocks, an empty one all rail.
pub proof fn bars_of_text_fill_their_width(s: Share, width: int, i: int)
    requires
        0 < s.den,
        0 <= i < width <= u32::MAX,
    ensures
        bar_text(s, width).len() == width,
        s.num >= s.den ==> bar_text(s, width)[i] == '█',
        s.num == 0 ==> bar_text(s, width)[i] == '░',
        s.num * width >= s.den * (i + 1) ==> bar_text(s, width)[i] == '█',
        s.num * width <= s.den * i ==> bar_text(s, width)[i] == '░',
{
    let n = part(s).0;
    let d = s.den as int;
    let c = Share { num: n as u64, den: s.den };
    player::bars_fill_in_proportion(c, width, 1);
    player::bars_have_ends(s.den, width);
    let b = player::bar(c, width);
    let e = player::eighths(c, width);
    let x = n * width;
    assert(x >= 0) by (nonlinear_arith)
        requires
            x == n * width,
            n >= 0,
            width >= 0,
    ;
    vstd::arithmetic::div_mod::lemma_fundamental_div_mod(2 * (8 * x) + d, 2 * d);
    let r = (2 * (8 * x) + d) % (2 * d);
    assert(x <= d * width) by (nonlinear_arith)
        requires
            x == n * width,
            n <= d,
            width >= 0,
    ;
    assert(0 <= e <= 8 * width) by (nonlinear_arith)
        requires
            16 * x + d == (2 * d) * e + r,
            0 <= r < 2 * d,
            0 <= x <= d * width,
            d > 0,
    ;
    assert(b.full == e / 8);
    if n < s.num {
        assert(s.num > s.den);
    } else {
        if s.num * width >= s.den * (i + 1) {
            assert(e >= 8 * (i + 1)) by (nonlinear_arith)
                requires
                    16 * x + d == (2 * d) * e + r,
                    0 <= r < 2 * d,
                    x >= d * (i + 1),
                    d > 0,
            ;
        }
        if s.num * width <= s.den * i {
            assert(e <= 8 * i) by (nonlinear_arith)
                requires
                    16 * x + d == (2 * d) * e + r,
                    0 <= r < 2 * d,
                    x <= d * i,
                    d > 0,
            ;
        }
    }
    if s.num >= s.den {
        assert(n == d);
        assert(c == (Share { num: s.den, den: s.den }));
    }
    if s.num > s.den && s.num * width <= s.den * i {
        assert(false) by (nonlinear_arith)
            requires
                s.num > s.den,
                s.num * width <= s.den * i,
                0 <= i < width,
        ;
    }
}

} // verus!
