//! The accent colours: taken from album art, kept near the house colours, and
//! cross-faded from cover to cover.
//!
//! Hues, saturations and lightnesses are exact fractions; a colour channel is
//! rounded once, at the end.

use vstd::prelude::*;
use crate::art::AlbumArt;
use crate::state;
use crate::text;

verus! {

/// Red, green and blue.
pub type Rgb = (u8, u8, u8);

/// The house violet.
pub const ACCENT_BASE: Rgb = (157, 124, 255);

/// The house cyan.
pub const CYAN_BASE: Rgb = (86, 214, 255);

/// The house pink.
pub const PINK_BASE: Rgb = (255, 110, 199);

/// One channel of a colour.
pub open spec fn channel(c: Rgb, ch: int) -> u8 {
    if ch == 0 {
        c.0
    } else if ch == 1 {
        c.1
    } else {
        c.2
    }
}

fn channel_of(c: Rgb, ch: u8) -> (r: u8)
    ensures
        r == channel(c, ch as int),
{
    if ch == 0 {
        c.0
    } else if ch == 1 {
        c.1
    } else {
        c.2
    }
}

// ---------------------------------------------------------------------------
// Packing.
// ---------------------------------------------------------------------------

/// A colour as one number.
pub open spec fn packed(c: Rgb) -> int {
    c.0 * 0x10000 + c.1 * 0x100 + c.2
}

/// A colour as one number.
pub fn pack(c: Rgb) -> (r: u32)
    ensures
        r == packed(c),
{
    c.0 as u32 * 0x10000 + c.1 as u32 * 0x100 + c.2 as u32
}

/// The colour that a number stands for; anything above 24 bits is ignored.
pub fn unpack(v: u32) -> (r: Rgb)
    ensures
        packed(r) == v % 0x100_0000,
{
    ((v / 0x10000 % 0x100) as u8, (v / 0x100 % 0x100) as u8, (v % 0x100) as u8)
}

/// Colours that pack to the same number are the same.
pub proof fn packing_tells_colours_apart(a: Rgb, b: Rgb)
    requires
        packed(a) == packed(b),
    ensures
        a == b,
{
}

// ---------------------------------------------------------------------------
// Cross-fading.
// ---------------------------------------------------------------------------

/// How long a cross-fade takes.
pub const THEME_FADE: u64 = 450_000_000;

/// The cube of [`THEME_FADE`].
pub const FADE_CUBED: i128 = 91_125_000_000_000_000_000_000_000;

/// The accent palette: where it fades from, where to, and since when.
#[derive(Clone, Debug)]
pub struct DynamicTheme {
    /// The cover that the target was derived from.
    pub source_track_id: String,
    /// Accent, cyan and pink that are being left.
    pub current: [Rgb; 3],
    /// Accent, cyan and pink that are being approached.
    pub target: [Rgb; 3],
    pub blend_start: u64,
}

/// One channel on its way from `x` to `y`, `gone` nanoseconds into the fade:
/// fast at first and slower towards the end (one minus the cube of what is left),
/// rounded to the nearest number, halves upwards.
pub open spec fn faded_channel(x: u8, y: u8, gone: int) -> int {
    let left = if gone < THEME_FADE {
        THEME_FADE - gone
    } else {
        0
    };
    (2 * (y * FADE_CUBED - (y - x) * (left * left * left)) + FADE_CUBED) / (2 * FADE_CUBED as int)
}

/// A colour on its way.
pub open spec fn faded(a: Rgb, b: Rgb, gone: int) -> (int, int, int) {
    (
        faded_channel(a.0, b.0, gone),
        faded_channel(a.1, b.1, gone),
        faded_channel(a.2, b.2, gone),
    )
}

/// The channels of a colour as numbers.
pub open spec fn levels(c: Rgb) -> (int, int, int) {
    (c.0 as int, c.1 as int, c.2 as int)
}

/// A colour of the palette at a moment.
pub open spec fn shown(t: DynamicTheme, i: int, now: u64) -> (int, int, int) {
    faded(t.current@[i], t.target@[i], state::since(t.blend_start, now))
}

proof fn cube_bounds(left: int)
    requires
        0 <= left <= THEME_FADE,
    ensures
        0 <= left * left * left <= FADE_CUBED,
        left == THEME_FADE ==> left * left * left == FADE_CUBED,
{
    assert(0 <= left * left <= 202_500_000_000_000_000) by (nonlinear_arith)
        requires
            0 <= left <= 450_000_000,
    ;
    let sq = left * left;
    assert(0 <= sq * left <= 91_125_000_000_000_000_000_000_000) by (nonlinear_arith)
        requires
            0 <= sq <= 202_500_000_000_000_000,
            0 <= left <= 450_000_000,
    ;
    if left == THEME_FADE {
        assert(left * left * left == 91_125_000_000_000_000_000_000_000) by (nonlinear_arith)
            requires
                left == 450_000_000,
        ;
    }
}

/// A channel on its way stays between where it comes from and where it goes.
pub proof fn fading_stays_between(x: u8, y: u8, gone: int)
    requires
        0 <= gone,
    ensures
        x <= y ==> x <= faded_channel(x, y, gone) <= y,
        y <= x ==> y <= faded_channel(x, y, gone) <= x,
{
    let left = if gone < THEME_FADE {
        THEME_FADE - gone
    } else {
        0
    };
    cube_bounds(left);
    let k = left * left * left;
    let f = FADE_CUBED as int;
    let n = 2 * (y * f - (y - x) * k) + f;
    if x <= y {
        assert(x * f <= y * f - (y - x) * k <= y * f) by (nonlinear_arith)
            requires
                0 <= k <= f,
                x <= y,
        ;
    } else {
        assert(y * f <= y * f - (y - x) * k <= x * f) by (nonlinear_arith)
            requires
                0 <= k <= f,
                y <= x,
        ;
    }
}

/// At the start of a fade a channel is where it comes from, at the end where it goes.
pub proof fn fading_has_ends(x: u8, y: u8, gone: int)
    ensures
        gone == 0 ==> faded_channel(x, y, gone) == x,
        gone >= THEME_FADE ==> faded_channel(x, y, gone) == y,
{
    let left = if gone < THEME_FADE {
        THEME_FADE - gone
    } else {
        0
    };
    let f = FADE_CUBED as int;
    if gone == 0 {
        cube_bounds(left);
        let k = left * left * left;
        assert(y * f - (y - x) * k == x * f) by (nonlinear_arith)
            requires
                k == f,
        ;
        assert((2 * (x * f) + f) / (2 * f) == x) by (nonlinear_arith)
            requires
                f == 91_125_000_000_000_000_000_000_000,
        ;
        assert(faded_channel(x, y, gone) == (2 * (y * f - (y - x) * k) + f) / (2 * f));
    } else if gone >= THEME_FADE {
        assert((y - x) * (left * left * left) == 0) by (nonlinear_arith)
            requires
                left == 0,
        ;
    }
}

fn fade_channel(x: u8, y: u8, gone: u64) -> (r: u8)
    ensures
        r == faded_channel(x, y, gone as int),
{
    proof {
        fading_stays_between(x, y, gone as int);
    }
    let left: i128 = if gone < THEME_FADE {
        (THEME_FADE - gone) as i128
    } else {
        0
    };
    proof {
        cube_bounds(left as int);
        assert(0 <= left * left <= 202_500_000_000_000_000) by (nonlinear_arith)
            requires
                0 <= left <= 450_000_000,
        ;
    }
    let k: i128 = left * left * left;
    let d: i128 = y as i128 - x as i128;
    proof {
        assert(-255 * FADE_CUBED <= d * k <= 255 * FADE_CUBED) by (nonlinear_arith)
            requires
                0 <= k <= FADE_CUBED,
                -255 <= d <= 255,
        ;
    }
    let n: i128 = 2 * (y as i128 * FADE_CUBED - d * k) + FADE_CUBED;
    (n / (2 * FADE_CUBED)) as u8
}

fn fade(a: Rgb, b: Rgb, gone: u64) -> (r: Rgb)
    ensures
        levels(r) == faded(a, b, gone as int),
{
    (fade_channel(a.0, b.0, gone), fade_channel(a.1, b.1, gone), fade_channel(a.2, b.2, gone))
}

impl DynamicTheme {
    /// The house palette, at rest.
    pub fn new(now: u64) -> (r: DynamicTheme)
        ensures
            r.source_track_id@.len() == 0,
            r.current@ == seq![ACCENT_BASE, CYAN_BASE, PINK_BASE],
            r.target@ == seq![ACCENT_BASE, CYAN_BASE, PINK_BASE],
            r.blend_start == now,
    {
        DynamicTheme {
            source_track_id: String::new(),
            current: [ACCENT_BASE, CYAN_BASE, PINK_BASE],
            target: [ACCENT_BASE, CYAN_BASE, PINK_BASE],
            blend_start: now,
        }
    }

    /// The palette for this frame. Once the fade is over it is the target.
    pub fn eased(&self, now: u64) -> (r: [Rgb; 3])
        ensures
            forall|i: int| 0 <= i < 3 ==> levels(#[trigger] r@[i]) == shown(*self, i, now),
    {
        let gone: u64 = state::elapsed(self.blend_start, now);
        [
            fade(self.current[0], self.target[0], gone),
            fade(self.current[1], self.target[1], gone),
            fade(self.current[2], self.target[2], gone),
        ]
    }

    /// Begins a fade to `target` from wherever the palette is now, so that a new
    /// target in the middle of a fade never makes it jump.
    pub fn retarget(&mut self, source_track_id: String, target: [Rgb; 3], now: u64)
        ensures
            forall|i: int|
                0 <= i < 3 ==> levels(#[trigger] final(self).current@[i]) == shown(
                    *old(self),
                    i,
                    now,
                ),
            final(self).target == target,
            final(self).source_track_id == source_track_id,
            final(self).blend_start == now,
    {
        self.current = self.eased(now);
        self.target = target;
        self.source_track_id = source_track_id;
        self.blend_start = now;
    }
}

/// A new target never makes the palette jump: right after it the palette shows
/// what it showed before.
pub proof fn retargeting_never_jumps(before: DynamicTheme, after: DynamicTheme, now: u64, i: int)
    requires
        0 <= i < 3,
        levels(after.current@[i]) == shown(before, i, now),
        after.blend_start == now,
    ensures
        shown(after, i, now) == shown(before, i, now),
{
    let a = after.current@[i];
    let b = after.target@[i];
    fading_has_ends(a.0, b.0, 0);
    fading_has_ends(a.1, b.1, 0);
    fading_has_ends(a.2, b.2, 0);
}

/// Once the fade is over the palette is its target and stays there.
pub proof fn fade_ends_at_the_target(t: DynamicTheme, now: u64, i: int)
    requires
        0 <= i < 3,
        state::since(t.blend_start, now) >= THEME_FADE,
    ensures
        shown(t, i, now) == levels(t.target@[i]),
{
    let a = t.current@[i];
    let b = t.target@[i];
    let gone = state::since(t.blend_start, now);
    fading_has_ends(a.0, b.0, gone);
    fading_has_ends(a.1, b.1, gone);
    fading_has_ends(a.2, b.2, gone);
}

/// The channels of a colour as one number.
pub open spec fn joined(l: (int, int, int)) -> int {
    l.0 * 0x10000 + l.1 * 0x100 + l.2
}

/// The live accents, packed, that every card of a frame reads.
pub struct LiveAccents {
    pub accent: u32,
    pub cyan: u32,
    pub pink: u32,
}

impl LiveAccents {
    /// Every number in the store is a colour.
    pub open spec fn wf(self) -> bool {
        self.accent < 0x100_0000 && self.cyan < 0x100_0000 && self.pink < 0x100_0000
    }

    /// The accents before the first frame: those of the house.
    pub fn new() -> (r: LiveAccents)
        ensures
            r.accent == packed(ACCENT_BASE),
            r.cyan == packed(CYAN_BASE),
            r.pink == packed(PINK_BASE),
            r.wf(),
    {
        LiveAccents {
            accent: pack(ACCENT_BASE),
            cyan: pack(CYAN_BASE),
            pink: pack(PINK_BASE),
        }
    }

    /// The live violet accent.
    pub fn accent(&self) -> (r: Rgb)
        requires
            self.wf(),
        ensures
            packed(r) == self.accent,
    {
        unpack(self.accent)
    }

    /// The live cyan.
    pub fn cyan(&self) -> (r: Rgb)
        requires
            self.wf(),
        ensures
            packed(r) == self.cyan,
    {
        unpack(self.cyan)
    }

    /// The live pink.
    pub fn pink(&self) -> (r: Rgb)
        requires
            self.wf(),
        ensures
            packed(r) == self.pink,
    {
        unpack(self.pink)
    }
}

/// Puts the accents of this frame into the store.
pub fn apply_dynamic(live: &mut LiveAccents, t: &DynamicTheme, now: u64)
    ensures
        final(live).wf(),
        final(live).accent == joined(shown(*t, 0, now)),
        final(live).cyan == joined(shown(*t, 1, now)),
        final(live).pink == joined(shown(*t, 2, now)),
{
    let e = t.eased(now);
    live.accent = pack(e[0]);
    live.cyan = pack(e[1]);
    live.pink = pack(e[2]);
    proof {
        assert(levels(e@[0]) == shown(*t, 0, now));
        assert(levels(e@[1]) == shown(*t, 1, now));
        assert(levels(e@[2]) == shown(*t, 2, now));
    }
}

/// What was put into the store is what it gives: an accent reads back as the colour that the
/// palette shows.
pub proof fn accents_read_back(t: DynamicTheme, i: int, now: u64, read: Rgb)
    requires
        0 <= i < 3,
        packed(read) == joined(shown(t, i, now)),
    ensures
        levels(read) == shown(t, i, now),
{
    let (a, b) = (t.current@[i], t.target@[i]);
    let gone = state::since(t.blend_start, now);
    fading_stays_between(a.0, b.0, gone);
    fading_stays_between(a.1, b.1, gone);
    fading_stays_between(a.2, b.2, gone);
}

// ---------------------------------------------------------------------------
// Hue, saturation, lightness.
// ---------------------------------------------------------------------------

/// The strongest channel.
pub open spec fn strongest(c: Rgb) -> int {
    if c.0 >= c.1 && c.0 >= c.2 {
        c.0 as int
    } else if c.1 >= c.2 {
        c.1 as int
    } else {
        c.2 as int
    }
}

/// The weakest channel.
pub open spec fn weakest(c: Rgb) -> int {
    if c.0 <= c.1 && c.0 <= c.2 {
        c.0 as int
    } else if c.1 <= c.2 {
        c.1 as int
    } else {
        c.2 as int
    }
}

/// The distance of the strongest and the weakest channel.
pub open spec fn chroma(c: Rgb) -> int {
    strongest(c) - weakest(c)
}

/// Twice the lightness, of 510.
pub open spec fn light(c: Rgb) -> int {
    strongest(c) + weakest(c)
}

/// What the chroma is measured against: the saturation is the one of the other.
pub open spec fn room(c: Rgb) -> int {
    if light(c) < 255 {
        light(c)
    } else {
        510 - light(c)
    }
}

/// The hue of a colour, in degrees times its chroma; grey has none.
pub open spec fn hue(c: Rgb) -> int {
    let d = chroma(c);
    if d == 0 {
        0
    } else {
        (if strongest(c) == c.0 {
            60 * (c.1 - c.2)
        } else if strongest(c) == c.1 {
            60 * (c.2 - c.0) + 120 * d
        } else {
            60 * (c.0 - c.1) + 240 * d
        } + 360 * d) % (360 * d)
    }
}

/// The chroma of a colour, one for grey.
pub open spec fn hue_unit(c: Rgb) -> int {
    if chroma(c) == 0 {
        1
    } else {
        chroma(c)
    }
}

fn strongest_of(c: Rgb) -> (r: i64)
    ensures
        r == strongest(c),
        0 <= r <= 255,
{
    if c.0 >= c.1 && c.0 >= c.2 {
        c.0 as i64
    } else if c.1 >= c.2 {
        c.1 as i64
    } else {
        c.2 as i64
    }
}

fn weakest_of(c: Rgb) -> (r: i64)
    ensures
        r == weakest(c),
        0 <= r <= strongest(c),
{
    if c.0 <= c.1 && c.0 <= c.2 {
        c.0 as i64
    } else if c.1 <= c.2 {
        c.1 as i64
    } else {
        c.2 as i64
    }
}

fn hue_of(c: Rgb) -> (r: (i64, i64))
    ensures
        r.0 == hue(c),
        r.1 == hue_unit(c),
        1 <= r.1 <= 255,
        0 <= r.0 < 360 * r.1,
{
    let top: i64 = strongest_of(c);
    let d: i64 = top - weakest_of(c);
    if d == 0 {
        return (0, 1);
    }
    let (red, green, blue): (i64, i64, i64) = (c.0 as i64, c.1 as i64, c.2 as i64);
    let h: i64 = if top == red {
        60 * (green - blue)
    } else if top == green {
        60 * (blue - red) + 120 * d
    } else {
        60 * (red - green) + 240 * d
    };
    proof {
        assert(-60 * d <= h <= 300 * d);
    }
    let m: i64 = 360 * d;
    let whole: i64 = h + m;
    let r: i64 = if whole >= m {
        whole - m
    } else {
        whole
    };
    proof {
        assert(r == whole as int % m as int) by {
            vstd::arithmetic::div_mod::lemma_small_mod(r as nat, m as nat);
            if whole >= m {
                vstd::arithmetic::div_mod::lemma_mod_add_multiples_vanish(r as int, m as int);
            }
        }
    }
    (r, d)
}

/// One colour channel from its share of the full level, rounded, halves upwards.
pub open spec fn level(num: int, den: int) -> int {
    if num <= 0 {
        0
    } else {
        let v = (510 * num + den) / (2 * den);
        if v > 255 {
            255
        } else {
            v
        }
    }
}

/// Hue `h` of `hd` degrees, saturation `s` of `sd`, lightness `l` of `ld`.
pub struct Hsl {
    pub h: int,
    pub hd: int,
    pub s: int,
    pub sd: int,
    pub l: int,
    pub ld: int,
}

/// The strength of the leading channel, of `sd * ld`.
pub open spec fn lead_part(c: Hsl) -> int {
    (c.ld - (if 2 * c.l >= c.ld {
        2 * c.l - c.ld
    } else {
        c.ld - 2 * c.l
    })) * c.s
}

/// How strong the middle channel is against the leading one, of `60 * hd`.
pub open spec fn middle_part(c: Hsl) -> int {
    let x = c.h % (120 * c.hd);
    60 * c.hd - if x >= 60 * c.hd {
        x - 60 * c.hd
    } else {
        60 * c.hd - x
    }
}

/// The sixth of the colour wheel that the hue lies in.
pub open spec fn sixth(c: Hsl) -> int {
    c.h / (60 * c.hd)
}

/// What the three channels are measured against.
pub open spec fn whole(c: Hsl) -> int {
    2 * c.ld * c.sd * (60 * c.hd)
}

/// The leading, the middle and the weakest channel.
pub open spec fn channels(c: Hsl) -> (int, int, int) {
    let base = (2 * c.sd * c.l - lead_part(c)) * (60 * c.hd);
    (
        level(lead_part(c) * 2 * (60 * c.hd) + base, whole(c)),
        level(lead_part(c) * 2 * middle_part(c) + base, whole(c)),
        level(base, whole(c)),
    )
}

/// The colour of a hue, saturation and lightness.
pub open spec fn colour(c: Hsl) -> (int, int, int) {
    let (a, b, o) = channels(c);
    let k = sixth(c);
    if k == 0 {
        (a, b, o)
    } else if k == 1 {
        (b, a, o)
    } else if k == 2 {
        (o, a, b)
    } else if k == 3 {
        (o, b, a)
    } else if k == 4 {
        (b, o, a)
    } else {
        (a, o, b)
    }
}

fn level_of(num: i128, den: i128) -> (r: u8)
    requires
        0 < den <= 2_000_000_000_000_000_000,
        num <= 10_000_000_000_000_000_000,
    ensures
        r == level(num as int, den as int),
{
    if num <= 0 {
        return 0;
    }
    let v: i128 = (510 * num + den) / (2 * den);
    if v > 255 {
        255
    } else {
        proof {
            assert(v >= 0) by (nonlinear_arith)
                requires
                    v == (510 * num as int + den as int) / (2 * den as int),
                    num > 0,
                    den > 0,
            ;
        }
        v as u8
    }
}

fn hsl_to_rgb(h: i64, hd: i64, s: i64, sd: i64, l: i64, ld: i64) -> (r: Rgb)
    requires
        0 < hd <= 6_502_500,
        0 <= h < 360 * hd,
        0 < sd <= 25_500,
        0 <= s <= sd,
        0 < ld <= 51_000,
        0 <= l <= ld,
    ensures
        levels(r) == colour(
            (Hsl {
                h: h as int,
                hd: hd as int,
                s: s as int,
                sd: sd as int,
                l: l as int,
                ld: ld as int,
            }),
        ),
{
    let ghost c = Hsl {
        h: h as int,
        hd: hd as int,
        s: s as int,
        sd: sd as int,
        l: l as int,
        ld: ld as int,
    };
    let bend: i64 = if 2 * l >= ld {
        2 * l - ld
    } else {
        ld - 2 * l
    };
    let span: i64 = ld - bend;
    proof {
        assert(0 <= span * s <= 51_000 * 25_500) by (nonlinear_arith)
            requires
                0 <= span <= 51_000,
                0 <= s <= 25_500,
        ;
    }
    let lead: i128 = (span * s) as i128;
    let unit: i64 = 60 * hd;
    let turn: i64 = 120 * hd;
    let x: i64 = h % turn;
    let dist: i64 = if x >= unit {
        x - unit
    } else {
        unit - x
    };
    let mid: i64 = unit - dist;
    let u: i128 = unit as i128;
    let m: i128 = mid as i128;
    proof {
        assert(0 <= x < turn);
        assert(0 <= mid <= unit);
        assert(0 <= 2 * sd * l <= 2 * 25_500 * 51_000) by (nonlinear_arith)
            requires
                0 <= sd <= 25_500,
                0 <= l <= 51_000,
        ;
        assert(0 < 2 * ld * sd <= 2 * 51_000 * 25_500) by (nonlinear_arith)
            requires
                0 < sd <= 25_500,
                0 < ld <= 51_000,
        ;
    }
    let low: i128 = 2 * sd as i128 * l as i128 - lead;
    let scale: i128 = 2 * ld as i128 * sd as i128;
    proof {
        assert(-2_000_000_000_000_000_000 <= low * u <= 2_000_000_000_000_000_000)
            by (nonlinear_arith)
            requires
                -1_300_500_000 <= low <= 2_601_000_000,
                0 <= u <= 390_150_000,
        ;
        assert(0 < scale * u <= 2_000_000_000_000_000_000) by (nonlinear_arith)
            requires
                0 < scale <= 2_601_000_000,
                0 < u <= 390_150_000,
        ;
        assert(0 <= lead * 2 * u <= 2_000_000_000_000_000_000) by (nonlinear_arith)
            requires
                0 <= lead <= 1_300_500_000,
                0 <= u <= 390_150_000,
        ;
        assert(0 <= lead * 2 * m <= 2_000_000_000_000_000_000) by (nonlinear_arith)
            requires
                0 <= lead <= 1_300_500_000,
                0 <= m <= 390_150_000,
        ;
    }
    let base: i128 = low * u;
    let den: i128 = scale * u;
    let a: u8 = level_of(lead * 2 * u + base, den);
    let b: u8 = level_of(lead * 2 * m + base, den);
    let o: u8 = level_of(base, den);
    proof {
        assert(lead == lead_part(c));
        assert(m == middle_part(c));
        assert(u == 60 * c.hd);
        assert(den == whole(c));
        assert(base == (2 * c.sd * c.l - lead_part(c)) * (60 * c.hd));
        assert((a as int, b as int, o as int) == channels(c));
    }
    let k: i64 = h / unit;
    if k == 0 {
        (a, b, o)
    } else if k == 1 {
        (b, a, o)
    } else if k == 2 {
        (o, a, b)
    } else if k == 3 {
        (o, b, a)
    } else if k == 4 {
        (b, o, a)
    } else {
        (a, o, b)
    }
}

// ---------------------------------------------------------------------------
// Keeping a colour near the house.
// ---------------------------------------------------------------------------

/// How far a colour of the art is pulled home, and what it is kept within:
/// the pull and the least saturation in hundredths, the lightness in thousandths.
#[derive(Clone, Copy, Debug)]
pub struct Brand {
    pub pull: i64,
    pub min_sat: i64,
    pub min_light: i64,
    pub max_light: i64,
}

impl Brand {
    /// The bounds are fractions, in order.
    pub open spec fn wf(self) -> bool {
        &&& 0 <= self.pull <= 100
        &&& 0 <= self.min_sat <= 95
        &&& 0 <= self.min_light <= self.max_light <= 1000
    }
}

/// A number kept between two bounds.
pub open spec fn within(n: int, lo: int, hi: int) -> int {
    if n < lo {
        lo
    } else if n > hi {
        hi
    } else {
        n
    }
}

/// The art's hue, pulled towards the base's hue the short way around the wheel.
pub open spec fn pulled_hue(art: Rgb, base: Rgb, pull: int) -> int {
    let unit = hue_unit(art) * hue_unit(base);
    let a = hue(art) * hue_unit(base);
    let b = hue(base) * hue_unit(art);
    let delta = (b - a + 540 * unit) % (360 * unit) - 180 * unit;
    (100 * a + delta * pull + 36_000 * unit) % (36_000 * unit)
}

/// The art's colour near the house: hue pulled home, saturation at least the
/// brand's and at most 95 hundredths, lightness lifted off the floor and kept
/// within the brand's bounds.
pub open spec fn tinted(art: Rgb, base: Rgb, brand: Brand) -> Hsl {
    Hsl {
        h: pulled_hue(art, base, brand.pull as int),
        hd: 100 * (hue_unit(art) * hue_unit(base)),
        s: within(100 * chroma(art), brand.min_sat * room(art), 95 * room(art)),
        sd: 100 * room(art),
        l: within(60 * light(art) + 17_850, 51 * brand.min_light, 51 * brand.max_light),
        ld: 51_000,
    }
}

/// The art carries too little colour to have a usable hue.
pub open spec fn colourless(art: Rgb) -> bool {
    chroma(art) == 0 || 100 * chroma(art) < 12 * room(art)
}

/// A colour of the art on brand.
pub open spec fn branded(art: Rgb, base: Rgb, brand: Brand) -> (int, int, int) {
    if colourless(art) {
        levels(base)
    } else {
        colour(tinted(art, base, brand))
    }
}

/// Pulls a colour of the art towards the house hue and keeps it vivid and
/// legible; a nearly grey colour gives the house colour itself.
pub fn brandify(art: Rgb, base: Rgb, brand: Brand) -> (r: Rgb)
    requires
        brand.wf(),
    ensures
        levels(r) == branded(art, base, brand),
{
    let top: i64 = strongest_of(art);
    let bottom: i64 = weakest_of(art);
    let d: i64 = top - bottom;
    let sum: i64 = top + bottom;
    let q: i64 = if sum < 255 {
        sum
    } else {
        510 - sum
    };
    if d == 0 || 100 * d < 12 * q {
        return base;
    }
    let (an, ad) = hue_of(art);
    let (bn, bd) = hue_of(base);
    proof {
        assert(1 <= ad * bd <= 65_025) by (nonlinear_arith)
            requires
                1 <= ad <= 255,
                1 <= bd <= 255,
        ;
        assert(0 <= an * bd < 360 * (ad * bd)) by (nonlinear_arith)
            requires
                0 <= an < 360 * ad,
                1 <= bd,
        ;
        assert(0 <= bn * ad < 360 * (ad * bd)) by (nonlinear_arith)
            requires
                0 <= bn < 360 * bd,
                1 <= ad,
        ;
        assert(0 <= an * bd <= 91_800 * 255) by (nonlinear_arith)
            requires
                0 <= an < 91_800,
                0 <= bd <= 255,
        ;
        assert(0 <= bn * ad <= 91_800 * 255) by (nonlinear_arith)
            requires
                0 <= bn < 91_800,
                0 <= ad <= 255,
        ;
    }
    let unit: i64 = ad * bd;
    let a: i64 = an * bd;
    let b: i64 = bn * ad;
    let delta: i64 = (b - a + 540 * unit) % (360 * unit) - 180 * unit;
    proof {
        assert(-180 * unit <= delta < 180 * unit);
        assert(-18_000 * unit <= delta * brand.pull <= 18_000 * unit) by (nonlinear_arith)
            requires
                -180 * unit <= delta <= 180 * unit,
                0 <= brand.pull <= 100,
                0 < unit,
        ;
    }
    let h: i64 = (100 * a + delta * brand.pull + 36_000 * unit) % (36_000 * unit);
    proof {
        assert(0 <= brand.min_sat * q <= 95 * q) by (nonlinear_arith)
            requires
                0 <= brand.min_sat <= 95,
                0 <= q,
        ;
    }
    let floor: i64 = brand.min_sat * q;
    let s: i64 = if 100 * d < floor {
        floor
    } else if 100 * d > 95 * q {
        95 * q
    } else {
        100 * d
    };
    let raw: i64 = 60 * sum + 17_850;
    let lo: i64 = 51 * brand.min_light;
    let hi: i64 = 51 * brand.max_light;
    let l: i64 = if raw < lo {
        lo
    } else if raw > hi {
        hi
    } else {
        raw
    };
    proof {
        assert(h == pulled_hue(art, base, brand.pull as int));
    }
    hsl_to_rgb(h, 100 * unit, s, 100 * q, l, 51_000)
}

/// Whatever the art, an accent is vivid and legible: its saturation and its
/// lightness are within the brand's bounds.
pub proof fn accents_stay_vivid(art: Rgb, base: Rgb, brand: Brand)
    requires
        brand.wf(),
        !colourless(art),
    ensures
        ({
            let c = tinted(art, base, brand);
            &&& brand.min_sat * c.sd <= 100 * c.s <= 95 * c.sd
            &&& brand.min_light * c.ld <= 1000 * c.l <= brand.max_light * c.ld
        }),
{
    let q = room(art);
    let m = brand.min_sat as int;
    assert(m * (100 * q) == 100 * (m * q)) by (nonlinear_arith);
    assert(m * q <= 95 * q) by (nonlinear_arith)
        requires
            m <= 95,
            0 <= q,
    ;
}

// ---------------------------------------------------------------------------
// The dominant colours of a cover.
// ---------------------------------------------------------------------------

/// A pixel as a colour.
pub open spec fn pixel(p: [u8; 3]) -> Rgb {
    (p@[0], p@[1], p@[2])
}

/// All pixels as colours.
pub open spec fn pixels(px: Seq<[u8; 3]>) -> Seq<Rgb> {
    Seq::new(px.len(), |i: int| pixel(px[i]))
}

/// Neither nearly black nor nearly white.
pub open spec fn telling(c: Rgb) -> bool {
    8 * 510 < 100 * light(c) < 96 * 510
}

/// The colours that are neither nearly black nor nearly white.
pub open spec fn telling_colours(list: Seq<Rgb>) -> Seq<Rgb>
    decreases list.len(),
{
    if list.len() == 0 {
        seq![]
    } else if telling(list.last()) {
        telling_colours(list.drop_last()).push(list.last())
    } else {
        telling_colours(list.drop_last())
    }
}

/// The colours to look at: the telling ones, or all where there are none.
pub open spec fn pool(list: Seq<Rgb>) -> Seq<Rgb> {
    if telling_colours(list).len() == 0 {
        list
    } else {
        telling_colours(list)
    }
}

/// The lowest level of a channel.
pub open spec fn low(b: Seq<Rgb>, ch: int) -> int
    decreases b.len(),
{
    if b.len() == 0 {
        255
    } else {
        let before = low(b.drop_last(), ch);
        let v = channel(b.last(), ch) as int;
        if v < before {
            v
        } else {
            before
        }
    }
}

/// The highest level of a channel.
pub open spec fn high(b: Seq<Rgb>, ch: int) -> int
    decreases b.len(),
{
    if b.len() == 0 {
        0
    } else {
        let before = high(b.drop_last(), ch);
        let v = channel(b.last(), ch) as int;
        if v > before {
            v
        } else {
            before
        }
    }
}

/// The spread of a channel.
pub open spec fn range(b: Seq<Rgb>, ch: int) -> int {
    high(b, ch) - low(b, ch)
}

/// The channel with the widest spread; the earlier one of two that are equal.
pub open spec fn widest(b: Seq<Rgb>) -> int {
    if range(b, 0) >= range(b, 1) && range(b, 0) >= range(b, 2) {
        0
    } else if range(b, 1) >= range(b, 2) {
        1
    } else {
        2
    }
}

/// The widest spread of the three channels.
pub open spec fn spread(b: Seq<Rgb>) -> int {
    range(b, widest(b))
}

proof fn bounds_hold(b: Seq<Rgb>, ch: int)
    ensures
        0 <= low(b, ch) <= 255,
        0 <= high(b, ch) <= 255,
        b.len() > 0 ==> low(b, ch) <= high(b, ch),
    decreases b.len(),
{
    if b.len() > 0 {
        bounds_hold(b.drop_last(), ch);
    }
}

fn range_of(b: &[Rgb], ch: u8) -> (r: u32)
    requires
        b@.len() > 0,
    ensures
        r == range(b@, ch as int),
        r <= 255,
{
    let mut lo: u8 = 255;
    let mut hi: u8 = 0;
    let mut i: usize = 0;
    while i < b.len()
        invariant
            i <= b@.len(),
            lo == low(b@.take(i as int), ch as int),
            hi == high(b@.take(i as int), ch as int),
        decreases b@.len() - i,
    {
        proof {
            assert(b@.take(i + 1).drop_last() =~= b@.take(i as int));
        }
        let v: u8 = channel_of(b[i], ch);
        if v < lo {
            lo = v;
        }
        if v > hi {
            hi = v;
        }
        i += 1;
    }
    proof {
        assert(b@.take(i as int) =~= b@);
        bounds_hold(b@, ch as int);
    }
    (hi - lo) as u32
}

/// The widest spread of the three channels.
pub fn channel_spread(b: &[Rgb]) -> (r: u32)
    requires
        b@.len() > 0,
    ensures
        r == spread(b@),
{
    let red: u32 = range_of(b, 0);
    let green: u32 = range_of(b, 1);
    let blue: u32 = range_of(b, 2);
    if red >= green && red >= blue {
        red
    } else if green >= blue {
        green
    } else {
        blue
    }
}

/// The channel with the widest spread.
pub fn widest_channel(b: &[Rgb]) -> (r: u8)
    requires
        b@.len() > 0,
    ensures
        r == widest(b@),
        r <= 2,
{
    let red: u32 = range_of(b, 0);
    let green: u32 = range_of(b, 1);
    let blue: u32 = range_of(b, 2);
    if red >= green && red >= blue {
        0
    } else if green >= blue {
        1
    } else {
        2
    }
}

/// The colours with a given level of a channel, in order.
pub open spec fn with_level(b: Seq<Rgb>, ch: int, v: int) -> Seq<Rgb>
    decreases b.len(),
{
    if b.len() == 0 {
        seq![]
    } else if channel(b.last(), ch) == v {
        with_level(b.drop_last(), ch, v).push(b.last())
    } else {
        with_level(b.drop_last(), ch, v)
    }
}

/// The colours with levels below `n` of a channel, by level; equal ones in order.
pub open spec fn by_level(b: Seq<Rgb>, ch: int, n: nat) -> Seq<Rgb>
    decreases n,
{
    if n == 0 {
        seq![]
    } else {
        by_level(b, ch, (n - 1) as nat) + with_level(b, ch, n - 1)
    }
}

fn sort_by_level(b: &[Rgb], ch: u8) -> (r: Vec<Rgb>)
    ensures
        r@ == by_level(b@, ch as int, 256),
{
    let mut out: Vec<Rgb> = Vec::new();
    let mut v: u32 = 0;
    while v < 256
        invariant
            v <= 256,
            out@ == by_level(b@, ch as int, v as nat),
        decreases 256 - v,
    {
        let ghost before = out@;
        let mut i: usize = 0;
        proof {
            assert(before + with_level(b@.take(0), ch as int, v as int) =~= before);
        }
        while i < b.len()
            invariant
                i <= b@.len(),
                v < 256,
                out@ == before + with_level(b@.take(i as int), ch as int, v as int),
            decreases b@.len() - i,
        {
            proof {
                assert(b@.take(i + 1).drop_last() =~= b@.take(i as int));
            }
            if channel_of(b[i], ch) as u32 == v {
                let ghost got = with_level(b@.take(i as int), ch as int, v as int);
                out.push(b[i]);
                proof {
                    assert(out@ =~= before + got.push(b@[i as int]));
                }
            }
            i += 1;
        }
        proof {
            assert(b@.take(i as int) =~= b@);
        }
        v += 1;
    }
    out
}

/// Sorting by level neither loses nor invents a colour, and sorts.
pub proof fn by_level_sorts(b: Seq<Rgb>, ch: int)
    ensures
        by_level(b, ch, 256).to_multiset() == b.to_multiset(),
        by_level(b, ch, 256).len() == b.len(),
        forall|i: int, j: int|
            0 <= i <= j < by_level(b, ch, 256).len() ==> channel(
                #[trigger] by_level(b, ch, 256)[i],
                ch,
            ) <= channel(#[trigger] by_level(b, ch, 256)[j], ch),
{
    let r = by_level(b, ch, 256);
    by_level_rises(b, ch, 256);
    assert forall|c: Rgb| r.to_multiset().count(c) == b.to_multiset().count(c) by {
        by_level_counts(b, ch, 256, c);
    }
    assert(r.to_multiset() =~= b.to_multiset());
    vstd::seq_lib::to_multiset_len(r);
    vstd::seq_lib::to_multiset_len(b);
}

proof fn with_level_has_level(b: Seq<Rgb>, ch: int, v: int)
    ensures
        forall|i: int|
            0 <= i < with_level(b, ch, v).len() ==> channel(
                #[trigger] with_level(b, ch, v)[i],
                ch,
            ) == v,
    decreases b.len(),
{
    if b.len() > 0 {
        with_level_has_level(b.drop_last(), ch, v);
        let before = with_level(b.drop_last(), ch, v);
        let r = with_level(b, ch, v);
        assert forall|i: int| 0 <= i < r.len() implies channel(#[trigger] r[i], ch) == v by {
            if i < before.len() {
                assert(r[i] == before[i]);
            }
        }
    }
}

proof fn by_level_rises(b: Seq<Rgb>, ch: int, n: nat)
    ensures
        forall|i: int|
            0 <= i < by_level(b, ch, n).len() ==> channel(#[trigger] by_level(b, ch, n)[i], ch)
                < n,
        forall|i: int, j: int|
            0 <= i <= j < by_level(b, ch, n).len() ==> channel(
                #[trigger] by_level(b, ch, n)[i],
                ch,
            ) <= channel(#[trigger] by_level(b, ch, n)[j], ch),
    decreases n,
{
    if n > 0 {
        let m = (n - 1) as nat;
        by_level_rises(b, ch, m);
        with_level_has_level(b, ch, n - 1);
        let x = by_level(b, ch, m);
        let y = with_level(b, ch, n - 1);
        let r = by_level(b, ch, n);
        assert forall|i: int| 0 <= i < r.len() implies channel(#[trigger] r[i], ch) < n by {
            if i < x.len() {
                assert(r[i] == x[i]);
            } else {
                assert(r[i] == y[i - x.len()]);
            }
        }
        assert forall|i: int, j: int| 0 <= i <= j < r.len() implies channel(#[trigger] r[i], ch)
            <= channel(#[trigger] r[j], ch) by {
            if j < x.len() {
                assert(r[i] == x[i] && r[j] == x[j]);
            } else {
                assert(r[j] == y[j - x.len()]);
                if i < x.len() {
                    assert(r[i] == x[i]);
                } else {
                    assert(r[i] == y[i - x.len()]);
                }
            }
        }
    }
}

proof fn with_level_counts(b: Seq<Rgb>, ch: int, v: int, c: Rgb)
    ensures
        with_level(b, ch, v).to_multiset().count(c) == if channel(c, ch) == v {
            b.to_multiset().count(c)
        } else {
            0
        },
    decreases b.len(),
{
    broadcast use vstd::seq_lib::group_to_multiset_ensures;

    if b.len() > 0 {
        let front = b.drop_last();
        with_level_counts(front, ch, v, c);
        assert(front.push(b.last()) =~= b);
    } else {
        assert(with_level(b, ch, v) =~= Seq::<Rgb>::empty());
        assert(b =~= Seq::<Rgb>::empty());
    }
}

proof fn by_level_counts(b: Seq<Rgb>, ch: int, n: nat, c: Rgb)
    ensures
        by_level(b, ch, n).to_multiset().count(c) == if channel(c, ch) < n {
            b.to_multiset().count(c)
        } else {
            0
        },
    decreases n,
{
    broadcast use vstd::seq_lib::group_to_multiset_ensures;

    if n > 0 {
        let m = (n - 1) as nat;
        by_level_counts(b, ch, m, c);
        with_level_counts(b, ch, n - 1, c);
        let x = by_level(b, ch, m);
        let y = with_level(b, ch, n - 1);
        vstd::seq_lib::lemma_multiset_commutative(x, y);
    } else {
        assert(by_level(b, ch, n) =~= Seq::<Rgb>::empty());
    }
}

/// Boxes of colours.
pub open spec fn boxes(v: Seq<Vec<Rgb>>) -> Seq<Seq<Rgb>> {
    Seq::new(v.len(), |i: int| v[i]@)
}

/// Which of the first `n` boxes to cut: the one with the widest spread of those
/// with more than one colour, the last one of several.
pub open spec fn to_cut(list: Seq<Seq<Rgb>>, n: nat) -> Option<int>
    decreases n,
{
    if n == 0 {
        None
    } else {
        let before = to_cut(list, (n - 1) as nat);
        if list[n - 1].len() <= 1 {
            before
        } else {
            match before {
                Some(i) => if spread(list[n - 1]) >= spread(list[i]) {
                    Some(n - 1)
                } else {
                    before
                },
                None => Some(n - 1),
            }
        }
    }
}

/// A list without one element, whose place the last one takes.
pub open spec fn taken_out(list: Seq<Seq<Rgb>>, i: int) -> Seq<Seq<Rgb>> {
    list.update(i, list.last()).drop_last()
}

/// One box cut in two at the median of its widest channel.
pub open spec fn cut_one(list: Seq<Seq<Rgb>>, i: int) -> Seq<Seq<Rgb>> {
    let sorted = by_level(list[i], widest(list[i]), 256);
    let mid = list[i].len() as int / 2;
    taken_out(list, i).push(sorted.take(mid)).push(sorted.skip(mid))
}

/// The boxes after cutting until there are `want` or nothing is left to cut.
pub open spec fn cut(list: Seq<Seq<Rgb>>, want: nat) -> Seq<Seq<Rgb>>
    decreases want - list.len(),
{
    proof {
        to_cut_bound(list, list.len());
    }
    if list.len() >= want {
        list
    } else {
        match to_cut(list, list.len()) {
            None => list,
            Some(i) => cut(cut_one(list, i), want),
        }
    }
}

/// A box to cut is one of the boxes and has more than one colour.
pub proof fn to_cut_bound(list: Seq<Seq<Rgb>>, n: nat)
    requires
        n <= list.len(),
    ensures
        to_cut(list, n) matches Some(i) ==> 0 <= i < n && list[i].len() > 1,
        to_cut(list, n) is None ==> forall|j: int| 0 <= j < n ==> (#[trigger] list[j]).len() <= 1,
    decreases n,
{
    if n > 0 {
        to_cut_bound(list, (n - 1) as nat);
    }
}

/// The sum of a channel.
pub open spec fn channel_sum(b: Seq<Rgb>, ch: int) -> int
    decreases b.len(),
{
    if b.len() == 0 {
        0
    } else {
        channel_sum(b.drop_last(), ch) + channel(b.last(), ch)
    }
}

/// The average of a box, rounded down.
pub open spec fn average(b: Seq<Rgb>) -> (int, int, int) {
    let n = b.len() as int;
    (channel_sum(b, 0) / n, channel_sum(b, 1) / n, channel_sum(b, 2) / n)
}

proof fn sum_bounds(b: Seq<Rgb>, ch: int)
    ensures
        0 <= channel_sum(b, ch) <= 255 * b.len(),
    decreases b.len(),
{
    if b.len() > 0 {
        sum_bounds(b.drop_last(), ch);
    }
}

fn channel_average(b: &[Rgb], ch: u8) -> (r: u8)
    requires
        b@.len() > 0,
    ensures
        r == channel_sum(b@, ch as int) / b@.len() as int,
{
    let mut sum: u128 = 0;
    let mut i: usize = 0;
    while i < b.len()
        invariant
            i <= b@.len(),
            sum == channel_sum(b@.take(i as int), ch as int),
            sum <= 255 * i,
        decreases b@.len() - i,
    {
        proof {
            assert(b@.take(i + 1).drop_last() =~= b@.take(i as int));
        }
        sum = sum + channel_of(b[i], ch) as u128;
        i += 1;
    }
    proof {
        assert(b@.take(i as int) =~= b@);
        let n = b@.len() as int;
        assert(0 <= sum as int / n <= 255) by (nonlinear_arith)
            requires
                0 <= sum <= 255 * n,
                n > 0,
        ;
    }
    (sum / b.len() as u128) as u8
}

/// How vivid a colour is, as a fraction: saturated and middling light is best.
pub open spec fn vividness(c: Rgb) -> (int, int) {
    let off = if 100 * light(c) >= 28_050 {
        100 * light(c) - 28_050
    } else {
        28_050 - 100 * light(c)
    };
    if chroma(c) == 0 {
        (0, 1)
    } else {
        (chroma(c) * (51_000 - off), room(c))
    }
}

/// One colour is less vivid than another.
pub open spec fn duller(a: Rgb, b: Rgb) -> bool {
    vividness(a).0 * vividness(b).1 < vividness(b).0 * vividness(a).1
}

fn vividness_of(c: Rgb) -> (r: (i64, i64))
    ensures
        (r.0 as int, r.1 as int) == vividness(c),
        0 <= r.0 <= 255 * 51_000,
        1 <= r.1 <= 255,
{
    let top: i64 = strongest_of(c);
    let bottom: i64 = weakest_of(c);
    let d: i64 = top - bottom;
    let sum: i64 = top + bottom;
    if d == 0 {
        return (0, 1);
    }
    let off: i64 = if 100 * sum >= 28_050 {
        100 * sum - 28_050
    } else {
        28_050 - 100 * sum
    };
    let rest: i64 = 51_000 - off;
    proof {
        assert(0 <= d * rest <= 255 * 51_000) by (nonlinear_arith)
            requires
                0 <= d <= 255,
                0 <= rest <= 51_000,
        ;
    }
    (d * rest, if sum < 255 {
        sum
    } else {
        510 - sum
    })
}

fn is_duller(a: Rgb, b: Rgb) -> (r: bool)
    ensures
        r == duller(a, b),
{
    let x = vividness_of(a);
    let y = vividness_of(b);
    proof {
        assert(0 <= x.0 * y.1 <= 255 * 51_000 * 255) by (nonlinear_arith)
            requires
                0 <= x.0 <= 255 * 51_000,
                0 <= y.1 <= 255,
        ;
        assert(0 <= y.0 * x.1 <= 255 * 51_000 * 255) by (nonlinear_arith)
            requires
                0 <= y.0 <= 255 * 51_000,
                0 <= x.1 <= 255,
        ;
    }
    x.0 * y.1 < y.0 * x.1
}

/// Behind which of the first `n` colours a colour belongs: behind all that are
/// not duller.
pub open spec fn rank(list: Seq<Rgb>, c: Rgb, n: int) -> int
    decreases n,
{
    if 0 < n && duller(list[n - 1], c) {
        rank(list, c, n - 1)
    } else {
        n
    }
}

/// The colours with the most vivid first; equally vivid ones in order.
pub open spec fn vivid_first(list: Seq<Rgb>) -> Seq<Rgb>
    decreases list.len(),
{
    if list.len() == 0 {
        seq![]
    } else {
        let before = vivid_first(list.drop_last());
        before.insert(rank(before, list.last(), before.len() as int), list.last())
    }
}

/// The averages of boxes, one colour each.
pub open spec fn averaged(list: Seq<Seq<Rgb>>) -> Seq<Rgb> {
    Seq::new(
        list.len(),
        |i: int| (average(list[i]).0 as u8, average(list[i]).1 as u8, average(list[i]).2 as u8),
    )
}

/// The dominant colours of a cover.
pub open spec fn dominant(px: Seq<[u8; 3]>, want: nat) -> Seq<Rgb> {
    let p = pool(pixels(px));
    if p.len() == 0 {
        seq![]
    } else {
        vivid_first(averaged(cut(seq![p], want)))
    }
}

/// No box is empty.
pub open spec fn all_filled(list: Seq<Seq<Rgb>>) -> bool {
    forall|i: int| 0 <= i < list.len() ==> (#[trigger] list[i]).len() > 0
}

proof fn cut_one_fills(list: Seq<Seq<Rgb>>, i: int)
    requires
        all_filled(list),
        0 <= i < list.len(),
        list[i].len() > 1,
    ensures
        all_filled(cut_one(list, i)),
        cut_one(list, i).len() == list.len() + 1,
{
    by_level_sorts(list[i], widest(list[i]));
    let rest = taken_out(list, i);
    let out = cut_one(list, i);
    assert forall|j: int| 0 <= j < out.len() implies (#[trigger] out[j]).len() > 0 by {
        if j < rest.len() {
            assert(out[j] == rest[j]);
            if j == i {
                assert(rest[j] == list[list.len() - 1]);
            } else {
                assert(rest[j] == list[j]);
            }
        }
    }
}

fn find_cut(list: &Vec<Vec<Rgb>>) -> (r: Option<usize>)
    ensures
        match r {
            Some(i) => to_cut(boxes(list@), list@.len()) == Some(i as int) && i < list@.len(),
            None => to_cut(boxes(list@), list@.len()) is None,
        },
{
    let ghost all = boxes(list@);
    let mut best: Option<usize> = None;
    let mut i: usize = 0;
    while i < list.len()
        invariant
            i <= list@.len(),
            all == boxes(list@),
            match best {
                Some(k) => to_cut(all, i as nat) == Some(k as int) && k < i && all[k as int].len()
                    > 1,
                None => to_cut(all, i as nat) is None,
            },
        decreases list@.len() - i,
    {
        proof {
            assert(all[i as int] == list@[i as int]@);
        }
        if list[i].len() > 1 {
            match best {
                Some(k) => {
                    proof {
                        assert(all[k as int] == list@[k as int]@);
                    }
                    if channel_spread(list[i].as_slice()) >= channel_spread(list[k].as_slice()) {
                        best = Some(i);
                    }
                },
                None => {
                    best = Some(i);
                },
            }
        }
        i += 1;
    }
    best
}

fn telling_of(c: Rgb) -> (r: bool)
    ensures
        r == telling(c),
{
    let sum: i64 = strongest_of(c) + weakest_of(c);
    8 * 510 < 100 * sum && 100 * sum < 96 * 510
}

fn pool_of(px: &[[u8; 3]]) -> (r: Vec<Rgb>)
    ensures
        r@ == pool(pixels(px@)),
{
    let ghost list = pixels(px@);
    let mut some: Vec<Rgb> = Vec::new();
    let mut all: Vec<Rgb> = Vec::new();
    let mut i: usize = 0;
    proof {
        assert(some@ =~= telling_colours(list.take(0)));
    }
    while i < px.len()
        invariant
            i <= px@.len(),
            list == pixels(px@),
            all@ == list.take(i as int),
            some@ == telling_colours(list.take(i as int)),
        decreases px@.len() - i,
    {
        let c: Rgb = (px[i][0], px[i][1], px[i][2]);
        proof {
            assert(list.take(i + 1).drop_last() =~= list.take(i as int));
            assert(list.take(i + 1) =~= list.take(i as int).push(c));
        }
        if telling_of(c) {
            some.push(c);
        }
        all.push(c);
        i += 1;
    }
    proof {
        assert(list.take(i as int) =~= list);
    }
    if some.len() == 0 {
        all
    } else {
        some
    }
}

/// The cover cut into at most `want` representative colours, the most vivid
/// first.
pub fn dominant_colors(px: &[[u8; 3]], want: usize) -> (r: Vec<Rgb>)
    ensures
        r@ == dominant(px@, want as nat),
{
    let p = pool_of(px);
    if p.len() == 0 {
        return Vec::new();
    }
    let ghost start = seq![p@];
    let mut list: Vec<Vec<Rgb>> = Vec::new();
    list.push(p);
    proof {
        assert(boxes(list@) =~= start);
        assert(all_filled(boxes(list@)));
    }
    while list.len() < want
        invariant_except_break
            cut(start, want as nat) == cut(boxes(list@), want as nat),
            all_filled(boxes(list@)),
        ensures
            cut(start, want as nat) == boxes(list@),
            all_filled(boxes(list@)),
        decreases want - list@.len(),
    {
        let ghost before = boxes(list@);
        proof {
            to_cut_bound(before, before.len());
        }
        let i: usize = match find_cut(&list) {
            Some(k) => k,
            None => {
                break;
            },
        };
        let b = list.swap_remove(i);
        proof {
            assert(b@ == before[i as int]);
            assert(boxes(list@) =~= taken_out(before, i as int));
            by_level_sorts(b@, widest(b@));
            cut_one_fills(before, i as int);
        }
        let ch: u8 = widest_channel(b.as_slice());
        let mut lo = sort_by_level(b.as_slice(), ch);
        let mid: usize = lo.len() / 2;
        let hi = lo.split_off(mid);
        list.push(lo);
        list.push(hi);
        proof {
            let sorted = by_level(b@, widest(b@), 256);
            assert(lo@ =~= sorted.take(mid as int));
            assert(hi@ =~= sorted.skip(mid as int));
            assert(boxes(list@) =~= cut_one(before, i as int));
        }
    }
    let ghost all = boxes(list@);
    let ghost means = averaged(all);
    let mut out: Vec<Rgb> = Vec::new();
    let mut i: usize = 0;
    proof {
        assert(out@ =~= vivid_first(means.take(0)));
    }
    while i < list.len()
        invariant
            i <= list@.len(),
            all == boxes(list@),
            all_filled(all),
            means == averaged(all),
            out@ == vivid_first(means.take(i as int)),
        decreases list@.len() - i,
    {
        proof {
            assert(all[i as int] == list@[i as int]@);
            assert(means.take(i + 1).drop_last() =~= means.take(i as int));
        }
        let b: &[Rgb] = list[i].as_slice();
        let c: Rgb = (channel_average(b, 0), channel_average(b, 1), channel_average(b, 2));
        proof {
            assert(c == means[i as int]);
        }
        let ghost before = out@;
        let mut k: usize = out.len();
        while k > 0 && is_duller(out[k - 1], c)
            invariant
                k <= out@.len(),
                out@ == before,
                rank(before, c, before.len() as int) == rank(before, c, k as int),
            decreases k,
        {
            k -= 1;
        }
        out.insert(k, c);
        i += 1;
    }
    proof {
        assert(means.take(i as int) =~= means);
    }
    out
}

/// How many colours boxes hold together.
pub open spec fn held(list: Seq<Seq<Rgb>>) -> int
    decreases list.len(),
{
    if list.len() == 0 {
        0
    } else {
        held(list.drop_last()) + list.last().len()
    }
}

proof fn held_of_update(list: Seq<Seq<Rgb>>, i: int, b: Seq<Rgb>)
    requires
        0 <= i < list.len(),
    ensures
        held(list.update(i, b)) == held(list) - list[i].len() + b.len(),
    decreases list.len(),
{
    let u = list.update(i, b);
    if i == list.len() - 1 {
        assert(u.drop_last() =~= list.drop_last());
    } else {
        held_of_update(list.drop_last(), i, b);
        assert(u.drop_last() =~= list.drop_last().update(i, b));
    }
}

proof fn cutting_keeps_all(list: Seq<Seq<Rgb>>, i: int)
    requires
        0 <= i < list.len(),
    ensures
        held(cut_one(list, i)) == held(list),
{
    let sorted = by_level(list[i], widest(list[i]), 256);
    let mid = list[i].len() as int / 2;
    let rest = taken_out(list, i);
    by_level_sorts(list[i], widest(list[i]));
    held_of_update(list, i, list.last());
    let moved = list.update(i, list.last());
    assert(moved.last() == list.last());
    assert(held(moved) == held(rest) + list.last().len());
    let one = rest.push(sorted.take(mid));
    let two = one.push(sorted.skip(mid));
    assert(one.drop_last() =~= rest && two.drop_last() =~= one);
    assert(one.last() == sorted.take(mid) && two.last() == sorted.skip(mid));
    assert(held(one) == held(rest) + mid);
    assert(held(two) == held(one) + (sorted.len() - mid));
}

proof fn held_by_small_boxes(list: Seq<Seq<Rgb>>)
    requires
        all_filled(list),
    ensures
        held(list) >= list.len(),
        (forall|j: int| 0 <= j < list.len() ==> (#[trigger] list[j]).len() <= 1) ==> held(list)
            == list.len(),
    decreases list.len(),
{
    if list.len() > 0 {
        let front = list.drop_last();
        assert forall|j: int| 0 <= j < front.len() implies (#[trigger] front[j]).len() > 0 by {
            assert(front[j] == list[j]);
        }
        held_by_small_boxes(front);
        assert(list[list.len() - 1].len() > 0);
        if forall|j: int| 0 <= j < list.len() ==> (#[trigger] list[j]).len() <= 1 {
            assert forall|j: int| 0 <= j < front.len() implies (#[trigger] front[j]).len() <= 1 by {
                assert(front[j] == list[j]);
            }
        }
    }
}

proof fn cut_counts(list: Seq<Seq<Rgb>>, want: nat)
    requires
        all_filled(list),
        list.len() <= want,
    ensures
        cut(list, want).len() == if held(list) < want {
            held(list)
        } else {
            want as int
        },
        all_filled(cut(list, want)),
    decreases want - list.len(),
{
    to_cut_bound(list, list.len());
    held_by_small_boxes(list);
    if list.len() < want {
        match to_cut(list, list.len()) {
            None => {},
            Some(i) => {
                cut_one_fills(list, i);
                cutting_keeps_all(list, i);
                cut_counts(cut_one(list, i), want);
            },
        }
    }
}

/// Colours whose levels in a channel lie between two levels.
pub open spec fn between(b: Seq<Rgb>, ch: int, lo: int, hi: int) -> bool {
    forall|i: int| 0 <= i < b.len() ==> lo <= channel(#[trigger] b[i], ch) <= hi
}

/// Boxes of such colours.
pub open spec fn all_between(list: Seq<Seq<Rgb>>, ch: int, lo: int, hi: int) -> bool {
    forall|i: int| 0 <= i < list.len() ==> between(#[trigger] list[i], ch, lo, hi)
}

proof fn with_level_between(b: Seq<Rgb>, k: int, v: int, ch: int, lo: int, hi: int)
    requires
        between(b, ch, lo, hi),
    ensures
        between(with_level(b, k, v), ch, lo, hi),
    decreases b.len(),
{
    if b.len() > 0 {
        let front = b.drop_last();
        assert forall|i: int| 0 <= i < front.len() implies lo <= channel(#[trigger] front[i], ch)
            <= hi by {
            assert(front[i] == b[i]);
        }
        with_level_between(front, k, v, ch, lo, hi);
        assert(b[b.len() - 1] == b.last());
    }
}

proof fn by_level_between(b: Seq<Rgb>, k: int, n: nat, ch: int, lo: int, hi: int)
    requires
        between(b, ch, lo, hi),
    ensures
        between(by_level(b, k, n), ch, lo, hi),
    decreases n,
{
    if n > 0 {
        by_level_between(b, k, (n - 1) as nat, ch, lo, hi);
        with_level_between(b, k, n - 1, ch, lo, hi);
        let x = by_level(b, k, (n - 1) as nat);
        let y = with_level(b, k, n - 1);
        assert forall|i: int| 0 <= i < (x + y).len() implies lo <= channel(#[trigger] (x + y)[i], ch)
            <= hi by {
            if i < x.len() {
                assert((x + y)[i] == x[i]);
            } else {
                assert((x + y)[i] == y[i - x.len()]);
            }
        }
    }
}

proof fn cut_stays_between(list: Seq<Seq<Rgb>>, want: nat, ch: int, lo: int, hi: int)
    requires
        all_between(list, ch, lo, hi),
    ensures
        all_between(cut(list, want), ch, lo, hi),
    decreases want - list.len(),
{
    to_cut_bound(list, list.len());
    if list.len() < want {
        match to_cut(list, list.len()) {
            None => {},
            Some(i) => {
                let sorted = by_level(list[i], widest(list[i]), 256);
                let mid = list[i].len() as int / 2;
                let rest = taken_out(list, i);
                let out = cut_one(list, i);
                by_level_sorts(list[i], widest(list[i]));
                by_level_between(list[i], widest(list[i]), 256, ch, lo, hi);
                assert forall|j: int| 0 <= j < out.len() implies between(
                    #[trigger] out[j],
                    ch,
                    lo,
                    hi,
                ) by {
                    if j < rest.len() {
                        assert(out[j] == rest[j]);
                        if j == i {
                            assert(rest[j] == list[list.len() - 1]);
                        } else {
                            assert(rest[j] == list[j]);
                        }
                    } else if j == rest.len() {
                        assert(out[j] == sorted.take(mid));
                        assert forall|k: int| 0 <= k < out[j].len() implies lo <= channel(
                            #[trigger] out[j][k],
                            ch,
                        ) <= hi by {
                            assert(out[j][k] == sorted[k]);
                        }
                    } else {
                        assert(out[j] == sorted.skip(mid));
                        assert forall|k: int| 0 <= k < out[j].len() implies lo <= channel(
                            #[trigger] out[j][k],
                            ch,
                        ) <= hi by {
                            assert(out[j][k] == sorted[mid + k]);
                        }
                    }
                }
                cut_stays_between(out, want, ch, lo, hi);
            },
        }
    }
}

proof fn sum_between(b: Seq<Rgb>, ch: int, lo: int, hi: int)
    requires
        between(b, ch, lo, hi),
    ensures
        lo * b.len() <= channel_sum(b, ch) <= hi * b.len(),
    decreases b.len(),
{
    if b.len() > 0 {
        let front = b.drop_last();
        assert forall|i: int| 0 <= i < front.len() implies lo <= channel(#[trigger] front[i], ch)
            <= hi by {
            assert(front[i] == b[i]);
        }
        sum_between(front, ch, lo, hi);
        assert(b[b.len() - 1] == b.last());
        let n = front.len() as int;
        assert(lo * (n + 1) == lo * n + lo && hi * (n + 1) == hi * n + hi) by (nonlinear_arith);
    } else {
        assert(lo * 0 == 0 && hi * 0 == 0) by (nonlinear_arith);
    }
}

proof fn average_between(b: Seq<Rgb>, ch: int, lo: int, hi: int)
    requires
        b.len() > 0,
        between(b, ch, lo, hi),
    ensures
        lo <= channel_sum(b, ch) / b.len() as int <= hi,
        0 <= channel_sum(b, ch) / b.len() as int <= 255,
{
    let n = b.len() as int;
    let sum = channel_sum(b, ch);
    sum_between(b, ch, lo, hi);
    sum_bounds(b, ch);
    assert(lo <= sum / n <= hi) by (nonlinear_arith)
        requires
            lo * n <= sum <= hi * n,
            n > 0,
    ;
    assert(0 <= sum / n <= 255) by (nonlinear_arith)
        requires
            0 <= sum <= 255 * n,
            n > 0,
    ;
}

proof fn averages_between(list: Seq<Seq<Rgb>>, ch: int, lo: int, hi: int)
    requires
        all_filled(list),
        all_between(list, ch, lo, hi),
        0 <= ch < 3,
    ensures
        between(averaged(list), ch, lo, hi),
{
    let means = averaged(list);
    assert forall|i: int| 0 <= i < means.len() implies lo <= channel(#[trigger] means[i], ch)
        <= hi by {
        assert(between(list[i], ch, lo, hi));
        average_between(list[i], ch, lo, hi);
    }
}

proof fn vivid_first_between(list: Seq<Rgb>, ch: int, lo: int, hi: int)
    requires
        between(list, ch, lo, hi),
    ensures
        between(vivid_first(list), ch, lo, hi),
    decreases list.len(),
{
    if list.len() > 0 {
        let front = list.drop_last();
        assert forall|i: int| 0 <= i < front.len() implies lo <= channel(#[trigger] front[i], ch)
            <= hi by {
            assert(front[i] == list[i]);
        }
        vivid_first_between(front, ch, lo, hi);
        let before = vivid_first(front);
        let k = rank(before, list.last(), before.len() as int);
        rank_bound(before, list.last(), before.len() as int);
        let r = vivid_first(list);
        assert(list[list.len() - 1] == list.last());
        assert forall|i: int| 0 <= i < r.len() implies lo <= channel(#[trigger] r[i], ch) <= hi by {
            if i < k {
                assert(r[i] == before[i]);
            } else if i > k {
                assert(r[i] == before[i - 1]);
            }
        }
    }
}

/// Vividness is a fraction.
proof fn vividness_divides(c: Rgb)
    ensures
        vividness(c).1 > 0,
{
}

/// A colour that is no duller than one that is no duller than a third is no duller than it.
proof fn no_duller_passes_on(a: Rgb, b: Rgb, c: Rgb)
    requires
        !duller(a, b),
        !duller(b, c),
    ensures
        !duller(a, c),
{
    vividness_divides(a);
    vividness_divides(b);
    vividness_divides(c);
    let (p, q) = vividness(a);
    let (r, s) = vividness(b);
    let (t, u) = vividness(c);
    assert(p * u >= t * q) by (nonlinear_arith)
        requires
            p * s >= r * q,
            r * u >= t * s,
            q > 0,
            s > 0,
            u > 0,
    {
        assert((p * s) * u >= (r * q) * u);
        assert((r * u) * q >= (t * s) * q);
        assert((p * u) * s == (p * s) * u);
        assert((r * q) * u == (r * u) * q);
        assert((t * q) * s == (t * s) * q);
        assert((p * u) * s >= (t * q) * s);
    }
}

/// No colour of a list is duller than one behind it.
pub open spec fn vivid_falls(list: Seq<Rgb>) -> bool {
    forall|i: int, j: int| 0 <= i < j < list.len() ==> !duller(#[trigger] list[i], #[trigger] list[j])
}

proof fn rank_divides(list: Seq<Rgb>, c: Rgb, n: int)
    requires
        0 <= n <= list.len(),
        vivid_falls(list),
    ensures
        0 <= rank(list, c, n) <= n,
        forall|i: int| 0 <= i < rank(list, c, n) ==> !duller(#[trigger] list[i], c),
        forall|i: int| rank(list, c, n) <= i < n ==> duller(#[trigger] list[i], c),
    decreases n,
{
    if 0 < n && duller(list[n - 1], c) {
        rank_divides(list, c, n - 1);
    } else if 0 < n {
        assert forall|i: int| 0 <= i < n implies !duller(#[trigger] list[i], c) by {
            if i < n - 1 {
                no_duller_passes_on(list[i], list[n - 1], c);
            }
        }
    }
}

proof fn vivid_first_falls(list: Seq<Rgb>)
    ensures
        vivid_falls(vivid_first(list)),
    decreases list.len(),
{
    if list.len() > 0 {
        let before = vivid_first(list.drop_last());
        let c = list.last();
        vivid_first_falls(list.drop_last());
        rank_divides(before, c, before.len() as int);
        let k = rank(before, c, before.len() as int);
        let r = vivid_first(list);
        assert forall|i: int, j: int| 0 <= i < j < r.len() implies !duller(
            #[trigger] r[i],
            #[trigger] r[j],
        ) by {
            let a = if i < k {
                i
            } else {
                i - 1
            };
            let b = if j < k {
                j
            } else {
                j - 1
            };
            if i != k {
                assert(r[i] == before[a]);
            }
            if j != k {
                assert(r[j] == before[b]);
            }
            if i == k {
                assert(duller(before[b], c));
            }
        }
    }
}

/// The dominant colours of a cover: as many as asked for, or one for each telling pixel where
/// there are fewer; the most vivid first; and none is brighter or darker in a channel than
/// every pixel that it is drawn from.
pub proof fn dominant_colours_represent(px: Seq<[u8; 3]>, want: nat, ch: int, lo: int, hi: int)
    requires
        want >= 1,
        0 <= ch < 3,
        between(pool(pixels(px)), ch, lo, hi),
    ensures
        dominant(px, want).len() == if pool(pixels(px)).len() < want {
            pool(pixels(px)).len()
        } else {
            want
        },
        vivid_falls(dominant(px, want)),
        between(dominant(px, want), ch, lo, hi),
{
    let p = pool(pixels(px));
    if p.len() > 0 {
        let start = seq![p];
        assert(start.drop_last() =~= Seq::<Seq<Rgb>>::empty());
        assert(held(start) == p.len()) by {
            reveal_with_fuel(held, 2);
        }
        let all = cut(start, want);
        cut_counts(start, want);
        cut_stays_between(start, want, ch, lo, hi);
        averages_between(all, ch, lo, hi);
        vivid_first_keeps(averaged(all));
        vivid_first_between(averaged(all), ch, lo, hi);
        vivid_first_falls(averaged(all));
    }
}

proof fn rank_bound(list: Seq<Rgb>, c: Rgb, n: int)
    requires
        0 <= n <= list.len(),
    ensures
        0 <= rank(list, c, n) <= n,
    decreases n,
{
    if 0 < n && duller(list[n - 1], c) {
        rank_bound(list, c, n - 1);
    }
}

proof fn vivid_first_keeps(list: Seq<Rgb>)
    ensures
        vivid_first(list).len() == list.len(),
    decreases list.len(),
{
    if list.len() > 0 {
        vivid_first_keeps(list.drop_last());
        let before = vivid_first(list.drop_last());
        rank_bound(before, list.last(), before.len() as int);
    }
}

// ---------------------------------------------------------------------------
// The palette of a cover.
// ---------------------------------------------------------------------------

/// How the violet accent follows the art.
pub open spec fn accent_brand() -> Brand {
    Brand { pull: 62, min_sat: 45, min_light: 550, max_light: 800 }
}

/// How cyan follows the art.
pub open spec fn cyan_brand() -> Brand {
    Brand { pull: 45, min_sat: 55, min_light: 550, max_light: 820 }
}

/// How pink follows the art.
pub open spec fn pink_brand() -> Brand {
    Brand { pull: 40, min_sat: 55, min_light: 600, max_light: 820 }
}

/// The palette for a leading and a second colour.
pub open spec fn palette(lead: Rgb, second: Rgb) -> (
    (int, int, int),
    (int, int, int),
    (int, int, int),
) {
    (
        branded(lead, ACCENT_BASE, accent_brand()),
        branded(second, CYAN_BASE, cyan_brand()),
        branded(lead, PINK_BASE, pink_brand()),
    )
}

/// The palette of a cover; the house palette where there is none.
pub open spec fn art_palette(px: Seq<[u8; 3]>) -> (
    (int, int, int),
    (int, int, int),
    (int, int, int),
) {
    if px.len() == 0 {
        (levels(ACCENT_BASE), levels(CYAN_BASE), levels(PINK_BASE))
    } else {
        let dom = dominant(px, 5);
        palette(
            dom[0],
            if dom.len() > 1 {
                dom[1]
            } else {
                dom[0]
            },
        )
    }
}

/// The three accents that a cover asks for: the house colours without a cover.
pub fn theme_from_art(px: &[[u8; 3]]) -> (r: (Rgb, Rgb, Rgb))
    ensures
        (levels(r.0), levels(r.1), levels(r.2)) == art_palette(px@),
{
    if px.len() == 0 {
        return (ACCENT_BASE, CYAN_BASE, PINK_BASE);
    }
    let dom = dominant_colors(px, 5);
    proof {
        dominant_colours_represent(px@, 5, 0, 0, 255);
    }
    let lead: Rgb = dom[0];
    let second: Rgb = if dom.len() > 1 {
        dom[1]
    } else {
        lead
    };
    (
        brandify(lead, ACCENT_BASE, Brand { pull: 62, min_sat: 45, min_light: 550, max_light: 800 }),
        brandify(second, CYAN_BASE, Brand { pull: 45, min_sat: 55, min_light: 550, max_light: 820 }),
        brandify(lead, PINK_BASE, Brand { pull: 40, min_sat: 55, min_light: 600, max_light: 820 }),
    )
}

/// How long ago a theme began to fade that is shown as settled.
pub const SETTLED: u64 = 1_000_000_000;

/// The theme follows a cover, and its fade is over.
pub open spec fn follows(t: DynamicTheme, cover: AlbumArt, now: u64) -> bool {
    &&& t.source_track_id@ == cover.track_id@
    &&& (levels(t.target@[0]), levels(t.target@[1]), levels(t.target@[2])) == art_palette(
        cover.px@,
    )
    &&& t.blend_start == (if now < SETTLED {
        0
    } else {
        now - SETTLED
    })
}

/// Lets a theme follow a cover at once: it leaves what it shows now, and its fade began
/// long enough ago to be over.
pub fn dress(t: &mut DynamicTheme, cover: &AlbumArt, now: u64)
    ensures
        follows(*final(t), *cover, now),
        forall|i: int|
            0 <= i < 3 ==> levels(#[trigger] final(t).current@[i]) == shown(*old(t), i, now),
{
    let (accent, cyan, pink) = theme_from_art(&cover.px);
    t.retarget(cover.track_id.clone(), [accent, cyan, pink], now);
    t.blend_start = if now < SETTLED {
        0
    } else {
        now - SETTLED
    };
}

/// A theme that follows a cover at once shows the palette of that cover from the first
/// frame on. In the first moments of the clock, which its fade cannot precede, it is
/// still on its way.
pub proof fn dressed_theme_is_settled(t: DynamicTheme, cover: AlbumArt, now: u64, later: u64)
    requires
        follows(t, cover, now),
        THEME_FADE <= now <= later,
    ensures
        (shown(t, 0, later), shown(t, 1, later), shown(t, 2, later)) == art_palette(cover.px@),
{
    fade_ends_at_the_target(t, later, 0);
    fade_ends_at_the_target(t, later, 1);
    fade_ends_at_the_target(t, later, 2);
}

// ---------------------------------------------------------------------------
// Sparklines.
// ---------------------------------------------------------------------------

/// The block glyph that fills so many eighths of a cell.
pub open spec fn block_glyph(n: int) -> char {
    if n <= 0 {
        ' '
    } else if n == 1 {
        '▁'
    } else if n == 2 {
        '▂'
    } else if n == 3 {
        '▃'
    } else if n == 4 {
        '▄'
    } else if n == 5 {
        '▅'
    } else if n == 6 {
        '▆'
    } else if n == 7 {
        '▇'
    } else {
        '█'
    }
}

/// The block glyph that fills so many eighths of a cell.
pub fn block_char(n: u64) -> (r: char)
    ensures
        r == block_glyph(n as int),
{
    if n == 0 {
        ' '
    } else if n == 1 {
        '▁'
    } else if n == 2 {
        '▂'
    } else if n == 3 {
        '▃'
    } else if n == 4 {
        '▄'
    } else if n == 5 {
        '▅'
    } else if n == 6 {
        '▆'
    } else if n == 7 {
        '▇'
    } else {
        '█'
    }
}

/// The largest number, one at least.
pub open spec fn peak(data: Seq<u64>) -> int
    decreases data.len(),
{
    if data.len() == 0 {
        1
    } else {
        let before = peak(data.drop_last());
        if data.last() > before {
            data.last() as int
        } else {
            before
        }
    }
}

/// The largest number, one at least.
pub fn peak_of(data: &[u64]) -> (r: u64)
    ensures
        r == peak(data@),
        r >= 1,
        forall|i: int| 0 <= i < data@.len() ==> data@[i] <= r,
{
    let mut max: u64 = 1;
    let mut i: usize = 0;
    while i < data.len()
        invariant
            i <= data@.len(),
            max == peak(data@.take(i as int)),
            max >= 1,
            forall|j: int| 0 <= j < i ==> data@[j] <= max,
        decreases data@.len() - i,
    {
        proof {
            assert(data@.take(i + 1).drop_last() =~= data@.take(i as int));
        }
        if data[i] > max {
            max = data[i];
        }
        i += 1;
    }
    proof {
        assert(data@.take(i as int) =~= data@);
    }
    max
}

/// How many of `steps` parts `v` is of `max`, rounded to the nearest, halves up.
pub open spec fn scaled(v: int, max: int, steps: int) -> int {
    (2 * v * steps + max) / (2 * max)
}

/// A number in proportion.
pub fn scale(v: u64, max: u64, steps: u64) -> (r: u64)
    requires
        v <= max,
        1 <= max,
        steps <= 0x1_0000_0000,
    ensures
        r == scaled(v as int, max as int, steps as int),
        r <= steps,
{
    proof {
        assert(0 <= 2 * v * steps <= 2 * max * steps) by (nonlinear_arith)
            requires
                0 <= v <= max,
                0 <= steps,
        ;
        assert(2 * max * steps <= 0x2_0000_0000 * 0x1_0000_0000_0000_0000) by (nonlinear_arith)
            requires
                0 <= max <= 0x1_0000_0000_0000_0000,
                0 <= steps <= 0x1_0000_0000,
        ;
    }
    let n: u128 = 2 * v as u128 * steps as u128 + max as u128;
    let r: u128 = n / (2 * max as u128);
    proof {
        assert(r <= steps) by (nonlinear_arith)
            requires
                r == n as int / (2 * max as int),
                n <= 2 * max * steps + max,
                max >= 1,
        ;
    }
    r as u64
}

/// The last `width` numbers.
pub open spec fn tail(data: Seq<u64>, width: int) -> Seq<u64> {
    if data.len() <= width {
        data
    } else {
        data.skip(data.len() - width)
    }
}

/// One glyph per number, by its share of the largest.
pub open spec fn spark_glyphs(data: Seq<u64>) -> Seq<char> {
    Seq::new(data.len(), |i: int| block_glyph(scaled(data[i] as int, peak(data), 8)))
}

/// A sparkline `width` cells wide of the last numbers, flush right.
pub open spec fn sparkline(data: Seq<u64>, width: int) -> Seq<char> {
    text::repeated(' ', width - tail(data, width).len()) + spark_glyphs(tail(data, width))
}

/// A sparkline of block glyphs.
pub fn spark(data: &[u64], width: usize) -> (r: String)
    ensures
        r@ == sparkline(data@, width as int),
        r@.len() == width,
{
    let n: usize = data.len();
    let start: usize = if n <= width {
        0
    } else {
        n - width
    };
    let part: &[u64] = vstd::slice::slice_subrange(data, start, n);
    let ghost want = tail(data@, width as int);
    proof {
        assert(part@ =~= want);
    }
    let max: u64 = peak_of(part);
    let mut out = text::repeat(' ', width - part.len());
    let ghost pad = out@;
    let mut i: usize = 0;
    proof {
        assert(pad + spark_glyphs(want).take(0) =~= pad);
    }
    while i < part.len()
        invariant
            i <= part@.len(),
            part@ == want,
            max == peak(want),
            max >= 1,
            forall|j: int| 0 <= j < part@.len() ==> part@[j] <= max,
            out@ == pad + spark_glyphs(want).take(i as int),
        decreases part@.len() - i,
    {
        let ghost before = out@;
        out.push(block_char(scale(part[i], max, 8)));
        proof {
            let g = spark_glyphs(want);
            assert(g.take(i + 1) =~= g.take(i as int).push(g[i as int]));
            assert(out@ =~= pad + g.take(i + 1));
        }
        i += 1;
    }
    proof {
        assert(spark_glyphs(want).take(i as int) =~= spark_glyphs(want));
    }
    out
}

// ---------------------------------------------------------------------------
// Laws of the accent colours.
// ---------------------------------------------------------------------------

/// A fade takes 450 milliseconds and slows down towards its end: what is left of the way is the
/// cube of what is left of the time, to the closest level.
pub proof fn fades_slow_down(x: u8, y: u8, gone: int)
    requires
        0 <= gone <= 450_000_000,
    ensures
        ({
            let left = 450_000_000 - gone;
            let all = 450_000_000int * 450_000_000 * 450_000_000;
            -all <= 2 * (all * (y - faded_channel(x, y, gone)) - (y - x) * (left * left * left))
                <= all
        }),
{
    let left = 450_000_000 - gone;
    let all = 450_000_000int * 450_000_000 * 450_000_000;
    assert(all == FADE_CUBED);
    let cube = (y - x) * (left * left * left);
    let a = y * all - cube;
    let q = (2 * a + all) / (2 * all);
    vstd::arithmetic::div_mod::lemma_fundamental_div_mod(2 * a + all, 2 * all);
    assert(faded_channel(x, y, gone) == q);
    assert(all * (y - q) == y * all - all * q) by (nonlinear_arith);
    assert((2 * all) * q == 2 * (all * q)) by (nonlinear_arith);
}

/// The strongest channel is none weaker than another, the weakest none stronger, and each is one
/// of the three.
pub proof fn channels_are_compared(c: Rgb)
    ensures
        strongest(c) >= c.0 && strongest(c) >= c.1 && strongest(c) >= c.2,
        weakest(c) <= c.0 && weakest(c) <= c.1 && weakest(c) <= c.2,
        strongest(c) == c.0 || strongest(c) == c.1 || strongest(c) == c.2,
        weakest(c) == c.0 || weakest(c) == c.1 || weakest(c) == c.2,
        chroma(c) == strongest(c) - weakest(c),
        light(c) == strongest(c) + weakest(c),
{
}

proof fn turn_vanishes(v: int, d: int)
    requires
        d > 0,
    ensures
        0 <= v < 360 * d ==> (v + 360 * d) % (360 * d) == v,
        -360 * d <= v < 0 ==> (v + 360 * d) % (360 * d) == v + 360 * d,
{
    if 0 <= v < 360 * d {
        vstd::arithmetic::div_mod::lemma_mod_add_multiples_vanish(v, 360 * d);
        vstd::arithmetic::div_mod::lemma_small_mod(v as nat, (360 * d) as nat);
    } else if -360 * d <= v < 0 {
        vstd::arithmetic::div_mod::lemma_small_mod((v + 360 * d) as nat, (360 * d) as nat);
    }
}

/// Around the wheel red stands at nothing, green at 120 and blue at 240 degrees, and a hue lies
/// as far from its strongest channel as the other two differ, up to 60 degrees to either side.
pub proof fn hues_stand_around_the_wheel(c: Rgb)
    requires
        chroma(c) > 0,
    ensures
        c.0 >= c.1 && c.1 >= c.2 ==> hue(c) == 60 * (c.1 - c.2),
        c.0 >= c.2 && c.2 > c.1 ==> hue(c) == 360 * chroma(c) - 60 * (c.2 - c.1),
        c.1 > c.0 && c.1 >= c.2 ==> hue(c) == 120 * chroma(c) + 60 * (c.2 - c.0),
        c.2 > c.0 && c.2 > c.1 ==> hue(c) == 240 * chroma(c) + 60 * (c.0 - c.1),
{
    let d = chroma(c);
    if strongest(c) == c.0 {
        turn_vanishes(60 * (c.1 - c.2), d);
    } else if strongest(c) == c.1 {
        turn_vanishes(60 * (c.2 - c.0) + 120 * d, d);
    } else {
        turn_vanishes(60 * (c.0 - c.1) + 240 * d, d);
    }
}

proof fn level_is(num: int, den: int, v: int)
    requires
        0 < den,
        0 <= v <= 255,
        255 * num == v * den,
    ensures
        level(num, den) == v,
{
    if num <= 0 {
        assert(v == 0) by (nonlinear_arith)
            requires
                255 * num == v * den,
                num <= 0,
                den > 0,
                v >= 0,
        ;
    } else {
        assert(510 * num + den == v * (2 * den) + den) by (nonlinear_arith)
            requires
                255 * num == v * den,
        ;
        vstd::arithmetic::div_mod::lemma_fundamental_div_mod_converse(
            510 * num + den,
            2 * den,
            v,
            den,
        );
    }
}

proof fn wheel(d: int, k: int, f: int, c: Hsl)
    requires
        d > 0,
        0 <= k < 6,
        0 <= f < 60 * d,
        c.hd == d,
        c.h == 60 * d * k + f,
    ensures
        sixth(c) == k,
        k % 2 == 0 ==> middle_part(c) == f,
        k % 2 == 1 ==> middle_part(c) == 60 * d - f,
{
    assert(60 * d * k == k * (60 * d)) by (nonlinear_arith);
    vstd::arithmetic::div_mod::lemma_fundamental_div_mod_converse(c.h, 60 * d, k, f);
    let j = k / 2;
    if k % 2 == 0 {
        assert(c.h == j * (120 * d) + f) by (nonlinear_arith)
            requires
                c.h == 60 * d * k + f,
                k == 2 * j,
        ;
        vstd::arithmetic::div_mod::lemma_fundamental_div_mod_converse(c.h, 120 * d, j, f);
    } else {
        assert(c.h == j * (120 * d) + (60 * d + f)) by (nonlinear_arith)
            requires
                c.h == 60 * d * k + f,
                k == 2 * j + 1,
        ;
        vstd::arithmetic::div_mod::lemma_fundamental_div_mod_converse(
            c.h,
            120 * d,
            j,
            60 * d + f,
        );
    }
}

/// A colour by its own hue, saturation and lightness.
pub open spec fn own(c: Rgb) -> Hsl {
    Hsl { h: hue(c), hd: chroma(c), s: chroma(c), sd: room(c), l: light(c), ld: 510 }
}

proof fn own_channels(c: Rgb, m: int)
    requires
        chroma(c) > 0,
        weakest(c) <= m <= strongest(c),
        middle_part(own(c)) == 60 * (m - weakest(c)),
    ensures
        channels(own(c)) == (strongest(c), m, weakest(c)),
{
    let d = chroma(c);
    let r = room(c);
    let w = weakest(c);
    let l = light(c);
    let o = own(c);
    assert(r > 0);
    assert(lead_part(o) == 2 * r * d) by (nonlinear_arith)
        requires
            lead_part(o) == (2 * r) * d,
    ;
    let base = (2 * r * l - lead_part(o)) * (60 * d);
    let all = 2 * 510 * r * (60 * d);
    assert(whole(o) == all);
    assert(all > 0) by (nonlinear_arith)
        requires
            all == 2 * 510 * r * (60 * d),
            r > 0,
            d > 0,
    ;
    assert(base == 4 * r * w * (60 * d)) by (nonlinear_arith)
        requires
            base == (2 * r * l - 2 * r * d) * (60 * d),
            l - d == 2 * w,
    ;
    assert(255 * base == w * all) by (nonlinear_arith)
        requires
            base == 4 * r * w * (60 * d),
            all == 2 * 510 * r * (60 * d),
    ;
    level_is(base, all, w);
    let lead = lead_part(o) * 2 * (60 * d) + base;
    assert(255 * lead == (w + d) * all) by (nonlinear_arith)
        requires
            lead == (2 * r * d) * 2 * (60 * d) + base,
            base == 4 * r * w * (60 * d),
            all == 2 * 510 * r * (60 * d),
    ;
    level_is(lead, all, w + d);
    let mid = lead_part(o) * 2 * middle_part(o) + base;
    assert(255 * mid == m * all) by (nonlinear_arith)
        requires
            mid == (2 * r * d) * 2 * (60 * (m - w)) + base,
            base == 4 * r * w * (60 * d),
            all == 2 * 510 * r * (60 * d),
    ;
    level_is(mid, all, m);
}

/// Taking a colour apart into hue, saturation and lightness and putting it together again gives
/// the colour.
pub proof fn colours_come_back(c: Rgb)
    requires
        chroma(c) > 0,
    ensures
        colour(own(c)) == levels(c),
{
    let d = chroma(c);
    let o = own(c);
    hues_stand_around_the_wheel(c);
    if c.0 >= c.1 && c.1 >= c.2 {
        if c.1 < c.0 {
            wheel(d, 0, 60 * (c.1 - c.2), o);
        } else {
            wheel(d, 1, 0, o);
        }
        own_channels(c, c.1 as int);
    } else if c.0 >= c.2 && c.2 > c.1 {
        wheel(d, 5, 60 * (d - (c.2 - c.1)), o);
        own_channels(c, c.2 as int);
    } else if c.1 > c.0 && c.1 >= c.2 {
        if c.2 >= c.0 {
            if c.2 < c.1 {
                wheel(d, 2, 60 * (c.2 - c.0), o);
            } else {
                wheel(d, 3, 0, o);
            }
            own_channels(c, c.2 as int);
        } else {
            wheel(d, 1, 60 * (d - (c.0 - c.2)), o);
            own_channels(c, c.0 as int);
        }
    } else {
        if c.0 >= c.1 {
            wheel(d, 4, 60 * (c.0 - c.1), o);
            own_channels(c, c.0 as int);
        } else {
            wheel(d, 3, 60 * (d - (c.1 - c.0)), o);
            own_channels(c, c.1 as int);
        }
    }
}

/// The hue of the art is pulled home the short way: `delta` being the way of at most half a turn
/// from the art's hue to the house's, the result is so many hundredths along it.
pub proof fn hues_are_pulled_the_short_way(art: Rgb, base: Rgb, pull: int, delta: int, turns: int)
    requires
        0 <= pull <= 100,
        ({
            let unit = hue_unit(art) * hue_unit(base);
            &&& -180 * unit <= delta < 180 * unit
            &&& hue(base) * hue_unit(art) - hue(art) * hue_unit(base) == delta + 360 * unit * turns
        }),
    ensures
        ({
            let unit = hue_unit(art) * hue_unit(base);
            let h = pulled_hue(art, base, pull);
            &&& 0 <= h < 36_000 * unit
            &&& (h - (100 * (hue(art) * hue_unit(base)) + delta * pull)) % (36_000 * unit) == 0
        }),
{
    let unit = hue_unit(art) * hue_unit(base);
    assert(unit > 0) by (nonlinear_arith)
        requires
            unit == hue_unit(art) * hue_unit(base),
            hue_unit(art) > 0,
            hue_unit(base) > 0,
    ;
    let a = hue(art) * hue_unit(base);
    let b = hue(base) * hue_unit(art);
    let m = 360 * unit;
    assert(b - a + 540 * unit == (turns + 1) * m + (delta + 180 * unit)) by (nonlinear_arith)
        requires
            b - a == delta + 360 * unit * turns,
            m == 360 * unit,
    ;
    vstd::arithmetic::div_mod::lemma_fundamental_div_mod_converse(
        b - a + 540 * unit,
        m,
        turns + 1,
        delta + 180 * unit,
    );
    let n = 36_000 * unit;
    let v = 100 * a + delta * pull;
    let h = pulled_hue(art, base, pull);
    assert(h == (v + n) % n);
    let q = (v + n) / n;
    vstd::arithmetic::div_mod::lemma_fundamental_div_mod(v + n, n);
    assert(h - v == (1 - q) * n + 0) by (nonlinear_arith)
        requires
            v + n == n * q + h,
    ;
    vstd::arithmetic::div_mod::lemma_fundamental_div_mod_converse(h - v, n, 1 - q, 0);
}

/// Between the brand's bounds an accent has three fifths of the art's lightness and 35 hundredths
/// more, and exactly the art's saturation; at a bound it has that.
pub proof fn accents_follow_the_art(art: Rgb, base: Rgb, brand: Brand)
    requires
        brand.wf(),
    ensures
        ({
            let t = tinted(art, base, brand);
            let lifted = 60 * light(art) + 35 * 510;
            &&& t.ld == 100 * 510
            &&& 51 * brand.min_light <= lifted <= 51 * brand.max_light ==> t.l == lifted
            &&& lifted < 51 * brand.min_light ==> t.l == 51 * brand.min_light
            &&& lifted > 51 * brand.max_light ==> t.l == 51 * brand.max_light
            &&& t.sd == 100 * room(art)
            &&& brand.min_sat * room(art) <= 100 * chroma(art) <= 95 * room(art) ==> t.s == 100
                * chroma(art)
            &&& 100 * chroma(art) > 95 * room(art) && brand.min_sat * room(art) <= 95 * room(art)
                ==> t.s == 95 * room(art)
        }),
{
}

/// A colour whose saturation is below twelve hundredths, or that is grey, gives way to the
/// house's; any other does not.
pub proof fn greys_give_way_to_the_house(art: Rgb, base: Rgb, brand: Brand)
    ensures
        chroma(art) == 0 ==> branded(art, base, brand) == levels(base),
        100 * chroma(art) < 12 * room(art) ==> branded(art, base, brand) == levels(base),
        chroma(art) > 0 && 100 * chroma(art) >= 12 * room(art) ==> branded(art, base, brand)
            == colour(tinted(art, base, brand)),
{
}

/// The lowest level is none higher than another and is there, and so is the highest.
pub proof fn levels_have_bounds(b: Seq<Rgb>, ch: int, i: int)
    requires
        0 <= i < b.len(),
    ensures
        low(b, ch) <= channel(b[i], ch) <= high(b, ch),
        exists|j: int| 0 <= j < b.len() && channel(#[trigger] b[j], ch) == low(b, ch),
        exists|j: int| 0 <= j < b.len() && channel(#[trigger] b[j], ch) == high(b, ch),
    decreases b.len(),
{
    let front = b.drop_last();
    let v = channel(b.last(), ch) as int;
    if front.len() > 0 {
        let k = if i < front.len() {
            i
        } else {
            0
        };
        levels_have_bounds(front, ch, k);
        assert(i < front.len() ==> front[i] == b[i]);
        let l = choose|j: int| 0 <= j < front.len() && channel(#[trigger] front[j], ch) == low(
            front,
            ch,
        );
        let h = choose|j: int| 0 <= j < front.len() && channel(#[trigger] front[j], ch) == high(
            front,
            ch,
        );
        assert(b[l] == front[l] && b[h] == front[h]);
        assert(b[b.len() - 1] == b.last());
    } else {
        assert(b[0] == b.last());
        assert(low(front, ch) == 255 && high(front, ch) == 0);
        assert(channel(b[0], ch) == v);
    }
}

/// No channel spreads wider than the widest.
pub proof fn widest_channel_spreads_widest(b: Seq<Rgb>, ch: int)
    requires
        0 <= ch < 3,
    ensures
        range(b, ch) <= spread(b),
        spread(b) == range(b, 0) || spread(b) == range(b, 1) || spread(b) == range(b, 2),
        0 <= widest(b) < 3,
{
}

/// The box that is cut has the widest spread of all that hold more than one colour.
pub proof fn widest_box_is_cut(list: Seq<Seq<Rgb>>, n: nat, j: int)
    requires
        0 <= j < n <= list.len(),
        list[j].len() > 1,
    ensures
        to_cut(list, n) is Some,
        spread(list[to_cut(list, n)->0]) >= spread(list[j]),
        0 <= to_cut(list, n)->0 < n,
        list[to_cut(list, n)->0].len() > 1,
        spread(list[to_cut(list, n)->0]) == spread(list[j]) ==> to_cut(list, n)->0 >= j,
    decreases n,
{
    to_cut_bound(list, n);
    to_cut_bound(list, (n - 1) as nat);
    if j < n - 1 {
        widest_box_is_cut(list, (n - 1) as nat, j);
    } else if to_cut(list, (n - 1) as nat) is Some {
        widest_box_is_cut(list, (n - 1) as nat, to_cut(list, (n - 1) as nat)->0);
    }
}

/// A box is cut at its median: the halves have as many colours, or one more behind, none of the
/// first stands above one of the second in the widest channel, and together they are the box.
pub proof fn boxes_are_cut_at_the_median(list: Seq<Seq<Rgb>>, i: int, x: int, y: int)
    requires
        0 <= i < list.len(),
        list[i].len() > 1,
        ({
            let r = cut_one(list, i);
            &&& 0 <= x < r[r.len() - 2].len()
            &&& 0 <= y < r[r.len() - 1].len()
        }),
    ensures
        ({
            let r = cut_one(list, i);
            let front = r[r.len() - 2];
            let back = r[r.len() - 1];
            let ch = widest(list[i]);
            &&& r.len() == list.len() + 1
            &&& front.len() <= back.len() <= front.len() + 1
            &&& front.len() + back.len() == list[i].len()
            &&& channel(front[x], ch) <= channel(back[y], ch)
            &&& (front + back).to_multiset() == list[i].to_multiset()
        }),
{
    let ch = widest(list[i]);
    let sorted = by_level(list[i], ch, 256);
    let mid = list[i].len() as int / 2;
    by_level_sorts(list[i], ch);
    let r = cut_one(list, i);
    assert(r[r.len() - 2] == sorted.take(mid));
    assert(r[r.len() - 1] == sorted.skip(mid));
    assert(sorted.take(mid) + sorted.skip(mid) =~= sorted);
    assert(sorted.take(mid)[x] == sorted[x]);
    assert(sorted.skip(mid)[y] == sorted[mid + y]);
}

/// The sum of a channel is the same in whatever parts it is added up, and the average is the
/// sum shared evenly, rounded down.
pub proof fn averages_share_the_sum(a: Seq<Rgb>, b: Seq<Rgb>, c: Rgb, ch: int)
    ensures
        channel_sum(a + b, ch) == channel_sum(a, ch) + channel_sum(b, ch),
        channel_sum(seq![c], ch) == channel(c, ch),
        a.len() > 0 ==> average(a).0 * a.len() <= channel_sum(a, 0) < (average(a).0 + 1) * a.len(),
        a.len() > 0 ==> average(a).1 * a.len() <= channel_sum(a, 1) < (average(a).1 + 1) * a.len(),
        a.len() > 0 ==> average(a).2 * a.len() <= channel_sum(a, 2) < (average(a).2 + 1) * a.len(),
    decreases b.len(),
{
    assert(seq![c].drop_last() =~= Seq::<Rgb>::empty());
    reveal_with_fuel(channel_sum, 2);
    if b.len() == 0 {
        assert(a + b =~= a);
    } else {
        assert((a + b).drop_last() =~= a + b.drop_last());
        averages_share_the_sum(a, b.drop_last(), c, ch);
    }
    if a.len() > 0 {
        shared_evenly(channel_sum(a, 0), a.len() as int);
        shared_evenly(channel_sum(a, 1), a.len() as int);
        shared_evenly(channel_sum(a, 2), a.len() as int);
    }
}

proof fn shared_evenly(s: int, n: int)
    requires
        n > 0,
    ensures
        (s / n) * n <= s < (s / n + 1) * n,
{
    vstd::arithmetic::div_mod::lemma_fundamental_div_mod(s, n);
    assert((s / n) * n == n * (s / n)) by (nonlinear_arith);
    assert((s / n + 1) * n == n * (s / n) + n) by (nonlinear_arith);
}

/// The telling colours are those with a lightness above 8 and below 96 hundredths, in order.
pub proof fn telling_colours_are_neither_dark_nor_pale(list: Seq<Rgb>)
    ensures
        telling_colours(list) == list.filter(
            |c: Rgb| 8 * 510 < 100 * light(c) && 100 * light(c) < 96 * 510,
        ),
    decreases list.len(),
{
    reveal(Seq::filter);
    if list.len() > 0 {
        telling_colours_are_neither_dark_nor_pale(list.drop_last());
    }
}

/// Putting the vivid colours first neither loses nor invents one.
pub proof fn vivid_first_loses_none(list: Seq<Rgb>)
    ensures
        vivid_first(list).to_multiset() == list.to_multiset(),
    decreases list.len(),
{
    broadcast use vstd::seq_lib::group_to_multiset_ensures;

    if list.len() > 0 {
        let short = list.drop_last();
        let before = vivid_first(short);
        let c = list.last();
        vivid_first_loses_none(short);
        rank_bound(before, c, before.len() as int);
        let k = rank(before, c, before.len() as int);
        assert(list =~= short.push(c));
        assert(before.insert(k, c).to_multiset() == before.to_multiset().insert(c));
        assert(list.to_multiset() == short.to_multiset().insert(c));
    } else {
        assert(vivid_first(list) =~= list);
    }
}

/// Of two colours of one lightness the more saturated is the more vivid; of two that are equally
/// saturated, the one whose lightness is closer to 55 hundredths.
pub proof fn vividness_weighs_saturation_and_light(a: Rgb, b: Rgb)
    ensures
        light(a) == light(b) && chroma(a) < chroma(b) ==> duller(a, b),
        chroma(a) > 0 && chroma(a) * room(b) == chroma(b) * room(a) && vstd::math::abs(
            100 * light(a) - 55 * 510,
        ) > vstd::math::abs(100 * light(b) - 55 * 510) && chroma(b) > 0 ==> duller(a, b),
{
    let x = 51_000 - vstd::math::abs(100 * light(a) - 28_050);
    let y = 51_000 - vstd::math::abs(100 * light(b) - 28_050);
    assert(x > 0 && y > 0);
    if light(a) == light(b) && chroma(a) < chroma(b) {
        assert(room(b) > 0);
        if chroma(a) == 0 {
            assert(chroma(b) * y > 0) by (nonlinear_arith)
                requires
                    chroma(b) > 0,
                    y > 0,
            ;
        } else {
            assert((chroma(a) * x) * room(b) < (chroma(b) * y) * room(a)) by (nonlinear_arith)
                requires
                    x == y,
                    x > 0,
                    room(a) == room(b),
                    room(a) > 0,
                    chroma(a) < chroma(b),
            ;
        }
    }
    if chroma(a) > 0 && chroma(b) > 0 && chroma(a) * room(b) == chroma(b) * room(a) && x < y {
        assert((chroma(a) * x) * room(b) < (chroma(b) * y) * room(a)) by (nonlinear_arith)
            requires
                chroma(a) * room(b) == chroma(b) * room(a),
                chroma(b) > 0,
                room(a) > 0,
                x < y,
        ;
    }
}

/// The accent and the pink of a cover follow its most vivid colour and the cyan the second, where
/// there is one; each keeps to its own bounds.
pub proof fn palettes_follow_the_cover(px: Seq<[u8; 3]>)
    requires
        px.len() > 0,
    ensures
        ({
            let dom = dominant(px, 5);
            let p = art_palette(px);
            &&& p.0 == branded(
                dom[0],
                (157u8, 124u8, 255u8),
                Brand { pull: 62, min_sat: 45, min_light: 550, max_light: 800 },
            )
            &&& dom.len() > 1 ==> p.1 == branded(
                dom[1],
                (86u8, 214u8, 255u8),
                Brand { pull: 45, min_sat: 55, min_light: 550, max_light: 820 },
            )
            &&& dom.len() <= 1 ==> p.1 == branded(
                dom[0],
                (86u8, 214u8, 255u8),
                Brand { pull: 45, min_sat: 55, min_light: 550, max_light: 820 },
            )
            &&& p.2 == branded(
                dom[0],
                (255u8, 110u8, 199u8),
                Brand { pull: 40, min_sat: 55, min_light: 600, max_light: 820 },
            )
        }),
{
}

/// The peak is none below a number, and is one of them unless all are nothing.
pub proof fn peaks_are_reached(data: Seq<u64>, i: int)
    requires
        0 <= i < data.len(),
    ensures
        data[i] <= peak(data),
        peak(data) >= 1,
        peak(data) > 1 ==> exists|j: int| 0 <= j < data.len() && #[trigger] data[j] == peak(data),
    decreases data.len(),
{
    let front = data.drop_last();
    if front.len() > 0 {
        let k = if i < front.len() {
            i
        } else {
            0
        };
        peaks_are_reached(front, k);
        assert(i < front.len() ==> front[i] == data[i]);
        if peak(front) > 1 {
            let j = choose|j: int| 0 <= j < front.len() && #[trigger] front[j] == peak(front);
            assert(data[j] == front[j]);
        }
    }
    assert(data[data.len() - 1] == data.last());
    assert(front.len() == 0 ==> peak(front) == 1);
}

/// A sparkline shows the last numbers flush right, each by the eighth that is closest to its
/// share of the largest, and blanks before them.
pub proof fn sparklines_show_the_last_numbers(data: Seq<u64>, width: int, k: int, n: int)
    requires
        0 < k <= width,
        ({
            let t = tail(data, width);
            k <= t.len() ==> -peak(t) < 2 * (n * peak(t) - 8 * t[t.len() - k]) < peak(t)
        }),
    ensures
        sparkline(data, width).len() == width,
        k <= data.len() ==> sparkline(data, width)[width - k] == block_glyph(n) && tail(
            data,
            width,
        )[tail(data, width).len() - k] == data[data.len() - k],
        k > data.len() ==> sparkline(data, width)[width - k] == ' ',
{
    let t = tail(data, width);
    if k <= t.len() {
        let i = t.len() - k;
        let m = peak(t);
        peaks_are_reached(t, i);
        let v = t[i] as int;
        let s = scaled(v, m, 8);
        vstd::arithmetic::div_mod::lemma_fundamental_div_mod(2 * v * 8 + m, 2 * m);
        let r = (2 * v * 8 + m) % (2 * m);
        assert(s == n) by (nonlinear_arith)
            requires
                16 * v + m == (2 * m) * s + r,
                0 <= r < 2 * m,
                -m < 2 * (n * m - 8 * v) < m,
                m > 0,
        ;
        assert(sparkline(data, width)[width - k] == spark_glyphs(t)[i]);
    }
}

/// A number stands for one colour: red, green and blue in this order, eight bits each.
pub proof fn numbers_stand_for_colours(c: Rgb)
    ensures
        packed(c) / 0x10000 == c.0,
        (packed(c) / 0x100) % 0x100 == c.1,
        packed(c) % 0x100 == c.2,
        packed(c) < 0x100_0000,
{
}

} // verus!
