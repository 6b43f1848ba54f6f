//! Album covers: decoding, sampling, and how they are drawn with half blocks.

use vstd::prelude::*;
use crate::lrc::Share;

verus! {

/// The side of a thumbnail in pixels.
pub const ART_THUMB: u32 = 64;

/// A downscaled cover, row by row.
#[derive(Clone, Debug)]
pub struct AlbumArt {
    pub track_id: String,
    pub w: usize,
    pub h: usize,
    pub px: Vec<[u8; 3]>,
}

// ---------------------------------------------------------------------------
// Decoding.
// ---------------------------------------------------------------------------

/// How pixels are weighed when a picture is scaled.
#[derive(Clone, Copy, Debug, PartialEq, Eq, Structural)]
pub enum Weighing {
    /// By distance, in a straight line.
    Triangle,
}

/// The pixels, row by row, of the picture that the bytes hold, scaled to a square of a side:
/// what `image::load_from_memory`, `DynamicImage::resize_exact` and `DynamicImage::to_rgb8`
/// give. None where the bytes hold no picture.
pub uninterp spec fn thumbnail(bytes: Seq<u8>, side: u32, weighing: Weighing) -> Option<
    Seq<[u8; 3]>,
>;

/// Calls `image::load_from_memory`, which tells a PNG from a JPEG by its first bytes and
/// decodes it, then `DynamicImage::resize_exact`, and takes the pixels row by row as
/// `DynamicImage::to_rgb8` gives them. All of it follows from the arguments: both decoders
/// compute with integers, and their vector code gives the same bits as their scalar code;
/// the scaling adds and multiplies single-precision numbers in a fixed order. A thumbnail
/// has as many pixels as a square of its side. Which bytes are a picture, what colours it
/// has, and that no malformed bytes make a decoder panic, is not stated.
#[verifier::external_body]
fn decode(bytes: &[u8], side: u32, weighing: Weighing) -> (r: Option<Vec<[u8; 3]>>)
    requires
        0 < side <= 1024,
    ensures
        r is Some == thumbnail(bytes@, side, weighing) is Some,
        r matches Some(px) ==> thumbnail(bytes@, side, weighing) == Some(px@) && px@.len() == side
            * side,
{
    let filter = match weighing {
        Weighing::Triangle => image::imageops::FilterType::Triangle,
    };
    let picture = image::load_from_memory(bytes).ok()?;
    Some(picture.resize_exact(side, side, filter).to_rgb8().pixels().map(|p| p.0).collect())
}

/// A cover without a picture.
pub open spec fn bare(a: AlbumArt, id: Seq<char>) -> bool {
    a.track_id@ == id && a.w == 0 && a.h == 0 && a.px@.len() == 0
}

/// A square cover of the given pixels.
pub open spec fn square(a: AlbumArt, id: Seq<char>, px: Seq<[u8; 3]>) -> bool {
    a.track_id@ == id && a.w == ART_THUMB && a.h == ART_THUMB && a.px@ == px
}

/// The cover of a decoded thumbnail.
pub fn art_of(id: &str, px: Option<Vec<[u8; 3]>>) -> (r: AlbumArt)
    ensures
        match px {
            Some(v) => square(r, id@, v@),
            None => bare(r, id@),
        },
{
    match px {
        Some(v) => AlbumArt { track_id: id.to_string(), w: 64, h: 64, px: v },
        None => AlbumArt { track_id: id.to_string(), w: 0, h: 0, px: Vec::new() },
    }
}

/// The thumbnail of the cover that the bytes hold.
pub open spec fn cover_in(bytes: Seq<u8>) -> Option<Seq<[u8; 3]>> {
    thumbnail(bytes, ART_THUMB, Weighing::Triangle)
}

/// Decodes a cover; one that cannot be decoded has no picture.
pub fn decode_art(bytes: &[u8], id: &str) -> (r: AlbumArt)
    ensures
        match cover_in(bytes@) {
            Some(px) => square(r, id@, px) && px.len() == ART_THUMB * ART_THUMB,
            None => bare(r, id@),
        },
        r.sound(),
{
    art_of(id, decode(bytes, ART_THUMB, Weighing::Triangle))
}

// ---------------------------------------------------------------------------
// A glow in place of a cover.
// ---------------------------------------------------------------------------

/// A channel of the glow, which falls from the middle to the rim: `far` is the square of
/// the distance from the middle, in half pixels.
pub open spec fn glow_channel(middle: int, rim: int, far: int) -> int {
    if far < 4096 {
        middle - ((middle - rim) * far) / 4096
    } else {
        rim
    }
}

/// How far a pixel is from the middle, squared, in half pixels.
pub open spec fn glow_far(i: int) -> int {
    let x = 2 * (i % 64) - 63;
    let y = 2 * (i / 64) - 63;
    x * x + y * y
}

/// The pixels of the glow, row by row: pink in the middle, a dark violet at the rim.
pub open spec fn glow() -> Seq<[u8; 3]> {
    Seq::new(
        4096,
        |i: int|
            [
                glow_channel(255, 40, glow_far(i)) as u8,
                glow_channel(110, 30, glow_far(i)) as u8,
                glow_channel(199, 120, glow_far(i)) as u8,
            ],
    )
}

fn fall(middle: u32, rim: u32, far: u32) -> (r: u8)
    requires
        rim <= middle <= 255,
    ensures
        r == glow_channel(middle as int, rim as int, far as int),
{
    if far < 4096 {
        assert(0 <= (middle - rim) * far <= 255 * 4096) by (nonlinear_arith)
            requires
                rim <= middle <= 255,
                far < 4096,
        ;
        assert(((middle - rim) * far) / 4096 <= middle - rim) by (nonlinear_arith)
            requires
                rim <= middle,
                0 <= far < 4096,
        ;
        (middle - ((middle - rim) * far) / 4096) as u8
    } else {
        rim as u8
    }
}

/// The glow that stands for a cover.
pub fn glowing(id: &str) -> (r: AlbumArt)
    ensures
        square(r, id@, glow()),
        r.sound(),
{
    let mut px: Vec<[u8; 3]> = Vec::new();
    let mut i: i32 = 0;
    while i < 4096
        invariant
            0 <= i <= 4096,
            px@ == glow().take(i as int),
        decreases 4096 - i,
    {
        let x: i32 = 2 * (i % 64) - 63;
        let y: i32 = 2 * (i / 64) - 63;
        assert(0 <= x * x <= 63 * 63) by (nonlinear_arith)
            requires
                -63 <= x <= 63,
        ;
        assert(0 <= y * y <= 63 * 63) by (nonlinear_arith)
            requires
                -63 <= y <= 63,
        ;
        let far: u32 = (x * x + y * y) as u32;
        px.push([fall(255, 40, far), fall(110, 30, far), fall(199, 120, far)]);
        proof {
            assert(px@.last()@ =~= glow()[i as int]@);
            assert(px@.last() =~= glow()[i as int]);
            assert(glow().take(i + 1) =~= glow().take(i as int).push(glow()[i as int]));
        }
        i += 1;
    }
    proof {
        assert(glow().take(4096) =~= glow());
    }
    art_of(id, Some(px))
}

/// A cover for a picture of the screen: the last one that was kept, or the glow.
pub fn sample_album_art(id: &str, kept: Vec<[u8; 3]>) -> (r: AlbumArt)
    ensures
        square(r, id@, sample_cover(kept@)),
        r.sound(),
{
    if kept.len() == 4096 {
        art_of(id, Some(kept))
    } else {
        glowing(id)
    }
}

/// The pixels of the cover for a picture of the screen: those of the last cover that was
/// kept, or the glow where none was.
pub open spec fn sample_cover(kept: Seq<[u8; 3]>) -> Seq<[u8; 3]> {
    if kept.len() == ART_THUMB * ART_THUMB {
        kept
    } else {
        glow()
    }
}

// ---------------------------------------------------------------------------
// Sampling.
// ---------------------------------------------------------------------------

/// The pixel at a share of a side, which stops just short of the end.
pub open spec fn pixel_at(s: Share, n: int) -> int {
    if 1000 * s.num > 999 * s.den {
        (999 * n) / 1000
    } else {
        (s.num * n) / s.den as int
    }
}

/// The first pixel of a footprint.
pub open spec fn pixel_from(s: Share, n: int) -> int {
    if s.num >= s.den {
        n
    } else {
        (s.num * n) / s.den as int
    }
}

/// The pixel behind a footprint that starts at `from`: one at least, none beyond the
/// picture.
pub open spec fn pixel_upto(s: Share, n: int, from: int) -> int {
    let end = if s.num >= s.den {
        n
    } else {
        (s.num * n + s.den - 1) / s.den as int
    };
    let end = if end > from {
        end
    } else {
        from + 1
    };
    if end < n {
        end
    } else {
        n
    }
}

/// The sum of a channel over part of a row, as far as there are pixels, and how many
/// there are.
pub open spec fn row_sum(px: Seq<[u8; 3]>, row: int, x0: int, x1: int, c: int) -> (int, int)
    decreases x1 - x0,
{
    if x0 >= x1 {
        (0, 0)
    } else {
        let (sum, n) = row_sum(px, row, x0, x1 - 1, c);
        if row + x1 - 1 < px.len() {
            (sum + px[row + x1 - 1][c], n + 1)
        } else {
            (sum, n)
        }
    }
}

/// The sum of a channel over a rectangle, and how many pixels it has.
pub open spec fn area_sum(
    px: Seq<[u8; 3]>,
    w: int,
    x0: int,
    x1: int,
    y0: int,
    y1: int,
    c: int,
) -> (int, int)
    decreases y1 - y0,
{
    if y0 >= y1 {
        (0, 0)
    } else {
        let (sum, n) = area_sum(px, w, x0, x1, y0, y1 - 1, c);
        let (more, m) = row_sum(px, (y1 - 1) * w, x0, x1, c);
        (sum + more, n + m)
    }
}

impl AlbumArt {
    /// The pixels can be counted.
    pub open spec fn sound(self) -> bool {
        self.w * self.h <= usize::MAX
    }

    /// There is a picture.
    pub open spec fn shown(self) -> bool {
        self.px@.len() > 0 && self.w > 0 && self.h > 0
    }

    /// The pixel nearest to a point.
    pub open spec fn nearest(self, u: Share, v: Share) -> Option<[u8; 3]> {
        let i = pixel_at(v, self.h as int) * self.w + pixel_at(u, self.w as int);
        if self.shown() && i < self.px@.len() {
            Some(self.px@[i])
        } else {
            None
        }
    }

    /// Samples the pixel nearest to a point.
    pub fn sample(&self, u: Share, v: Share) -> (r: Option<[u8; 3]>)
        requires
            self.sound(),
            0 < u.den,
            0 < v.den,
        ensures
            r == self.nearest(u, v),
    {
        if self.px.len() == 0 || self.w == 0 || self.h == 0 {
            return None;
        }
        let x = pixel_index(u, self.w);
        let y = pixel_index(v, self.h);
        proof {
            assert(y * self.w + x < self.w * self.h) by (nonlinear_arith)
                requires
                    0 <= x < self.w,
                    0 <= y < self.h,
            ;
            assert(0 <= y * self.w) by (nonlinear_arith)
                requires
                    0 <= y,
                    0 <= self.w,
            ;
        }
        let i: usize = y * self.w + x;
        if i < self.px.len() {
            Some(self.px[i])
        } else {
            None
        }
    }

    /// The rounded-down average of a channel over a footprint.
    pub open spec fn average(
        self,
        u0: Share,
        v0: Share,
        u1: Share,
        v1: Share,
        c: int,
    ) -> (int, int) {
        let x0 = pixel_from(u0, self.w as int);
        let y0 = pixel_from(v0, self.h as int);
        area_sum(
            self.px@,
            self.w as int,
            x0,
            pixel_upto(u1, self.w as int, x0),
            y0,
            pixel_upto(v1, self.h as int, y0),
            c,
        )
    }

    /// The average colour of the pixels that cover a rectangle: every output cell takes
    /// in its whole footprint. Where it covers none, the pixel in its middle.
    pub fn sample_area(&self, u0: Share, v0: Share, u1: Share, v1: Share) -> (r: Option<[u8; 3]>)
        requires
            self.sound(),
            0 < u0.den == u1.den <= u32::MAX,
            0 < v0.den == v1.den <= u32::MAX,
            u0.num <= u32::MAX && u1.num <= u32::MAX && v0.num <= u32::MAX && v1.num <= u32::MAX,
        ensures
            !self.shown() ==> r is None,
            self.shown() && self.average(u0, v0, u1, v1, 0).1 > 0 ==> (r matches Some(p) && forall|
                c: int,
            |
                0 <= c < 3 ==> #[trigger] p[c] == self.average(u0, v0, u1, v1, c).0 / self.average(
                    u0,
                    v0,
                    u1,
                    v1,
                    c,
                ).1),
            self.shown() && self.average(u0, v0, u1, v1, 0).1 <= 0 ==> r == self.nearest(
                halfway(u0, u1),
                halfway(v0, v1),
            ),
    {
        if self.px.len() == 0 || self.w == 0 || self.h == 0 {
            return None;
        }
        let x0 = pixel_start(u0, self.w);
        let y0 = pixel_start(v0, self.h);
        let x1 = pixel_end(u1, self.w, x0);
        let y1 = pixel_end(v1, self.h, y0);
        let s = self.sum_area(x0, x1, y0, y1);
        if s.3 == 0 {
            let u = Share { num: u0.num + u1.num, den: 2 * u0.den };
            let v = Share { num: v0.num + v1.num, den: 2 * v0.den };
            return self.sample(u, v);
        }
        proof {
            assert(s.0 / s.3 <= 255 && s.1 / s.3 <= 255 && s.2 / s.3 <= 255) by (nonlinear_arith)
                requires
                    0 < s.3,
                    0 <= s.0 <= 255 * s.3,
                    0 <= s.1 <= 255 * s.3,
                    0 <= s.2 <= 255 * s.3,
            ;
        }
        let p: [u8; 3] = [(s.0 / s.3) as u8, (s.1 / s.3) as u8, (s.2 / s.3) as u8];
        Some(p)
    }

    fn sum_area(&self, x0: usize, x1: usize, y0: usize, y1: usize) -> (r: (u128, u128, u128, u128))
        requires
            self.sound(),
            x1 <= self.w,
            y1 <= self.h,
        ensures
            forall|c: int|
                0 <= c < 3 ==> r.3 == (#[trigger] area_sum(
                    self.px@,
                    self.w as int,
                    x0 as int,
                    x1 as int,
                    y0 as int,
                    y1 as int,
                    c,
                )).1,
            r.0 == area_sum(
                self.px@,
                self.w as int,
                x0 as int,
                x1 as int,
                y0 as int,
                y1 as int,
                0,
            ).0,
            r.1 == area_sum(
                self.px@,
                self.w as int,
                x0 as int,
                x1 as int,
                y0 as int,
                y1 as int,
                1,
            ).0,
            r.2 == area_sum(
                self.px@,
                self.w as int,
                x0 as int,
                x1 as int,
                y0 as int,
                y1 as int,
                2,
            ).0,
            r.0 <= 255 * r.3,
            r.1 <= 255 * r.3,
            r.2 <= 255 * r.3,
    {
        let mut s: (u128, u128, u128, u128) = (0, 0, 0, 0);
        let mut y: usize = y0;
        let ghost px = self.px@;
        let ghost w = self.w as int;
        while y < y1
            invariant
                self.sound(),
                px == self.px@,
                w == self.w,
                x1 <= self.w,
                y1 <= self.h,
                y0 <= y,
                y <= y1 || y == y0,
                forall|c: int|
                    0 <= c < 3 ==> s.3 == (#[trigger] area_sum(
                        px,
                        w,
                        x0 as int,
                        x1 as int,
                        y0 as int,
                        y as int,
                        c,
                    )).1,
                s.0 == area_sum(px, w, x0 as int, x1 as int, y0 as int, y as int, 0).0,
                s.1 == area_sum(px, w, x0 as int, x1 as int, y0 as int, y as int, 1).0,
                s.2 == area_sum(px, w, x0 as int, x1 as int, y0 as int, y as int, 2).0,
                s.0 <= 255 * s.3,
                s.1 <= 255 * s.3,
                s.2 <= 255 * s.3,
                s.3 <= y * w,
            decreases y1 - y,
        {
            proof {
                assert((y + 1) * w <= self.w * self.h) by (nonlinear_arith)
                    requires
                        w == self.w,
                        y + 1 <= self.h,
                        0 <= w,
                ;
                assert((y + 1) * w == y * w + w) by (nonlinear_arith);
                assert(0 <= y * w) by (nonlinear_arith)
                    requires
                        0 <= y,
                        0 <= w,
                ;
            }
            let m = self.sum_row(y * self.w, x0, x1);
            s = (s.0 + m.0, s.1 + m.1, s.2 + m.2, s.3 + m.3);
            y += 1;
        }
        proof {
            if y0 >= y1 {
                assert forall|c: int| 0 <= c < 3 implies s.3 == (#[trigger] area_sum(
                    px,
                    w,
                    x0 as int,
                    x1 as int,
                    y0 as int,
                    y1 as int,
                    c,
                )).1 by {
                    assert(area_sum(px, w, x0 as int, x1 as int, y0 as int, y as int, c) == area_sum(
                        px,
                        w,
                        x0 as int,
                        x1 as int,
                        y0 as int,
                        y1 as int,
                        c,
                    ));
                }
            }
        }
        s
    }

    fn sum_row(&self, row: usize, x0: usize, x1: usize) -> (r: (u128, u128, u128, u128))
        requires
            row + x1 <= usize::MAX,
        ensures
            forall|c: int|
                0 <= c < 3 ==> r.3 == (#[trigger] row_sum(
                    self.px@,
                    row as int,
                    x0 as int,
                    x1 as int,
                    c,
                )).1,
            r.0 == row_sum(self.px@, row as int, x0 as int, x1 as int, 0).0,
            r.1 == row_sum(self.px@, row as int, x0 as int, x1 as int, 1).0,
            r.2 == row_sum(self.px@, row as int, x0 as int, x1 as int, 2).0,
            r.0 <= 255 * r.3,
            r.1 <= 255 * r.3,
            r.2 <= 255 * r.3,
            r.3 <= x1,
    {
        let mut s: (u128, u128, u128, u128) = (0, 0, 0, 0);
        let mut x: usize = x0;
        let ghost px = self.px@;
        while x < x1
            invariant
                px == self.px@,
                row + x1 <= usize::MAX,
                x0 <= x,
                x <= x1 || x == x0,
                forall|c: int|
                    0 <= c < 3 ==> s.3 == (#[trigger] row_sum(
                        px,
                        row as int,
                        x0 as int,
                        x as int,
                        c,
                    )).1,
                s.0 == row_sum(px, row as int, x0 as int, x as int, 0).0,
                s.1 == row_sum(px, row as int, x0 as int, x as int, 1).0,
                s.2 == row_sum(px, row as int, x0 as int, x as int, 2).0,
                s.0 <= 255 * s.3,
                s.1 <= 255 * s.3,
                s.2 <= 255 * s.3,
                s.3 <= x - x0,
            decreases x1 - x,
        {
            let i: usize = row + x;
            if i < self.px.len() {
                let p = self.px[i];
                s = (s.0 + p[0] as u128, s.1 + p[1] as u128, s.2 + p[2] as u128, s.3 + 1);
            }
            x += 1;
        }
        proof {
            if x0 >= x1 {
                assert forall|c: int| 0 <= c < 3 implies s.3 == (#[trigger] row_sum(
                    px,
                    row as int,
                    x0 as int,
                    x1 as int,
                    c,
                )).1 by {
                    assert(row_sum(px, row as int, x0 as int, x as int, c) == row_sum(
                        px,
                        row as int,
                        x0 as int,
                        x1 as int,
                        c,
                    ));
                }
            }
        }
        s
    }
}

/// The share halfway between two shares of one whole.
pub open spec fn halfway(a: Share, b: Share) -> Share {
    Share { num: (a.num + b.num) as u64, den: (2 * a.den) as u64 }
}

fn scaled_down(a: u64, n: usize, d: u64) -> (r: u128)
    requires
        0 < d,
    ensures
        r == (a * n) / d as int,
        a < d ==> r <= n,
        a < d && 0 < n ==> r < n,
{
    proof {
        assert(a * n <= 0xffff_ffff_ffff_ffff * 0xffff_ffff_ffff_ffff && 0 <= a * n) by (
        nonlinear_arith)
            requires
                0 <= a <= 0xffff_ffff_ffff_ffff,
                0 <= n <= 0xffff_ffff_ffff_ffff,
        ;
        if a < d {
            assert((a * n) / d as int <= n) by (nonlinear_arith)
                requires
                    0 <= a < d,
                    0 <= n,
            ;
            if 0 < n {
                assert((a * n) / (d as int) < n) by (nonlinear_arith)
                    requires
                        0 <= a < d,
                        0 < n,
                ;
            }
        }
    }
    (a as u128 * n as u128) / d as u128
}

fn pixel_index(s: Share, n: usize) -> (r: usize)
    requires
        0 < s.den,
        0 < n,
    ensures
        r == pixel_at(s, n as int),
        r < n,
{
    if 1000 * s.num as u128 > 999 * s.den as u128 {
        scaled_down(999, n, 1000) as usize
    } else {
        scaled_down(s.num, n, s.den) as usize
    }
}

fn pixel_start(s: Share, n: usize) -> (r: usize)
    requires
        0 < s.den,
    ensures
        r == pixel_from(s, n as int),
        r <= n,
{
    if s.num >= s.den {
        n
    } else {
        scaled_down(s.num, n, s.den) as usize
    }
}

fn pixel_end(s: Share, n: usize, from: usize) -> (r: usize)
    requires
        0 < s.den <= u32::MAX,
        from <= n,
    ensures
        r == pixel_upto(s, n as int, from as int),
        r <= n,
{
    let end: u128 = if s.num >= s.den {
        n as u128
    } else {
        proof {
            assert(s.num * n <= 0xffff_ffff * 0xffff_ffff_ffff_ffff && 0 <= s.num * n) by (
            nonlinear_arith)
                requires
                    0 <= s.num <= 0xffff_ffff,
                    0 <= n <= 0xffff_ffff_ffff_ffff,
            ;
        }
        (s.num as u128 * n as u128 + s.den as u128 - 1) / s.den as u128
    };
    let end: u128 = if end > from as u128 {
        end
    } else {
        from as u128 + 1
    };
    if end < n as u128 {
        end as usize
    } else {
        n
    }
}

// ---------------------------------------------------------------------------
// Drawing.
// ---------------------------------------------------------------------------

/// Nearly black.
pub open spec fn dark(p: [u8; 3]) -> bool {
    p[0] == 20 && p[1] == 20 && p[2] == 28
}

/// The colour of a half cell of the cover: column `col` of `w`, half row `half` of
/// `2 * h`. A half cell without a pixel is nearly black.
pub open spec fn half_cell(a: AlbumArt, w: int, h: int, col: int, half: int, p: [u8; 3]) -> bool {
    let u0 = Share { num: col as u64, den: w as u64 };
    let u1 = Share { num: (col + 1) as u64, den: w as u64 };
    let v0 = Share { num: half as u64, den: (2 * h) as u64 };
    let v1 = Share { num: (half + 1) as u64, den: (2 * h) as u64 };
    if !a.shown() {
        dark(p)
    } else if a.average(u0, v0, u1, v1, 0).1 > 0 {
        forall|c: int|
            0 <= c < 3 ==> #[trigger] p[c] == a.average(u0, v0, u1, v1, c).0 / a.average(
                u0,
                v0,
                u1,
                v1,
                c,
            ).1
    } else {
        match a.nearest(halfway(u0, u1), halfway(v0, v1)) {
            Some(q) => p == q,
            None => dark(p),
        }
    }
}

fn half_cell_of(a: &AlbumArt, w: u16, h: u16, col: u16, half: u32) -> (r: [u8; 3])
    requires
        a.sound(),
        0 < w,
        0 < h,
        half < 2 * h,
    ensures
        half_cell(*a, w as int, h as int, col as int, half as int, r),
{
    let u0 = Share { num: col as u64, den: w as u64 };
    let u1 = Share { num: col as u64 + 1, den: w as u64 };
    let v0 = Share { num: half as u64, den: 2 * h as u64 };
    let v1 = Share { num: half as u64 + 1, den: 2 * h as u64 };
    match a.sample_area(u0, v0, u1, v1) {
        Some(p) => p,
        None => [20, 20, 28],
    }
}

/// A row of half blocks shows the cover.
pub open spec fn shows_row(
    a: AlbumArt,
    w: int,
    h: int,
    row: int,
    cells: Seq<([u8; 3], [u8; 3])>,
) -> bool {
    cells.len() == w && forall|col: int|
        0 <= col < w ==> half_cell(a, w, h, col, 2 * row, (#[trigger] cells[col]).0) && half_cell(
            a,
            w,
            h,
            col,
            2 * row + 1,
            cells[col].1,
        )
}

/// The cover as half blocks: for each row and column, the colours of the upper and the
/// lower half. None where there is no picture of this track.
pub fn art_cells(a: &AlbumArt, w: u16, h: u16, current: bool) -> (r: Option<
    Vec<Vec<([u8; 3], [u8; 3])>>,
>)
    requires
        a.sound(),
        0 < w,
        0 < h,
    ensures
        r is Some == (current && a.px@.len() > 0),
        r matches Some(v) ==> v@.len() == h && forall|row: int|
            0 <= row < h ==> shows_row(*a, w as int, h as int, row, #[trigger] v@[row]@),
{
    if !current || a.px.len() == 0 {
        return None;
    }
    let mut out: Vec<Vec<([u8; 3], [u8; 3])>> = Vec::new();
    let mut row: u16 = 0;
    while row < h
        invariant
            a.sound(),
            0 < w,
            0 < h,
            row <= h,
            out@.len() == row,
            forall|i: int|
                0 <= i < row ==> shows_row(*a, w as int, h as int, i, #[trigger] out@[i]@),
        decreases h - row,
    {
        let cells = art_row(a, w, h, row);
        out.push(cells);
        row += 1;
    }
    Some(out)
}

fn art_row(a: &AlbumArt, w: u16, h: u16, row: u16) -> (r: Vec<([u8; 3], [u8; 3])>)
    requires
        a.sound(),
        0 < w,
        0 < h,
        row < h,
    ensures
        shows_row(*a, w as int, h as int, row as int, r@),
{
    let mut cells: Vec<([u8; 3], [u8; 3])> = Vec::new();
    let mut col: u16 = 0;
    while col < w
        invariant
            a.sound(),
            0 < w,
            0 < h,
            row < h,
            col <= w,
            cells@.len() == col,
            forall|i: int|
                0 <= i < col ==> half_cell(
                    *a,
                    w as int,
                    h as int,
                    i,
                    2 * row,
                    (#[trigger] cells@[i]).0,
                ) && half_cell(*a, w as int, h as int, i, 2 * row + 1, cells@[i].1),
        decreases w - col,
    {
        let top = half_cell_of(a, w, h, col, 2 * row as u32);
        let bottom = half_cell_of(a, w, h, col, 2 * row as u32 + 1);
        cells.push((top, bottom));
        col += 1;
    }
    cells
}

// ---------------------------------------------------------------------------
// Laws of covers.
// ---------------------------------------------------------------------------

/// The sum over part of a row is that of its parts together, and over one pixel that pixel.
pub proof fn rows_add_up(px: Seq<[u8; 3]>, row: int, x0: int, x1: int, x2: int, c: int)
    requires
        x0 <= x1 <= x2,
    ensures
        row_sum(px, row, x0, x2, c).0 == row_sum(px, row, x0, x1, c).0 + row_sum(
            px,
            row,
            x1,
            x2,
            c,
        ).0,
        row_sum(px, row, x0, x2, c).1 == row_sum(px, row, x0, x1, c).1 + row_sum(
            px,
            row,
            x1,
            x2,
            c,
        ).1,
        row + x0 < px.len() ==> row_sum(px, row, x0, x0 + 1, c) == (px[row + x0][c] as int, 1int),
        row + x0 >= px.len() ==> row_sum(px, row, x0, x0 + 1, c) == (0int, 0int),
    decreases x2 - x1,
{
    reveal_with_fuel(row_sum, 2);
    if x1 < x2 {
        rows_add_up(px, row, x0, x1, x2 - 1, c);
    }
}

/// The sum over a rectangle is that of its parts, and over one row that of the row.
pub proof fn rectangles_add_up(
    px: Seq<[u8; 3]>,
    w: int,
    x0: int,
    x1: int,
    y0: int,
    y1: int,
    y2: int,
    c: int,
)
    requires
        y0 <= y1 <= y2,
    ensures
        area_sum(px, w, x0, x1, y0, y2, c).0 == area_sum(px, w, x0, x1, y0, y1, c).0 + area_sum(
            px,
            w,
            x0,
            x1,
            y1,
            y2,
            c,
        ).0,
        area_sum(px, w, x0, x1, y0, y2, c).1 == area_sum(px, w, x0, x1, y0, y1, c).1 + area_sum(
            px,
            w,
            x0,
            x1,
            y1,
            y2,
            c,
        ).1,
        area_sum(px, w, x0, x1, y0, y0 + 1, c) == row_sum(px, y0 * w, x0, x1, c),
    decreases y2 - y1,
{
    reveal_with_fuel(area_sum, 2);
    if y1 < y2 {
        rectangles_add_up(px, w, x0, x1, y0, y1, y2 - 1, c);
    }
}

/// The pixel at a share of a side is the one that the share falls into, up to 999 thousandths;
/// from there on it is the one there.
pub proof fn shares_fall_into_pixels(s: Share, n: int)
    requires
        0 < s.den,
        0 < n,
    ensures
        1000 * s.num <= 999 * s.den ==> pixel_at(s, n) * s.den <= s.num * n < (pixel_at(s, n) + 1)
            * s.den,
        1000 * s.num > 999 * s.den ==> 1000 * pixel_at(s, n) <= 999 * n < 1000 * (pixel_at(s, n)
            + 1),
{
    let d = s.den as int;
    let a = s.num * n;
    let q = a / d;
    vstd::arithmetic::div_mod::lemma_fundamental_div_mod(a, d);
    assert(q * d == d * q && (q + 1) * d == d * q + d) by (nonlinear_arith);
}

/// The pixel nearest to a point stands in the row of its height and the column of its width.
pub proof fn pixels_stand_row_by_row(a: AlbumArt, u: Share, v: Share)
    requires
        a.shown(),
    ensures
        ({
            let i = pixel_at(v, a.h as int) * a.w + pixel_at(u, a.w as int);
            &&& i < a.px@.len() ==> a.nearest(u, v) == Some(a.px@[i])
            &&& i >= a.px@.len() ==> a.nearest(u, v) is None
        }),
{
}

/// A footprint takes in every pixel that it touches: it begins with the pixel that its start
/// falls into and ends behind the one before its end, and has one pixel at least.
pub proof fn footprints_take_in_what_they_touch(s: Share, e: Share, n: int)
    requires
        0 < s.den,
        s.den == e.den,
        s.num < e.num <= e.den,
        0 < n,
    ensures
        ({
            let from = pixel_from(s, n);
            let upto = pixel_upto(e, n, from);
            &&& 0 <= from < upto <= n
            &&& from * s.den <= s.num * n < (from + 1) * s.den
            &&& upto * e.den >= e.num * n
            &&& upto > from + 1 ==> (upto - 1) * e.den < e.num * n
        }),
{
    let d = s.den as int;
    let a = s.num * n;
    let b = e.num * n;
    let q = a / d;
    let p = (b + d - 1) / d;
    vstd::arithmetic::div_mod::lemma_fundamental_div_mod(a, d);
    vstd::arithmetic::div_mod::lemma_fundamental_div_mod(b + d - 1, d);
    assert(q * d == d * q && (q + 1) * d == d * q + d) by (nonlinear_arith);
    assert(p * d == d * p && (p - 1) * d == d * p - d) by (nonlinear_arith);
    assert(a < d * n) by (nonlinear_arith)
        requires
            a == s.num * n,
            s.num < d,
            n > 0,
    ;
    assert(a >= 0) by (nonlinear_arith)
        requires
            a == s.num * n,
            s.num >= 0,
            n > 0,
    ;
    assert(0 <= q < n) by (nonlinear_arith)
        requires
            a == d * q + a % d,
            0 <= a % d < d,
            0 <= a < d * n,
            d > 0,
    ;
    assert(b <= d * n && a < b) by (nonlinear_arith)
        requires
            a == s.num * n,
            b == e.num * n,
            s.num < e.num <= d,
            n > 0,
    ;
    assert(n * d == d * n) by (nonlinear_arith);
    if e.num < e.den {
        assert(p > q) by (nonlinear_arith)
            requires
                b + d - 1 == d * p + (b + d - 1) % d,
                0 <= (b + d - 1) % d < d,
                a == d * q + a % d,
                0 <= a % d < d,
                a < b,
                d > 0,
        ;
        assert(p <= n) by (nonlinear_arith)
            requires
                b + d - 1 == d * p + (b + d - 1) % d,
                0 <= (b + d - 1) % d < d,
                b <= d * n,
                d > 0,
        ;
    } else {
        assert((n - 1) * d == d * n - d) by (nonlinear_arith);
        assert(b == d * n) by (nonlinear_arith)
            requires
                b == e.num * n,
                e.num == d,
        ;
    }
}

/// The glow is the same from every side: pixels that face each other across the middle are alike.
pub proof fn glow_is_even(i: int)
    requires
        0 <= i < 4096,
    ensures
        glow_far(4095 - i) == glow_far(i),
        glow().len() == 4096,
        glow()[4095 - i] == glow()[i],
{
    let x = 2 * (i % 64) - 63;
    let y = 2 * (i / 64) - 63;
    assert((4095 - i) % 64 == 63 - i % 64 && (4095 - i) / 64 == 63 - i / 64);
    assert((-x) * (-x) == x * x && (-y) * (-y) == y * y) by (nonlinear_arith);
}

/// The glow falls from the middle to the rim: what is further off is none brighter, the middle is
/// bright and the rim has the rim's colour.
pub proof fn glow_falls_to_the_rim(middle: int, rim: int, near: int, far: int)
    requires
        rim <= middle,
        0 <= near <= far,
    ensures
        rim <= glow_channel(middle, rim, far) <= glow_channel(middle, rim, near) <= middle,
        glow_channel(middle, rim, 0) == middle,
        far >= 4096 ==> glow_channel(middle, rim, far) == rim,
{
    let d = middle - rim;
    assert(d * 0 == 0);
    assert(0 <= d * near <= d * far) by (nonlinear_arith)
        requires
            0 <= d,
            0 <= near <= far,
    ;
    if far < 4096 {
        assert(d * far <= d * 4096) by (nonlinear_arith)
            requires
                0 <= d,
                far < 4096,
        ;
    } else if near < 4096 {
        assert(d * near <= d * 4096) by (nonlinear_arith)
            requires
                0 <= d,
                near < 4096,
        ;
    }
}

/// A cover that was kept is shown as it is where it has the pixels of a square of 64, else the
/// glow is.
pub proof fn kept_covers_are_shown(kept: Seq<[u8; 3]>)
    ensures
        kept.len() == 64 * 64 ==> sample_cover(kept) == kept,
        kept.len() != 64 * 64 ==> sample_cover(kept) == glow(),
{
}

/// A cover with one pixel for each half cell is shown pixel by pixel: the upper half of a cell is
/// the pixel above, the lower half the one below it.
pub proof fn covers_are_shown_pixel_by_pixel(
    a: AlbumArt,
    w: int,
    h: int,
    row: int,
    cells: Seq<([u8; 3], [u8; 3])>,
    col: int,
    c: int,
)
    requires
        shows_row(a, w, h, row, cells),
        0 <= row < h <= u16::MAX,
        0 <= col < w <= u16::MAX,
        0 <= c < 3,
        a.w == w,
        a.h == 2 * h,
        a.px@.len() == w * (2 * h),
    ensures
        cells[col].0[c] == a.px@[2 * row * w + col][c],
        cells[col].1[c] == a.px@[(2 * row + 1) * w + col][c],
{
    assert(w * (2 * h) > 0) by (nonlinear_arith)
        requires
            w > 0,
            h > 0,
    ;
    half_cell_is_its_pixel(a, w, h, col, 2 * row, cells[col].0, c);
    half_cell_is_its_pixel(a, w, h, col, 2 * row + 1, cells[col].1, c);
}

proof fn half_cell_is_its_pixel(
    a: AlbumArt,
    w: int,
    h: int,
    col: int,
    half: int,
    p: [u8; 3],
    c: int,
)
    requires
        half_cell(a, w, h, col, half, p),
        0 <= half < 2 * h,
        0 < h <= u16::MAX,
        0 <= col < w <= u16::MAX,
        0 <= c < 3,
        a.w == w,
        a.h == 2 * h,
        a.px@.len() == w * (2 * h),
        a.px@.len() > 0,
    ensures
        p[c] == a.px@[half * w + col][c],
{
    let u0 = Share { num: col as u64, den: w as u64 };
    let u1 = Share { num: (col + 1) as u64, den: w as u64 };
    let v0 = Share { num: half as u64, den: (2 * h) as u64 };
    let v1 = Share { num: (half + 1) as u64, den: (2 * h) as u64 };
    footprint_is_one(col, w);
    footprint_is_one(half, 2 * h);
    assert(half * w + col < w * (2 * h)) by (nonlinear_arith)
        requires
            0 <= half < 2 * h,
            0 <= col < w,
    ;
    assert(half * w >= 0) by (nonlinear_arith)
        requires
            half >= 0,
            w >= 0,
    ;
    assert forall|k: int| 0 <= k < 3 implies #[trigger] a.average(u0, v0, u1, v1, k) == (
        a.px@[half * w + col][k] as int,
        1int,
    ) by {
        reveal_with_fuel(area_sum, 2);
        reveal_with_fuel(row_sum, 2);
    }
    assert(a.average(u0, v0, u1, v1, 0).1 == 1);
    assert(p[c] == a.average(u0, v0, u1, v1, c).0 / a.average(u0, v0, u1, v1, c).1);
    let x = a.px@[half * w + col][c] as int;
    assert(a.average(u0, v0, u1, v1, c) == (x, 1int));
    vstd::arithmetic::div_mod::lemma_div_basics(x);
}

proof fn footprint_is_one(i: int, n: int)
    requires
        0 <= i < n <= u32::MAX,
    ensures
        pixel_from(Share { num: i as u64, den: n as u64 }, n) == i,
        pixel_upto(Share { num: (i + 1) as u64, den: n as u64 }, n, i) == i + 1,
{
    vstd::arithmetic::div_mod::lemma_fundamental_div_mod_converse(i * n, n, i, 0);
    assert((i + 1) * n + n - 1 == (i + 1) * n + (n - 1));
    vstd::arithmetic::div_mod::lemma_fundamental_div_mod_converse(
        (i + 1) * n + n - 1,
        n,
        i + 1,
        n - 1,
    );
}

/// Where there is no picture, a half cell is nearly black.
pub proof fn missing_pictures_are_dark(a: AlbumArt, w: int, h: int, col: int, half: int, p: [u8; 3])
    requires
        half_cell(a, w, h, col, half, p),
        a.px@.len() == 0,
    ensures
        p[0] == 20 && p[1] == 20 && p[2] == 28,
{
}

} // verus!
