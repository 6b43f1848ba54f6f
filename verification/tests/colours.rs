//! Colours, bars and the theme that follows the cover.

use overseer::lrc::Share;
use overseer::paint::{
    bar, blend, faded, hue, ink_rgb, jazz, vblock, wipe, Palette, BG, DIM, FAINT, GREEN,
    PANEL_BORDER_HOT, RED, TEXT, WHITE, YELLOW,
};
use overseer::panel::{Hue, Ink};
use overseer::theme::{
    apply_dynamic, block_char, brandify, channel_spread, dominant_colors, pack, peak_of, scale,
    spark, theme_from_art, unpack, widest_channel, Brand, DynamicTheme, LiveAccents, ACCENT_BASE, CYAN_BASE,
    PINK_BASE, THEME_FADE,
};

type Rgb = (u8, u8, u8);

fn share(num: u64, den: u64) -> Share {
    Share { num, den }
}

fn house() -> Palette {
    Palette { accent: ACCENT_BASE, cyan: CYAN_BASE, pink: PINK_BASE }
}

fn near(a: Rgb, b: Rgb, by: i32) -> bool {
    (a.0 as i32 - b.0 as i32).abs() <= by
        && (a.1 as i32 - b.1 as i32).abs() <= by
        && (a.2 as i32 - b.2 as i32).abs() <= by
}

fn mixed(a: Rgb, b: Rgb, t: f64) -> Rgb {
    let f = |x: u8, y: u8| (x as f64 + (y as f64 - x as f64) * t).round() as u8;
    (f(a.0, b.0), f(a.1, b.1), f(a.2, b.2))
}

#[test]
fn blending_is_linear_and_rounded() {
    assert_eq!(blend((0, 0, 0), (255, 100, 7), share(0, 1)), (0, 0, 0));
    assert_eq!(blend((0, 0, 0), (255, 100, 7), share(1, 1)), (255, 100, 7));
    assert_eq!(blend((0, 10, 20), (100, 10, 0), share(1, 4)), (25, 10, 15));
    assert_eq!(blend((0, 0, 0), (200, 0, 0), share(9, 4)), (200, 0, 0));
    for k in 0..=16u64 {
        let got = blend((13, 200, 77), (240, 3, 78), share(k, 16));
        assert!(near(got, mixed((13, 200, 77), (240, 3, 78), k as f64 / 16.0), 0));
    }
}

#[test]
fn the_ramp_runs_from_cyan_over_violet_and_pink_to_white() {
    assert_eq!(jazz(house(), share(0, 1)), CYAN_BASE);
    assert_eq!(jazz(house(), share(2, 5)), ACCENT_BASE);
    assert_eq!(jazz(house(), share(3, 4)), PINK_BASE);
    assert_eq!(jazz(house(), share(1, 1)), WHITE);
    assert_eq!(jazz(house(), share(7, 1)), WHITE);
    assert_eq!(jazz(house(), share(1, 5)), mixed(CYAN_BASE, ACCENT_BASE, 0.5));
    assert_eq!(wipe(house(), share(0, 1)), CYAN_BASE);
    assert_eq!(wipe(house(), share(1, 2)), ACCENT_BASE);
    assert_eq!(wipe(house(), share(1, 1)), PINK_BASE);
    assert_eq!(wipe(house(), share(3, 4)), mixed(ACCENT_BASE, PINK_BASE, 0.5));
}

#[test]
fn every_hue_has_a_colour() {
    let p = house();
    for (h, want) in [
        (Hue::Bg, BG),
        (Hue::Text, TEXT),
        (Hue::Dim, DIM),
        (Hue::Faint, FAINT),
        (Hue::Accent, ACCENT_BASE),
        (Hue::Cyan, CYAN_BASE),
        (Hue::Pink, PINK_BASE),
        (Hue::Green, GREEN),
        (Hue::Yellow, YELLOW),
        (Hue::Red, RED),
        (Hue::BorderHot, PANEL_BORDER_HOT),
    ] {
        assert_eq!(hue(p, h), want);
        assert_eq!(ink_rgb(p, Ink::Flat(h)), Some(want));
    }
}

#[test]
fn inks_that_stand_still_have_a_colour() {
    let p = house();
    assert_eq!(ink_rgb(p, Ink::Raw), None);
    assert_eq!(ink_rgb(p, Ink::Caret), None);
    assert_eq!(ink_rgb(p, Ink::Mix(Hue::Bg, Hue::Text, share(1, 1))), Some(TEXT));
    assert_eq!(ink_rgb(p, Ink::Smooth(Hue::Bg, Hue::Text, share(1, 2))), Some(mixed(BG, TEXT, 0.5)));
    assert_eq!(ink_rgb(p, Ink::Smooth(Hue::Bg, Hue::Text, share(1, 4))), Some(mixed(BG, TEXT, 0.15625)));
    assert_eq!(ink_rgb(p, Ink::Jazz(share(1, 1))), Some(WHITE));
    assert_eq!(ink_rgb(p, Ink::Wiped(share(0, 1))), Some(CYAN_BASE));
}

#[test]
fn bars_are_drawn_in_eighths() {
    assert_eq!(bar(share(0, 1), 4), "░░░░");
    assert_eq!(bar(share(1, 1), 4), "████");
    assert_eq!(bar(share(1, 2), 4), "██░░");
    assert_eq!(bar(share(3, 8), 4), "█▌░░");
    assert_eq!(bar(share(1, 3), 0), "");
    assert_eq!(vblock(share(0, 1)), ' ');
    assert_eq!(vblock(share(1, 2)), '▄');
    assert_eq!(vblock(share(5, 1)), '█');
}

#[test]
fn packing_keeps_a_colour() {
    assert_eq!(pack((1, 2, 3)), 0x01_02_03);
    assert_eq!(unpack(0xAB_12_FF), (0xAB, 0x12, 0xFF));
    assert_eq!(unpack(pack(ACCENT_BASE)), ACCENT_BASE);
}

#[test]
fn the_theme_glides_to_its_target() {
    let mut t = DynamicTheme::new(0);
    assert_eq!(t.eased(0), [ACCENT_BASE, CYAN_BASE, PINK_BASE]);
    let target = [(10, 20, 30), (40, 50, 60), (70, 80, 90)];
    t.retarget("id".to_string(), target, 1_000_000_000);
    assert_eq!(t.eased(1_000_000_000), [ACCENT_BASE, CYAN_BASE, PINK_BASE]);
    assert_eq!(t.eased(1_000_000_000 + THEME_FADE), target);
    let half = t.eased(1_000_000_000 + THEME_FADE / 2);
    assert!(near(half[0], mixed(ACCENT_BASE, target[0], 0.875), 1));
    let mut live = LiveAccents::new();
    assert_eq!((live.accent(), live.cyan(), live.pink()), (ACCENT_BASE, CYAN_BASE, PINK_BASE));
    apply_dynamic(&mut live, &t, u64::MAX);
    assert_eq!([live.accent(), live.cyan(), live.pink()], target);
    assert_eq!(t.source_track_id, "id");
    // A new target starts from what is shown at that moment.
    let seen = t.eased(1_000_000_000 + THEME_FADE / 3);
    t.retarget("other".to_string(), [(0, 0, 0); 3], 1_000_000_000 + THEME_FADE / 3);
    assert_eq!(t.eased(1_000_000_000 + THEME_FADE / 3), seen);
}

fn hsl(c: Rgb) -> (f64, f64, f64) {
    let (r, g, b) = (c.0 as f64 / 255.0, c.1 as f64 / 255.0, c.2 as f64 / 255.0);
    let (max, min) = (r.max(g).max(b), r.min(g).min(b));
    let l = (max + min) * 0.5;
    let d = max - min;
    if d == 0.0 {
        return (0.0, 0.0, l);
    }
    let s = d / (1.0 - (2.0 * l - 1.0).abs());
    let h = if max == r {
        60.0 * (((g - b) / d) % 6.0)
    } else if max == g {
        60.0 * ((b - r) / d + 2.0)
    } else {
        60.0 * ((r - g) / d + 4.0)
    };
    ((h + 360.0) % 360.0, s, l)
}

fn rgb(h: f64, s: f64, l: f64) -> Rgb {
    let c = (1.0 - (2.0 * l - 1.0).abs()) * s;
    let x = c * (1.0 - (((h / 60.0) % 2.0) - 1.0).abs());
    let m = l - c * 0.5;
    let (r, g, b) = match (h / 60.0) as u32 {
        0 => (c, x, 0.0),
        1 => (x, c, 0.0),
        2 => (0.0, c, x),
        3 => (0.0, x, c),
        4 => (x, 0.0, c),
        _ => (c, 0.0, x),
    };
    let f = |v: f64| ((v + m) * 255.0).round().clamp(0.0, 255.0) as u8;
    (f(r), f(g), f(b))
}

fn branded(art: Rgb, base: Rgb, pull: f64, smin: f64, lmin: f64, lmax: f64) -> Rgb {
    let (ah, asat, al) = hsl(art);
    let (bh, _, _) = hsl(base);
    if asat < 0.12 {
        return base;
    }
    let delta = ((bh - ah + 540.0) % 360.0 - 180.0) * pull;
    let h = (ah + delta + 360.0) % 360.0;
    rgb(h, asat.max(smin).min(0.95), (al * 0.6 + 0.35).clamp(lmin, lmax))
}

#[test]
fn covers_are_pulled_towards_the_house_hues() {
    let violet = Brand { pull: 62, min_sat: 45, min_light: 550, max_light: 800 };
    for art in [(255, 0, 0), (0, 128, 128), (12, 200, 40), (250, 240, 10), (90, 60, 30), (1, 2, 250), (200, 30, 160)] {
        let want = branded(art, ACCENT_BASE, 0.62, 0.45, 0.55, 0.80);
        assert!(near(brandify(art, ACCENT_BASE, violet), want, 1), "{:?}", art);
    }
    assert_eq!(brandify((100, 100, 100), ACCENT_BASE, violet), ACCENT_BASE);
}

#[test]
fn a_cover_is_cut_into_its_colours() {
    let mut px: Vec<[u8; 3]> = Vec::new();
    for _ in 0..10 {
        px.push([200, 30, 30]);
        px.push([30, 30, 200]);
    }
    let got = dominant_colors(&px, 2);
    assert_eq!(got.len(), 2);
    assert!(got.contains(&(200, 30, 30)) && got.contains(&(30, 30, 200)));
    assert_eq!(dominant_colors(&[], 5), vec![]);
    // Near-black pixels count only when there is nothing else.
    assert_eq!(dominant_colors(&[[0, 0, 0], [200, 30, 30]], 1), vec![(200, 30, 30)]);
    assert_eq!(dominant_colors(&[[0, 0, 0]], 1), vec![(0, 0, 0)]);
    assert_eq!(channel_spread(&[(0, 0, 0), (10, 200, 30)]), 200);
    assert_eq!(widest_channel(&[(0, 0, 0), (10, 200, 30)]), 1);
    assert_eq!(widest_channel(&[(5, 5, 5)]), 0);
}

#[test]
fn without_a_cover_the_house_colours_stay() {
    assert_eq!(theme_from_art(&[]), (ACCENT_BASE, CYAN_BASE, PINK_BASE));
    let teal: Vec<[u8; 3]> = vec![[0, 128, 128]; 9];
    let (a, c, p) = theme_from_art(&teal);
    assert!(near(a, branded((0, 128, 128), ACCENT_BASE, 0.62, 0.45, 0.55, 0.80), 1));
    assert!(near(c, branded((0, 128, 128), CYAN_BASE, 0.45, 0.55, 0.55, 0.82), 1));
    assert!(near(p, branded((0, 128, 128), PINK_BASE, 0.40, 0.55, 0.60, 0.82), 1));
}

#[test]
fn sparklines_are_scaled_to_their_peak() {
    assert_eq!(spark(&[], 3), "   ");
    assert_eq!(spark(&[0, 4, 8], 5), "   ▄█");
    assert_eq!(spark(&[9, 9, 1, 2], 2), "▄█");
    assert_eq!(spark(&[0, 0], 2), "  ");
    assert_eq!(peak_of(&[3, 9, 1]), 9);
    assert_eq!(scale(1, 16, 8), 1);
    assert_eq!(block_char(8), '█');
    let data: Vec<u64> = (0..60).map(|i: u64| (i * 37) % 101).collect();
    let max = *data.iter().max().unwrap();
    let glyphs = [' ', '▁', '▂', '▃', '▄', '▅', '▆', '▇', '█'];
    let want: String =
        data.iter().map(|v| glyphs[((*v as f64 / max as f64) * 8.0).round() as usize]).collect();
    assert_eq!(spark(&data, 60), want);
}

#[test]
fn text_fades_into_the_background() {
    let seen = |num: u64| Share { num, den: 1000 };
    assert_eq!(faded(Some((255, 255, 255)), seen(1000)), Some((255, 255, 255)));
    assert_eq!(faded(None, seen(999)), None);
    assert_eq!(faded(None, seen(998)), Some((206, 212, 235)));
    assert_eq!(faded(Some((213, 214, 222)), seen(500)), Some((113, 114, 122)));
    assert_eq!(faded(None, seen(0)), Some(BG));
}

#[test]
fn dominant_colours_are_ordered_and_in_range() {
    let px: Vec<[u8; 3]> = (0u32..300).map(|i| [(i * 7 % 200) as u8 + 20, (i * 13 % 180) as u8 + 40, (i % 90) as u8 + 60]).collect();
    for want in 1usize..8 {
        let got = dominant_colors(&px, want);
        assert_eq!(got.len(), want);
        assert!(got.iter().all(|c| (20..=219).contains(&c.0) && (40..=219).contains(&c.1)));
    }
    assert_eq!(dominant_colors(&[[200, 30, 30], [30, 30, 200]], 5).len(), 2);
}
