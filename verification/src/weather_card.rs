//! The weather card.

use vstd::prelude::*;
use vstd::slice::slice_subrange;
use crate::digits;
use crate::lrc::Share;
use crate::panel;
use crate::panel::{Area, Bit, Body, Card, Hue, Ink, Inside, Piece, Sweep};
use crate::state::Weather;
use crate::text;
use crate::theme;

verus! {

// ---------------------------------------------------------------------------
// Day and night.
// ---------------------------------------------------------------------------

/// The minute of the day that a clock time names.
pub open spec fn minute_of(s: Seq<char>) -> Option<int> {
    match text::char_from(s, ':', 0) {
        None => None,
        Some(k) => match (
            digits::unsigned_upto(text::trimmed(s.take(k)), u32::MAX as int),
            digits::unsigned_upto(text::trimmed(s.skip(k + 1)), u32::MAX as int),
        ) {
            (Some(h), Some(m)) => Some(h * 60 + m),
            _ => None,
        },
    }
}

fn read_minute(s: &str) -> (r: Option<u64>)
    ensures
        match r {
            Some(n) => minute_of(s@) == Some(n as int),
            None => minute_of(s@) is None,
        },
{
    let chars = text::chars_of(s);
    let n: usize = chars.len();
    match text::find_char(chars.as_slice(), ':', 0) {
        None => None,
        Some(k) => {
            let left = slice_subrange(chars.as_slice(), 0, k);
            let right = slice_subrange(chars.as_slice(), k + 1, n);
            proof {
                assert(left@ =~= s@.take(k as int));
                assert(right@ =~= s@.skip(k + 1));
            }
            let h = digits::read_unsigned(text::trim(left), 0xffff_ffff);
            let m = digits::read_unsigned(text::trim(right), 0xffff_ffff);
            match (h, m) {
                (Some(h), Some(m)) => Some(h * 60 + m),
                _ => None,
            }
        },
    }
}

/// It is night at a minute of the day, as far as the sun's times are known.
pub open spec fn night(sunrise: Seq<char>, sunset: Seq<char>, minute: int) -> bool {
    match (minute_of(sunrise), minute_of(sunset)) {
        (Some(up), Some(down)) => minute < up || minute >= down,
        _ => false,
    }
}

/// The icon of the weather: a clear sky shows the moon at night.
pub open spec fn icon_now(w: Weather, minute: int) -> Seq<char> {
    if w.icon@ == "☀"@ && night(w.sunrise@, w.sunset@, minute) {
        "🌙"@
    } else {
        w.icon@
    }
}

/// The icon of the weather at a minute of the day.
pub fn night_icon(w: &Weather, minute: u32) -> (r: String)
    ensures
        r@ == icon_now(*w, minute as int),
{
    if !text::same_str(w.icon.as_str(), "☀") {
        return w.icon.clone();
    }
    match (read_minute(w.sunrise.as_str()), read_minute(w.sunset.as_str())) {
        (Some(up), Some(down)) => {
            if (minute as u64) < up || minute as u64 >= down {
                "🌙".to_string()
            } else {
                w.icon.clone()
            }
        },
        _ => w.icon.clone(),
    }
}

// ---------------------------------------------------------------------------
// The chart.
// ---------------------------------------------------------------------------

/// The numbers stretched over `width` columns.
pub open spec fn stretched(data: Seq<u64>, width: nat) -> Seq<u64> {
    Seq::new(width, |i: int| data[(i * data.len()) / width as int])
}

fn stretch(data: &Vec<u64>, width: usize) -> (r: Vec<u64>)
    requires
        data@.len() > 0,
        width <= u16::MAX,
    ensures
        r@ == stretched(data@, width as nat),
{
    let ghost want = stretched(data@, width as nat);
    let n: usize = data.len();
    let mut out: Vec<u64> = Vec::new();
    let mut i: usize = 0;
    while i < width
        invariant
            i <= width <= u16::MAX,
            n == data@.len(),
            0 < n,
            want == stretched(data@, width as nat),
            out@ == want.take(i as int),
        decreases width - i,
    {
        proof {
            assert(0 <= i * n <= 0xffff * 0xffff_ffff_ffff_ffff) by (nonlinear_arith)
                requires
                    0 <= i <= 0xffff,
                    0 <= n <= 0xffff_ffff_ffff_ffff,
            ;
            assert((i * n) / (width as int) < n) by (nonlinear_arith)
                requires
                    0 <= i < width,
                    0 < n,
            ;
        }
        let k: usize = ((i as u128 * n as u128) / width as u128) as usize;
        out.push(data[k]);
        proof {
            assert(out@ =~= want.take(i + 1));
        }
        i += 1;
    }
    proof {
        assert(want.take(i as int) =~= want);
    }
    out
}

/// A cell of the chart: how far a bar reaches into it, coloured by the bar's height.
pub open spec fn spark_cell(v: u64, max: int, rows: int, row: int) -> Bit {
    let level = theme::scaled(v as int, max, 8 * rows) - 8 * (rows - 1 - row);
    if level <= 0 {
        panel::raw(" "@)
    } else {
        panel::inked(
            seq![theme::block_glyph(level)],
            Ink::Jazz(Share { num: v, den: max as u64 }),
        )
    }
}

/// A chart of bars over `width` columns.
pub open spec fn bars_chart(data: Seq<u64>, width: nat, rows: nat) -> Seq<Seq<Bit>> {
    let cols = stretched(data, width);
    let max = theme::peak(cols);
    Seq::new(
        rows,
        |row: int| Seq::new(width, |i: int| spark_cell(cols[i], max, rows as int, row)),
    )
}

/// A chart of bars over `width` columns and `rows` rows, one at least, from the top. Without
/// data or columns the rows are blank.
pub open spec fn spark_chart(data: Seq<u64>, width: nat, rows: nat) -> Seq<Seq<Bit>> {
    let n: nat = if rows == 0 {
        1
    } else {
        rows
    };
    if data.len() == 0 || width == 0 {
        Seq::new(n, |row: int| seq![panel::raw(text::repeated(' ', width as int))])
    } else {
        bars_chart(data, width, n)
    }
}

fn spark_line(cols: &Vec<u64>, max: u64, rows: usize, row: usize) -> (r: Vec<Piece>)
    requires
        row < rows <= u16::MAX,
        1 <= max,
        forall|i: int| 0 <= i < cols@.len() ==> cols@[i] <= max,
    ensures
        panel::bits(r@) == Seq::new(
            cols@.len(),
            |i: int| spark_cell(cols@[i], max as int, rows as int, row as int),
        ),
{
    let ghost want = Seq::new(
        cols@.len(),
        |i: int| spark_cell(cols@[i], max as int, rows as int, row as int),
    );
    let mut line = panel::line();
    let mut i: usize = 0;
    let below: u64 = 8 * (rows - 1 - row) as u64;
    proof {
        assert(panel::bits(line@) =~= want.take(0));
    }
    while i < cols.len()
        invariant
            i <= cols@.len() == want.len(),
            row < rows <= u16::MAX,
            below == 8 * (rows - 1 - row),
            1 <= max,
            forall|i: int| 0 <= i < cols@.len() ==> cols@[i] <= max,
            forall|i: int|
                0 <= i < cols@.len() ==> #[trigger] want[i] == spark_cell(
                    cols@[i],
                    max as int,
                    rows as int,
                    row as int,
                ),
            panel::bits(line@) == want.take(i as int),
        decreases cols@.len() - i,
    {
        let filled: u64 = theme::scale(cols[i], max, 8 * rows as u64);
        if filled <= below {
            panel::push_raw(&mut line, " ");
        } else {
            let mut one = String::new();
            one.push(theme::block_char(filled - below));
            proof {
                assert(one@ =~= seq![theme::block_glyph(filled - below)]);
            }
            panel::push_ink(&mut line, one, Ink::Jazz(Share { num: cols[i], den: max }));
        }
        proof {
            assert(want.take(i + 1) =~= want.take(i as int).push(want[i as int]));
        }
        i += 1;
    }
    proof {
        assert(want.take(i as int) =~= want);
    }
    line
}

fn blank_rows(width: u16, rows: u16) -> (r: Vec<Vec<Piece>>)
    ensures
        panel::rows(r@) == Seq::new(
            rows as nat,
            |row: int| seq![panel::raw(text::repeated(' ', width as int))],
        ),
{
    let ghost want = Seq::new(
        rows as nat,
        |row: int| seq![panel::raw(text::repeated(' ', width as int))],
    );
    let mut out: Vec<Vec<Piece>> = Vec::new();
    let mut row: u16 = 0;
    proof {
        assert(panel::rows(out@) =~= want.take(0));
    }
    while row < rows
        invariant
            row <= rows == want.len(),
            forall|i: int|
                0 <= i < rows ==> #[trigger] want[i] == seq![
                    panel::raw(text::repeated(' ', width as int)),
                ],
            panel::rows(out@) == want.take(row as int),
        decreases rows - row,
    {
        let mut line = panel::line();
        panel::push_raw(&mut line, text::repeat(' ', width as usize).as_str());
        proof {
            assert(panel::bits(line@) =~= want[row as int]);
            assert(want.take(row + 1) =~= want.take(row as int).push(want[row as int]));
        }
        panel::push_row(&mut out, line);
        row += 1;
    }
    proof {
        assert(want.take(row as int) =~= want);
    }
    out
}

/// A chart of bars: the tallest bar reaches the top, and each is coloured by its own
/// height.
pub fn jazz_spark_rows(data: &Vec<u64>, width: u16, rows: u16) -> (r: Vec<Vec<Piece>>)
    ensures
        panel::rows(r@) == spark_chart(data@, width as nat, rows as nat),
{
    let rows: u16 = if rows == 0 {
        1
    } else {
        rows
    };
    if data.len() == 0 || width == 0 {
        return blank_rows(width, rows);
    }
    let cols = stretch(data, width as usize);
    let max: u64 = theme::peak_of(cols.as_slice());
    let ghost want = bars_chart(data@, width as nat, rows as nat);
    let mut out: Vec<Vec<Piece>> = Vec::new();
    let mut row: u16 = 0;
    proof {
        assert(panel::rows(out@) =~= want.take(0));
    }
    while row < rows
        invariant
            row <= rows == want.len(),
            1 <= max,
            max == theme::peak(cols@),
            cols@ == stretched(data@, width as nat),
            forall|i: int| 0 <= i < cols@.len() ==> cols@[i] <= max,
            want == bars_chart(data@, width as nat, rows as nat),
            panel::rows(out@) == want.take(row as int),
        decreases rows - row,
    {
        let l = spark_line(&cols, max, rows as usize, row as usize);
        proof {
            assert(panel::bits(l@) =~= want[row as int]);
            assert(want.take(row + 1) =~= want.take(row as int).push(want[row as int]));
        }
        panel::push_row(&mut out, l);
        row += 1;
    }
    proof {
        assert(want.take(row as int) =~= want);
    }
    out
}

// ---------------------------------------------------------------------------
// The card.
// ---------------------------------------------------------------------------

/// A number kept within a scale, as a share of it.
pub open spec fn on_scale(n: int, top: int) -> Share {
    Share {
        num: (if n < 0 {
            0
        } else if n > top {
            top
        } else {
            n
        }) as u64,
        den: top as u64,
    }
}

fn scale_share(n: i32, top: u32) -> (r: Share)
    ensures
        r == on_scale(n as int, top as int),
{
    if n < 0 {
        Share { num: 0, den: top as u64 }
    } else if n as u32 > top {
        Share { num: top as u64, den: top as u64 }
    } else {
        Share { num: n as u64, den: top as u64 }
    }
}

/// A number between two texts.
pub open spec fn amid(a: Seq<char>, n: int, b: Seq<char>) -> Seq<char> {
    a + digits::dec_int(n) + b
}

fn amid_text(a: &str, n: i32, b: &str) -> (r: String)
    ensures
        r@ == amid(a@, n as int, b@),
{
    text::concat3(a, digits::int_string(n as i64).as_str(), b)
}

/// Sunrise and sunset.
pub open spec fn sun_text(w: Weather) -> Seq<char> {
    "☀ "@ + w.sunrise@ + "  ☾ "@ + w.sunset@
}

/// The first row: the readout on the left, the sun's times on the right, a space
/// between them at least.
pub open spec fn readout(w: Weather, icon: Seq<char>, iw: int) -> Seq<Bit> {
    let a = icon + " "@;
    let b = amid(""@, w.temp_f as int, "°F"@);
    let c = "  "@ + w.desc@;
    let d = amid("  feels "@, w.feels_f as int, "°"@);
    let used = a.len() + b.len() + c.len() + d.len() + sun_text(w).len();
    seq![
        panel::flat(a, Hue::Yellow),
        panel::bold(b, Hue::Cyan),
        panel::flat(c, Hue::Text),
        panel::flat(d, Hue::Dim),
        panel::raw(
            text::repeated(
                ' ',
                if panel::minus(iw, used as int) > 1 {
                    panel::minus(iw, used as int)
                } else {
                    1
                },
            ),
        ),
        panel::inked(sun_text(w), Ink::Jazz(Share { num: 85, den: 100 })),
    ]
}

/// The second row: high and low, humidity, ultraviolet light.
pub open spec fn detail(w: Weather) -> Seq<Bit> {
    seq![
        panel::flat(amid("↑"@, w.hi_f as int, "°"@), Hue::Pink),
        panel::flat(" "@, Hue::Faint),
        panel::flat(amid("↓"@, w.lo_f as int, "°"@), Hue::Cyan),
        panel::flat(amid("   hum "@, w.humidity as int, "%"@), Hue::Faint),
        panel::flat("   UV "@, Hue::Dim),
        panel::inked(amid(""@, w.uv as int, ""@), Ink::Jazz(on_scale(w.uv as int, 11))),
    ]
}

/// The third row: wind, chance of rain, pressure.
pub open spec fn atmosphere(w: Weather) -> Seq<Bit> {
    seq![
        panel::flat(amid("💨 "@ + w.wind_dir@ + " "@, w.wind_mph as int, " mph"@), Hue::Cyan),
        panel::flat("   ☔ rain "@, Hue::Dim),
        panel::inked(
            amid(""@, w.precip_chance as int, "%"@),
            Ink::Jazz(on_scale(w.precip_chance as int, 100)),
        ),
        panel::flat(amid("   "@, w.pressure_mb as int, " mb"@), Hue::Dim),
    ]
}

/// The chart below: what the rows above leave, with a blank row between where there is
/// room for one.
pub open spec fn chart_part(w: Weather, iw: nat, h: int) -> Seq<Seq<Bit>> {
    let spacer: int = if h > 4 {
        1
    } else {
        0
    };
    let rows = panel::minus(h, 3 + spacer);
    if rows >= 1 && w.temp_strip@.len() > 0 {
        (if h > 4 {
            seq![seq![]]
        } else {
            seq![]
        }) + spark_chart(w.temp_strip@, iw, rows as nat)
    } else {
        seq![]
    }
}

/// The inside of the weather card.
pub open spec fn weather_inside(a: Area, w: Weather, minute: int) -> Inside {
    if !w.fresh {
        Inside::Lines(seq![seq![panel::flat("fetching…"@, Hue::Dim)]])
    } else if a.height < 2 || a.width < 8 {
        Inside::Blank
    } else {
        Inside::Lines(
            seq![readout(w, icon_now(w, minute), a.width as int), detail(w), atmosphere(w)]
                + chart_part(w, a.width as nat, a.height as int),
        )
    }
}

fn len_of(s: &str) -> (r: u128)
    ensures
        r == s@.len(),
        r <= u64::MAX,
{
    text::chars_of(s).len() as u128
}

fn readout_line(w: &Weather, icon: &str, iw: u16) -> (r: Vec<Piece>)
    ensures
        panel::bits(r@) == readout(*w, icon@, iw as int),
{
    let a = text::concat2(icon, " ");
    let b = amid_text("", w.temp_f, "°F");
    let c = text::concat2("  ", w.desc.as_str());
    let d = amid_text("  feels ", w.feels_f, "°");
    let mut sun = text::concat3("☀ ", w.sunrise.as_str(), "  ☾ ");
    sun.append(w.sunset.as_str());
    let used: u128 = len_of(a.as_str()) + len_of(b.as_str()) + len_of(c.as_str()) + len_of(
        d.as_str(),
    ) + len_of(sun.as_str());
    let gap: usize = if iw as u128 > used && iw as u128 - used > 1 {
        (iw as u128 - used) as usize
    } else {
        1
    };
    let mut line = panel::line();
    panel::push_flat(&mut line, a.as_str(), Hue::Yellow);
    panel::push_bold(&mut line, b.as_str(), Hue::Cyan);
    panel::push_flat(&mut line, c.as_str(), Hue::Text);
    panel::push_flat(&mut line, d.as_str(), Hue::Dim);
    panel::push_raw(&mut line, text::repeat(' ', gap).as_str());
    panel::push_ink(&mut line, sun, Ink::Jazz(Share { num: 85, den: 100 }));
    proof {
        assert(panel::bits(line@) =~= readout(*w, icon@, iw as int));
    }
    line
}

fn detail_line(w: &Weather) -> (r: Vec<Piece>)
    ensures
        panel::bits(r@) == detail(*w),
{
    let mut line = panel::line();
    panel::push_flat(&mut line, amid_text("↑", w.hi_f, "°").as_str(), Hue::Pink);
    panel::push_flat(&mut line, " ", Hue::Faint);
    panel::push_flat(&mut line, amid_text("↓", w.lo_f, "°").as_str(), Hue::Cyan);
    panel::push_flat(&mut line, amid_text("   hum ", w.humidity, "%").as_str(), Hue::Faint);
    panel::push_flat(&mut line, "   UV ", Hue::Dim);
    panel::push_ink(&mut line, amid_text("", w.uv, ""), Ink::Jazz(scale_share(w.uv, 11)));
    proof {
        assert(panel::bits(line@) =~= detail(*w));
    }
    line
}

fn atmosphere_line(w: &Weather) -> (r: Vec<Piece>)
    ensures
        panel::bits(r@) == atmosphere(*w),
{
    let wind = text::concat3("💨 ", w.wind_dir.as_str(), " ");
    let mut line = panel::line();
    panel::push_flat(
        &mut line,
        amid_text(wind.as_str(), w.wind_mph, " mph").as_str(),
        Hue::Cyan,
    );
    panel::push_flat(&mut line, "   ☔ rain ", Hue::Dim);
    panel::push_ink(
        &mut line,
        amid_text("", w.precip_chance, "%"),
        Ink::Jazz(scale_share(w.precip_chance, 100)),
    );
    panel::push_flat(&mut line, amid_text("   ", w.pressure_mb, " mb").as_str(), Hue::Dim);
    proof {
        assert(panel::bits(line@) =~= atmosphere(*w));
    }
    line
}

fn weather_body(a: Area, w: &Weather, minute: u32) -> (r: Body)
    ensures
        panel::body_view(r) == weather_inside(a, *w, minute as int),
{
    if !w.fresh {
        return panel::note_body("fetching…", Hue::Dim);
    }
    if a.height < 2 || a.width < 8 {
        return Body::Blank;
    }
    let icon = night_icon(w, minute);
    let mut lines: Vec<Vec<Piece>> = Vec::new();
    panel::push_row(&mut lines, readout_line(w, icon.as_str(), a.width));
    panel::push_row(&mut lines, detail_line(w));
    panel::push_row(&mut lines, atmosphere_line(w));
    let ghost top = panel::rows(lines@);
    proof {
        assert(top =~= seq![
            readout(*w, icon@, a.width as int),
            detail(*w),
            atmosphere(*w),
        ]);
    }
    let spacer: u16 = if a.height > 4 {
        1
    } else {
        0
    };
    let rows: u16 = if a.height > 3 + spacer {
        a.height - 3 - spacer
    } else {
        0
    };
    if rows >= 1 && w.temp_strip.len() > 0 {
        if spacer == 1 {
            panel::push_row(&mut lines, panel::line());
        }
        panel::push_rows(&mut lines, jazz_spark_rows(&w.temp_strip, a.width, rows));
    }
    proof {
        assert(panel::rows(lines@) =~= top + chart_part(*w, a.width as nat, a.height as int));
    }
    Body::Lines(lines)
}

/// The weather card. `area` is the whole card and `minute` the minute of the day.
pub fn weather_card(area: Area, w: &Weather, minute: u32) -> (r: Card)
    ensures
        panel::bits(r.title@) == panel::plain_title("WEATHER"@),
        r.flash is None,
        r.sweep == Sweep::Still,
        panel::body_view(r.body) == weather_inside(panel::inside(area), *w, minute as int),
{
    Card {
        title: panel::title("WEATHER"),
        flash: None,
        sweep: Sweep::Still,
        body: weather_body(panel::inner(area), w, minute),
    }
}

/// The moon shows only for a clear sky: any other weather keeps its icon day and night.
pub proof fn only_the_sun_sets(w: Weather, minute: int)
    requires
        w.icon@ != "☀"@,
    ensures
        icon_now(w, minute) == w.icon@,
{
}

/// The card's lines fill it and no more, once there is a forecast.
pub proof fn weather_fills_the_card(a: Area, w: Weather, minute: int)
    requires
        w.fresh,
        a.height >= 4,
        a.width >= 8,
        w.temp_strip@.len() > 0,
    ensures
        weather_inside(a, w, minute) matches Inside::Lines(l) && l.len() == a.height,
{
}

/// A clock time is its hours times sixty and its minutes; what has no colon names none.
pub proof fn clock_times_are_minutes(h: nat, m: nat, s: Seq<char>)
    requires
        h <= u32::MAX,
        m <= u32::MAX,
    ensures
        minute_of(digits::dec(h) + seq![':'] + digits::dec(m)) == Some(60int * h + m),
        !s.contains(':') ==> minute_of(s) is None,
{
    digits::dec_value(h);
    digits::dec_value(m);
    assert(!digits::dec(h).contains(':'));
    text::trimmed_fixed(digits::dec(h));
    text::trimmed_fixed(digits::dec(m));
    text::texts_part_at_the_first(digits::dec(h), ':', digits::dec(m));
    crate::lrc_laws::whole_numbers_are_read_exactly(h, u32::MAX as int, seq![], 0);
    crate::lrc_laws::whole_numbers_are_read_exactly(m, u32::MAX as int, seq![], 0);
    text::char_from_is_least(s, ':', 0);
    if text::char_from(s, ':', 0) is Some {
        assert(s.contains(':'));
    }
}

/// A clear sky shows the sun from sunrise up to sunset and the moon before and after; it keeps
/// the sun where one of the two is not known.
pub proof fn the_moon_shines_at_night(w: Weather, up: int, down: int, minute: int)
    requires
        w.icon@ == "☀"@,
    ensures
        minute_of(w.sunrise@) == Some(up) && minute_of(w.sunset@) == Some(down) ==> (icon_now(
            w,
            minute,
        ) == "☀"@) == (up <= minute < down),
        minute_of(w.sunrise@) == Some(up) && minute_of(w.sunset@) == Some(down) && !(up <= minute
            < down) ==> icon_now(w, minute) == "🌙"@,
        minute_of(w.sunrise@) is None || minute_of(w.sunset@) is None ==> icon_now(w, minute)
            == "☀"@,
{
    reveal_strlit("☀");
    reveal_strlit("🌙");
    assert("☀"@[0] != "🌙"@[0]);
}

/// Each number takes the same part of the chart: column `i` shows the number whose part it
/// stands in.
pub proof fn numbers_share_the_columns(data: Seq<u64>, width: nat, i: int, k: int)
    requires
        0 <= i < width,
        0 <= k < data.len(),
        k * width <= i * data.len() < (k + 1) * width,
    ensures
        stretched(data, width).len() == width,
        stretched(data, width)[i] == data[k],
{
    let a = i * data.len();
    let w = width as int;
    assert(a / w == k) by {
        assert(a == k * w + (a - k * w));
        assert((k + 1) * w == k * w + w) by (nonlinear_arith);
        vstd::arithmetic::div_mod::lemma_fundamental_div_mod_converse(a, w, k, a - k * w);
    }
}

/// A bar of the chart fills the eighths of its column that are closest to its share of the
/// tallest: full cells below, empty ones above, and its ink tells its height.
pub proof fn bars_rise_in_proportion(v: u64, max: u64, rows: int, row: int, n: int)
    requires
        0 <= row < rows,
        v <= max,
        0 < max,
        -(max as int) < 2 * (n * max - v * (8 * rows)) < max,
    ensures
        n >= 8 * (rows - row) ==> spark_cell(v, max as int, rows, row).text == seq!['█'],
        n <= 8 * (rows - row) - 8 ==> spark_cell(v, max as int, rows, row).text == " "@,
        n == 8 * (rows - row) - 4 ==> spark_cell(v, max as int, rows, row).text == seq!['▄'],
        n > 8 * (rows - row) - 8 ==> spark_cell(v, max as int, rows, row).ink == Ink::Jazz(
            Share { num: v, den: max },
        ),
{
    let m = max as int;
    let a = v * (8 * rows);
    let s = theme::scaled(v as int, m, 8 * rows);
    vstd::arithmetic::div_mod::lemma_fundamental_div_mod(2 * v * (8 * rows) + m, 2 * m);
    assert(2 * v * (8 * rows) == 2 * a) by (nonlinear_arith)
        requires
            a == v * (8 * rows),
    ;
    let r = (2 * a + m) % (2 * m);
    assert(s == n) by (nonlinear_arith)
        requires
            2 * a + m == (2 * m) * s + r,
            0 <= r < 2 * m,
            -m < 2 * (n * m - a) < m,
            m > 0,
    ;
}

/// The readings are told with their units, each where it belongs.
pub proof fn readings_have_their_places(w: Weather, icon: Seq<char>, iw: int)
    ensures
        readout(w, icon, iw).len() == 6,
        readout(w, icon, iw)[0].text == icon + " "@,
        readout(w, icon, iw)[1].text == ""@ + digits::dec_int(w.temp_f as int) + "°F"@,
        readout(w, icon, iw)[2].text == "  "@ + w.desc@,
        readout(w, icon, iw)[3].text == "  feels "@ + digits::dec_int(w.feels_f as int) + "°"@,
        readout(w, icon, iw)[5].text == "☀ "@ + w.sunrise@ + "  ☾ "@ + w.sunset@,
        detail(w).len() == 6,
        detail(w)[0].text == "↑"@ + digits::dec_int(w.hi_f as int) + "°"@,
        detail(w)[2].text == "↓"@ + digits::dec_int(w.lo_f as int) + "°"@,
        detail(w)[3].text == "   hum "@ + digits::dec_int(w.humidity as int) + "%"@,
        detail(w)[5].text == ""@ + digits::dec_int(w.uv as int) + ""@,
        atmosphere(w).len() == 4,
        atmosphere(w)[0].text == "💨 "@ + w.wind_dir@ + " "@ + digits::dec_int(w.wind_mph as int)
            + " mph"@,
        atmosphere(w)[2].text == ""@ + digits::dec_int(w.precip_chance as int) + "%"@,
        atmosphere(w)[3].text == "   "@ + digits::dec_int(w.pressure_mb as int) + " mb"@,
{
}

/// The sun's times stand at the right edge: the pieces of the first row fill the card where they
/// fit.
pub proof fn sun_times_stand_at_the_edge(w: Weather, icon: Seq<char>, iw: int)
    requires
        readout(w, icon, iw)[0].text.len() + readout(w, icon, iw)[1].text.len() + readout(
            w,
            icon,
            iw,
        )[2].text.len() + readout(w, icon, iw)[3].text.len() + readout(w, icon, iw)[5].text.len()
            < iw,
    ensures
        readout(w, icon, iw)[0].text.len() + readout(w, icon, iw)[1].text.len() + readout(
            w,
            icon,
            iw,
        )[2].text.len() + readout(w, icon, iw)[3].text.len() + readout(w, icon, iw)[4].text.len()
            + readout(w, icon, iw)[5].text.len() == iw,
{
}

/// Ultraviolet light is drawn on a scale of eleven and the chance of rain on one of a hundred;
/// what goes beyond stays at the end.
pub proof fn readings_stay_on_their_scale(w: Weather)
    ensures
        0 <= w.uv <= 11 ==> detail(w)[5].ink == Ink::Jazz(Share { num: w.uv as u64, den: 11 }),
        w.uv > 11 ==> detail(w)[5].ink == Ink::Jazz(Share { num: 11, den: 11 }),
        w.uv < 0 ==> detail(w)[5].ink == Ink::Jazz(Share { num: 0, den: 11 }),
        0 <= w.precip_chance <= 100 ==> atmosphere(w)[2].ink == Ink::Jazz(
            Share { num: w.precip_chance as u64, den: 100 },
        ),
        w.precip_chance > 100 ==> atmosphere(w)[2].ink == Ink::Jazz(Share { num: 100, den: 100 }),
{
}

/// Below three rows of readings stands the chart, with a blank row before it where there are more
/// than four rows.
pub proof fn charts_stand_below_the_readings(w: Weather, iw: nat, h: int)
    requires
        w.temp_strip@.len() > 0,
        iw > 0,
    ensures
        h == 4 ==> chart_part(w, iw, h) == spark_chart(w.temp_strip@, iw, 1),
        h > 4 ==> chart_part(w, iw, h).len() == h - 3 && chart_part(w, iw, h)[0].len() == 0
            && chart_part(w, iw, h).skip(1) == spark_chart(w.temp_strip@, iw, (h - 4) as nat),
        h <= 3 ==> chart_part(w, iw, h).len() == 0,
{
    if h > 4 {
        let c = spark_chart(w.temp_strip@, iw, (h - 4) as nat);
        let gap: Seq<Seq<Bit>> = seq![seq![]];
        assert(chart_part(w, iw, h) == gap + c);
        assert((gap + c).skip(1) =~= c);
    } else if h == 4 {
        let c = spark_chart(w.temp_strip@, iw, 1);
        assert(Seq::<Seq<Bit>>::empty() + c =~= c);
    }
}

/// A cell of the chart belongs to its column: it is drawn by the number there and the largest of
/// all columns.
pub proof fn chart_cells_show_their_column(data: Seq<u64>, width: nat, rows: nat, row: int, i: int)
    requires
        data.len() > 0,
        0 <= i < width,
        0 <= row < rows,
    ensures
        spark_chart(data, width, rows).len() == rows,
        spark_chart(data, width, rows)[row].len() == width,
        spark_chart(data, width, rows)[row][i] == spark_cell(
            stretched(data, width)[i],
            theme::peak(stretched(data, width)),
            rows as int,
            row,
        ),
{
}

} // verus!
