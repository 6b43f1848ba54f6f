//! Reading a weather report.

use vstd::prelude::*;
use vstd::slice::slice_subrange;
use crate::digits;
use crate::json;
use crate::json::Json;
use crate::state::Weather;
use crate::text;

verus! {

/// How many forecast temperatures are kept.
pub const STRIP: usize = 12;

// ---------------------------------------------------------------------------
// Icons and clock times.
// ---------------------------------------------------------------------------

/// The icon of a description in lower case.
pub open spec fn icon_for(d: Seq<char>) -> Seq<char> {
    if text::holds(d, "thunder"@) {
        "⛈"@
    } else if text::holds(d, "snow"@) || text::holds(d, "blizzard"@) || text::holds(d, "sleet"@) {
        "❄"@
    } else if text::holds(d, "rain"@) || text::holds(d, "drizzle"@) || text::holds(d, "shower"@) {
        "🌧"@
    } else if text::holds(d, "fog"@) || text::holds(d, "mist"@) {
        "🌫"@
    } else if text::holds(d, "overcast"@) {
        "☁"@
    } else if text::holds(d, "cloud"@) || text::holds(d, "partly"@) {
        "⛅"@
    } else if text::holds(d, "sun"@) || text::holds(d, "clear"@) {
        "☀"@
    } else {
        "🌡"@
    }
}

/// The icon of a description in lower case.
pub fn icon_of(d: &str) -> (r: &'static str)
    ensures
        r@ == icon_for(d@),
{
    if text::contains(d, "thunder") {
        "⛈"
    } else if text::contains(d, "snow") || text::contains(d, "blizzard") || text::contains(
        d,
        "sleet",
    ) {
        "❄"
    } else if text::contains(d, "rain") || text::contains(d, "drizzle") || text::contains(
        d,
        "shower",
    ) {
        "🌧"
    } else if text::contains(d, "fog") || text::contains(d, "mist") {
        "🌫"
    } else if text::contains(d, "overcast") {
        "☁"
    } else if text::contains(d, "cloud") || text::contains(d, "partly") {
        "⛅"
    } else if text::contains(d, "sun") || text::contains(d, "clear") {
        "☀"
    } else {
        "🌡"
    }
}

/// The icon of a description.
pub fn weather_icon(desc: &str) -> (r: String)
    ensures
        r@ == icon_for(text::lowercase(desc@)),
{
    icon_of(text::lower(desc).as_str()).to_string()
}

/// The hour of the day of an hour and its half of the day.
pub open spec fn hour24(h: int, half: Seq<char>) -> int {
    if half == "PM"@ && h != 12 {
        h + 12
    } else if half == "AM"@ && h == 12 {
        0
    } else {
        h
    }
}

/// A number with at least two characters.
pub open spec fn two_wide(n: int) -> Seq<char> {
    if 0 <= n < 10 {
        "0"@ + digits::dec_int(n)
    } else {
        digits::dec_int(n)
    }
}

/// The hour that stands before a colon, zero where none does.
pub open spec fn hour_in(s: Seq<char>) -> int {
    match digits::signed_upto(s, i32::MAX as int) {
        Some(h) => h,
        None => 0,
    }
}

/// A time of half a day as a time of the whole day, `half` being in upper case; what has
/// no colon stays as it was.
pub open spec fn clock24(time: Seq<char>, half: Seq<char>, whole: Seq<char>) -> Seq<char> {
    match text::char_from(time, ':', 0) {
        None => whole,
        Some(k) => two_wide(hour24(hour_in(time.take(k)), half)) + ":"@ + time.skip(k + 1),
    }
}

/// A time of half a day as a time of the whole day.
pub fn to_24(time: &str, half: &str, whole: &str) -> (r: String)
    ensures
        r@ == clock24(time@, half@, whole@),
{
    let chars = text::chars_of(time);
    let n: usize = chars.len();
    match text::find_char(chars.as_slice(), ':', 0) {
        None => whole.to_string(),
        Some(k) => {
            let left = slice_subrange(chars.as_slice(), 0, k);
            let right = slice_subrange(chars.as_slice(), k + 1, n);
            proof {
                assert(left@ =~= time@.take(k as int));
                assert(right@ =~= time@.skip(k + 1));
            }
            let h: i64 = match digits::read_signed(left, 0x7fff_ffff) {
                Some(v) => v,
                None => 0,
            };
            let h24: i64 = if text::same_str(half, "PM") && h != 12 {
                h + 12
            } else if text::same_str(half, "AM") && h == 12 {
                0
            } else {
                h
            };
            let mut out = String::new();
            if 0 <= h24 && h24 < 10 {
                out.append("0");
            }
            digits::push_int(&mut out, h24);
            out.append(":");
            text::push_chars(&mut out, right);
            proof {
                assert(out@ =~= clock24(time@, half@, whole@));
            }
            out
        },
    }
}

/// A clock time such as "06:21 AM" as "06:21" of the whole day; what has another form
/// stays as it was.
pub open spec fn normal_clock(s: Seq<char>) -> Seq<char> {
    let t = text::trimmed(s);
    match text::last_position(t, " "@) {
        None => t,
        Some(k) => clock24(t.take(k), text::uppercase(t.skip(k + 1)), t),
    }
}

/// Turns a clock time of half a day into one of the whole day.
pub fn fmt_clock12_to_24(s: &str) -> (r: String)
    ensures
        r@ == normal_clock(s@),
{
    let chars = text::chars_of(s);
    let t = text::trim(chars.as_slice());
    let n: usize = t.len();
    let gap = text::chars_of(" ");
    let whole = text::string_of(t);
    match text::rfind(t, gap.as_slice()) {
        None => whole,
        Some(k) => {
            proof {
                reveal_strlit(" ");
                text::last_position_stands(t@, " "@);
            }
            let time = slice_subrange(t, 0, k);
            let half = slice_subrange(t, k + 1, n);
            proof {
                assert(time@ =~= t@.take(k as int));
                assert(half@ =~= t@.skip(k + 1));
            }
            let upper = text::upper(text::string_of(half).as_str());
            to_24(text::string_of(time).as_str(), upper.as_str(), whole.as_str())
        },
    }
}

/// Midnight and noon: twelve in the morning is hour zero, twelve in the afternoon stays;
/// any other afternoon hour moves by twelve, and a morning hour stays.
pub proof fn half_days_cover_the_day(h: int)
    requires
        1 <= h <= 12,
    ensures
        0 <= hour24(h, "AM"@) < 12,
        12 <= hour24(h, "PM"@) < 24,
        hour24(h, "AM"@) % 12 == h % 12,
        hour24(h, "PM"@) % 12 == h % 12,
{
    reveal_strlit("AM");
    reveal_strlit("PM");
    assert("AM"@[0] != "PM"@[0]);
}

// ---------------------------------------------------------------------------
// The report.
// ---------------------------------------------------------------------------

/// The first element of a list in a field.
pub open spec fn first_at(j: Json, key: Seq<char>) -> Option<Json> {
    match j.items_at(key) {
        Some(l) => if l.len() > 0 {
            Some(l[0])
        } else {
            None
        },
        None => None,
    }
}

/// The first element of a list in a field.
pub fn first_of<'a>(j: &'a Json, key: &str) -> (r: Option<&'a Json>)
    ensures
        match r {
            Some(x) => first_at(*j, key@) == Some(*x),
            None => first_at(*j, key@) is None,
        },
{
    match j.list_at(key) {
        Some(l) => if l.len() > 0 {
            Some(&l[0])
        } else {
            None
        },
        None => None,
    }
}

/// The number that a field holds as text.
pub open spec fn number_at(j: Json, key: Seq<char>, max: int) -> Option<int> {
    match j.text_at(key) {
        Some(s) => digits::signed_upto(s, max),
        None => None,
    }
}

fn read_number(j: &Json, key: &str, max: i64) -> (r: Option<i64>)
    requires
        0 <= max,
    ensures
        match r {
            Some(n) => number_at(*j, key@, max as int) == Some(n as int) && -max - 1 <= n <= max,
            None => number_at(*j, key@, max as int) is None,
        },
{
    match j.str_at(key) {
        Some(s) => {
            let c = text::chars_of(s);
            digits::read_signed(c.as_slice(), max)
        },
        None => None,
    }
}

/// The number of a field, zero where it holds none.
pub open spec fn int_at(j: Json, key: Seq<char>) -> int {
    match number_at(j, key, i32::MAX as int) {
        Some(n) => n,
        None => 0,
    }
}

fn read_int(j: &Json, key: &str) -> (r: i32)
    ensures
        r == int_at(*j, key@),
{
    match read_number(j, key, 0x7fff_ffff) {
        Some(n) => n as i32,
        None => 0,
    }
}

/// The text of a field, empty where it holds none.
pub open spec fn words_at(j: Json, key: Seq<char>) -> Seq<char> {
    match j.text_at(key) {
        Some(s) => s,
        None => seq![],
    }
}

fn read_words(j: &Json, key: &str) -> (r: String)
    ensures
        r@ == words_at(*j, key@),
{
    match j.str_at(key) {
        Some(s) => s.to_string(),
        None => String::new(),
    }
}

/// The description of the current weather.
pub open spec fn description(cur: Json) -> Seq<char> {
    match first_at(cur, "weatherDesc"@) {
        Some(d) => words_at(d, "value"@),
        None => seq![],
    }
}

/// The highest chance of rain in the first `n` hours; none where no hour tells.
pub open spec fn top_chance(hours: Seq<Json>, n: nat) -> Option<int>
    decreases n,
{
    if n == 0 {
        None
    } else {
        match (
            top_chance(hours, (n - 1) as nat),
            number_at(hours[n - 1], "chanceofrain"@, i32::MAX as int),
        ) {
            (Some(a), Some(b)) => Some(
                if b >= a {
                    b
                } else {
                    a
                },
            ),
            (None, b) => b,
            (a, None) => a,
        }
    }
}

/// The chance of rain of a day: its highest, zero where no hour tells.
pub open spec fn rain_chance(day: Json) -> int {
    match day.items_at("hourly"@) {
        Some(h) => match top_chance(h, h.len()) {
            Some(n) => n,
            None => 0,
        },
        None => 0,
    }
}

fn read_rain(day: &Json) -> (r: i32)
    ensures
        r == rain_chance(*day),
{
    match day.list_at("hourly") {
        None => 0,
        Some(h) => {
            let mut best: Option<i64> = None;
            let mut i: usize = 0;
            while i < h.len()
                invariant
                    i <= h@.len(),
                    match best {
                        Some(b) => top_chance(h@, i as nat) == Some(b as int) && i32::MIN <= b
                            <= i32::MAX,
                        None => top_chance(h@, i as nat) is None,
                    },
                decreases h@.len() - i,
            {
                match read_number(&h[i], "chanceofrain", 0x7fff_ffff) {
                    Some(n) => {
                        best = match best {
                            Some(b) => Some(
                                if n >= b {
                                    n
                                } else {
                                    b
                                },
                            ),
                            None => Some(n),
                        };
                    },
                    None => {},
                }
                i += 1;
            }
            match best {
                Some(b) => b as i32,
                None => 0,
            }
        },
    }
}

/// The temperatures of the first `n` hours, those below zero as zero.
pub open spec fn temps(hours: Seq<Json>, n: nat) -> Seq<u64>
    decreases n,
{
    if n == 0 {
        seq![]
    } else {
        let before = temps(hours, (n - 1) as nat);
        match number_at(hours[n - 1], "tempF"@, i64::MAX as int) {
            Some(t) => before.push(
                if t > 0 {
                    t as u64
                } else {
                    0
                },
            ),
            None => before,
        }
    }
}

/// The temperatures of a day.
pub open spec fn day_temps(day: Json) -> Seq<u64> {
    match day.items_at("hourly"@) {
        Some(h) => temps(h, h.len()),
        None => seq![],
    }
}

/// The next temperatures, from today and tomorrow.
pub open spec fn strip(days: Seq<Json>) -> Seq<u64> {
    let all = if days.len() == 0 {
        seq![]
    } else if days.len() == 1 {
        day_temps(days[0])
    } else {
        day_temps(days[0]) + day_temps(days[1])
    };
    if all.len() > STRIP {
        all.take(STRIP as int)
    } else {
        all
    }
}

fn push_temps(out: &mut Vec<u64>, day: &Json)
    ensures
        final(out)@ == old(out)@ + day_temps(*day),
{
    let ghost before = out@;
    match day.list_at("hourly") {
        None => {
            proof {
                assert(out@ =~= before + day_temps(*day));
            }
        },
        Some(h) => {
            let mut i: usize = 0;
            proof {
                assert(out@ =~= before + temps(h@, 0));
            }
            while i < h.len()
                invariant
                    i <= h@.len(),
                    out@ == before + temps(h@, i as nat),
                decreases h@.len() - i,
            {
                match read_number(&h[i], "tempF", i64::MAX) {
                    Some(t) => {
                        out.push(
                            if t > 0 {
                                t as u64
                            } else {
                                0
                            },
                        );
                    },
                    None => {},
                }
                i += 1;
                proof {
                    assert(out@ =~= before + temps(h@, i as nat));
                }
            }
        },
    }
}

fn read_strip(days: &Vec<Json>) -> (r: Vec<u64>)
    ensures
        r@ == strip(days@),
{
    let mut out: Vec<u64> = Vec::new();
    if days.len() > 0 {
        push_temps(&mut out, &days[0]);
    }
    if days.len() > 1 {
        push_temps(&mut out, &days[1]);
    }
    if out.len() > STRIP {
        out.truncate(STRIP);
    }
    proof {
        assert(out@ =~= strip(days@));
    }
    out
}

/// The sun's time of a day.
pub open spec fn sun_at(day: Json, key: Seq<char>) -> Seq<char> {
    match first_at(day, "astronomy"@) {
        Some(a) => words_at(a, key),
        None => seq![],
    }
}

fn read_sun(day: &Json, key: &str) -> (r: String)
    ensures
        r@ == sun_at(*day, key@),
{
    match first_of(day, "astronomy") {
        Some(a) => read_words(a, key),
        None => String::new(),
    }
}

/// The weather is what a report says.
pub open spec fn reported(v: Json, w: Weather) -> bool {
    let cur = first_at(v, "current_condition"@)->0;
    let today = first_at(v, "weather"@)->0;
    &&& w.fresh
    &&& w.desc@ == description(cur)
    &&& w.icon@ == icon_for(text::lowercase(description(cur)))
    &&& w.location@ == "Fond du Lac, WI"@
    &&& w.temp_f == int_at(cur, "temp_F"@)
    &&& w.feels_f == int_at(cur, "FeelsLikeF"@)
    &&& w.humidity == int_at(cur, "humidity"@)
    &&& w.hi_f == int_at(today, "maxtempF"@)
    &&& w.lo_f == int_at(today, "mintempF"@)
    &&& w.wind_mph == int_at(cur, "windspeedMiles"@)
    &&& w.wind_dir@ == words_at(cur, "winddir16Point"@)
    &&& w.precip_chance == rain_chance(today)
    &&& w.uv == int_at(cur, "uvIndex"@)
    &&& w.pressure_mb == int_at(cur, "pressure"@)
    &&& w.sunrise@ == normal_clock(sun_at(today, "sunrise"@))
    &&& w.sunset@ == normal_clock(sun_at(today, "sunset"@))
    &&& w.temp_strip@ == strip(v.items_at("weather"@)->0)
}

/// A report tells the current weather and that of a day.
pub open spec fn complete(v: Json) -> bool {
    first_at(v, "current_condition"@) is Some && first_at(v, "weather"@) is Some
}

/// Reads the weather from a report. None where it does not tell the current weather and
/// that of a day.
pub fn weather_of(v: &Json) -> (r: Option<Weather>)
    ensures
        r is Some == complete(*v),
        r matches Some(w) ==> reported(*v, w),
{
    let (cur, today) = match (first_of(v, "current_condition"), first_of(v, "weather")) {
        (Some(c), Some(t)) => (c, t),
        _ => return None,
    };
    let desc = match first_of(cur, "weatherDesc") {
        Some(d) => read_words(d, "value"),
        None => String::new(),
    };
    let temp_strip = match v.list_at("weather") {
        Some(days) => read_strip(days),
        None => Vec::new(),
    };
    let icon = weather_icon(desc.as_str());
    Some(
        Weather {
            fresh: true,
            location: "Fond du Lac, WI".to_string(),
            temp_f: read_int(cur, "temp_F"),
            feels_f: read_int(cur, "FeelsLikeF"),
            desc,
            icon,
            hi_f: read_int(today, "maxtempF"),
            lo_f: read_int(today, "mintempF"),
            humidity: read_int(cur, "humidity"),
            wind_mph: read_int(cur, "windspeedMiles"),
            wind_dir: read_words(cur, "winddir16Point"),
            precip_chance: read_rain(today),
            uv: read_int(cur, "uvIndex"),
            pressure_mb: read_int(cur, "pressure"),
            sunrise: fmt_clock12_to_24(read_sun(today, "sunrise").as_str()),
            sunset: fmt_clock12_to_24(read_sun(today, "sunset").as_str()),
            temp_strip,
        },
    )
}

/// Reads the weather from the body of a reply.
pub fn read_weather(body: &str) -> (r: Option<Weather>)
    ensures
        match json::document(body@) {
            Some(v) => r is Some == complete(v) && (r matches Some(w) ==> reported(v, w)),
            None => r is None,
        },
{
    match json::parse_json(body) {
        Some(v) => weather_of(&v),
        None => None,
    }
}

/// Where the report is had: the coordinates are fixed.
pub fn report_url() -> (r: &'static str)
    ensures
        r@ == "https://wttr.in/43.7730,-88.4471?format=j1"@,
{
    "https://wttr.in/43.7730,-88.4471?format=j1"
}

// ---------------------------------------------------------------------------
// What a report is read as.
// ---------------------------------------------------------------------------

/// The chance that an hour tells.
pub open spec fn chance_told(hour: Json) -> Option<int> {
    match hour.text_at("chanceofrain"@) {
        Some(s) => digits::signed_upto(s, 2_147_483_647),
        None => None,
    }
}

/// The chance of rain of a day is the greatest that any of its hours tells: no hour tells more,
/// and some hour tells just that. Where no hour tells any it is zero.
pub proof fn rain_is_the_likeliest_hour(day: Json, hours: Seq<Json>)
    requires
        day.items_at("hourly"@) == Some(hours),
    ensures
        forall|i: int|
            0 <= i < hours.len() ==> (chance_told(#[trigger] hours[i]) matches Some(c) ==> c
                <= rain_chance(day)),
        (exists|i: int| 0 <= i < hours.len() && chance_told(#[trigger] hours[i]) is Some)
            ==> exists|i: int|
            0 <= i < hours.len() && chance_told(#[trigger] hours[i]) == Some(rain_chance(day)),
        (forall|i: int| 0 <= i < hours.len() ==> chance_told(#[trigger] hours[i]) is None)
            ==> rain_chance(day) == 0,
{
    top_is_told(hours, hours.len());
}

proof fn top_is_told(hours: Seq<Json>, n: nat)
    requires
        n <= hours.len(),
    ensures
        match top_chance(hours, n) {
            Some(top) => {
                &&& forall|i: int|
                    0 <= i < n ==> (chance_told(#[trigger] hours[i]) matches Some(c) ==> c <= top)
                &&& exists|i: int| 0 <= i < n && chance_told(#[trigger] hours[i]) == Some(top)
            },
            None => forall|i: int| 0 <= i < n ==> chance_told(#[trigger] hours[i]) is None,
        },
    decreases n,
{
    if n > 0 {
        top_is_told(hours, (n - 1) as nat);
        let last = hours[n - 1];
        assert(chance_told(last) == number_at(last, "chanceofrain"@, i32::MAX as int));
        if top_chance(hours, n) is Some {
            let top = top_chance(hours, n)->0;
            if chance_told(last) != Some(top) {
                assert(top_chance(hours, (n - 1) as nat) == Some(top));
                let i = choose|i: int|
                    0 <= i < n - 1 && chance_told(#[trigger] hours[i]) == Some(top);
                assert(chance_told(hours[i]) == Some(top));
            }
        }
    }
}

/// The forecast strip has at most twelve temperatures; they are those that the hours of today
/// and then those of tomorrow tell, in their order, frost counting as zero.
pub proof fn strip_runs_through_two_days(days: Seq<Json>, a: Seq<Json>, b: Seq<Json>)
    requires
        days.len() >= 2,
        days[0].items_at("hourly"@) == Some(a),
        days[1].items_at("hourly"@) == Some(b),
        forall|i: int| 0 <= i < (a + b).len() ==> warmth(#[trigger] (a + b)[i]) is Some,
    ensures
        strip(days).len() == (if a.len() + b.len() < 12 {
            (a.len() + b.len()) as int
        } else {
            12
        }),
        forall|i: int|
            0 <= i < strip(days).len() ==> (#[trigger] strip(days)[i]) == (if warmth((a + b)[i])->0
                > 0 {
                warmth((a + b)[i])->0
            } else {
                0
            }),
{
    assert forall|i: int| 0 <= i < a.len() implies warmth(#[trigger] a[i]) is Some by {
        assert((a + b)[i] == a[i]);
    }
    assert forall|i: int| 0 <= i < b.len() implies warmth(#[trigger] b[i]) is Some by {
        assert((a + b)[a.len() + i] == b[i]);
    }
    temps_are_told(a, a.len());
    temps_are_told(b, b.len());
    let all = temps(a, a.len()) + temps(b, b.len());
    assert forall|i: int| 0 <= i < all.len() implies (#[trigger] all[i]) == (if warmth(
        (a + b)[i],
    )->0 > 0 {
        warmth((a + b)[i])->0
    } else {
        0
    }) by {
        if i < a.len() {
            assert(warmth(a[i]) is Some);
        } else {
            assert(warmth(b[i - a.len()]) is Some);
        }
    }
}

/// The temperature that an hour tells.
pub open spec fn warmth(hour: Json) -> Option<int> {
    match hour.text_at("tempF"@) {
        Some(s) => digits::signed_upto(s, 9_223_372_036_854_775_807),
        None => None,
    }
}

proof fn temps_are_told(hours: Seq<Json>, n: nat)
    requires
        n <= hours.len(),
        forall|i: int| 0 <= i < hours.len() ==> warmth(#[trigger] hours[i]) is Some,
    ensures
        temps(hours, n).len() == n,
        forall|i: int|
            0 <= i < n ==> (#[trigger] temps(hours, n)[i]) == (if warmth(hours[i])->0 > 0 {
                warmth(hours[i])->0
            } else {
                0
            }),
    decreases n,
{
    if n > 0 {
        temps_are_told(hours, (n - 1) as nat);
        let last = hours[n - 1];
        assert(warmth(last) is Some);
        assert(warmth(last) == number_at(last, "tempF"@, i64::MAX as int));
    }
}

/// A field tells a number; one that tells none counts as zero.
pub open spec fn tells(j: Json, key: Seq<char>, n: int) -> bool {
    match j.text_at(key) {
        Some(s) => match digits::signed_upto(s, 2_147_483_647) {
            Some(k) => n == k,
            None => n == 0,
        },
        None => n == 0,
    }
}

/// A report is read as what it tells of now and of its first day: temperature and how it feels,
/// humidity, wind, pressure and ultraviolet now, the high and the low of the day.
pub proof fn reports_tell_now_and_today(v: Json, w: Weather, cur: Seq<Json>, days: Seq<Json>)
    requires
        reported(v, w),
        v.items_at("current_condition"@) == Some(cur),
        v.items_at("weather"@) == Some(days),
        cur.len() > 0,
        days.len() > 0,
    ensures
        tells(cur[0], "temp_F"@, w.temp_f as int),
        tells(cur[0], "FeelsLikeF"@, w.feels_f as int),
        tells(cur[0], "humidity"@, w.humidity as int),
        tells(cur[0], "windspeedMiles"@, w.wind_mph as int),
        tells(cur[0], "uvIndex"@, w.uv as int),
        tells(cur[0], "pressure"@, w.pressure_mb as int),
        tells(days[0], "maxtempF"@, w.hi_f as int),
        tells(days[0], "mintempF"@, w.lo_f as int),
        w.precip_chance == rain_chance(days[0]),
        cur[0].text_at("winddir16Point"@) matches Some(s) ==> w.wind_dir@ == s,
        w.temp_strip@ == strip(days),
        w.temp_strip@.len() <= 12,
        w.fresh,
{
}

/// The description of the weather is the one that the report gives for now, its icon the one of
/// that description; the sun rises and sets when the first day says, told in whole days.
pub proof fn reports_tell_sky_and_sun(
    v: Json,
    w: Weather,
    cur: Seq<Json>,
    days: Seq<Json>,
    sky: Seq<Json>,
    sun: Seq<Json>,
    words: Seq<char>,
    up: Seq<char>,
    down: Seq<char>,
)
    requires
        reported(v, w),
        v.items_at("current_condition"@) == Some(cur),
        v.items_at("weather"@) == Some(days),
        cur.len() > 0,
        days.len() > 0,
        cur[0].items_at("weatherDesc"@) == Some(sky),
        sky.len() > 0,
        sky[0].text_at("value"@) == Some(words),
        days[0].items_at("astronomy"@) == Some(sun),
        sun.len() > 0,
        sun[0].text_at("sunrise"@) == Some(up),
        sun[0].text_at("sunset"@) == Some(down),
    ensures
        w.desc@ == words,
        w.icon@ == icon_for(text::lowercase(words)),
        w.sunrise@ == normal_clock(up),
        w.sunset@ == normal_clock(down),
{
}

/// Icons go by what is worst in a description: thunder over snow, snow over rain, rain over fog,
/// fog over clouds, and clouds over sun.
pub proof fn icons_show_the_worst(d: Seq<char>)
    ensures
        ({
            let thunder = text::holds(d, "thunder"@);
            let snow = text::holds(d, "snow"@) || text::holds(d, "blizzard"@) || text::holds(
                d,
                "sleet"@,
            );
            let rain = text::holds(d, "rain"@) || text::holds(d, "drizzle"@) || text::holds(
                d,
                "shower"@,
            );
            let fog = text::holds(d, "fog"@) || text::holds(d, "mist"@);
            let grey = text::holds(d, "overcast"@);
            let cloud = text::holds(d, "cloud"@) || text::holds(d, "partly"@);
            let sun = text::holds(d, "sun"@) || text::holds(d, "clear"@);
            let worse = thunder || snow || rain || fog;
            &&& thunder ==> icon_for(d) == "⛈"@
            &&& snow && !thunder ==> icon_for(d) == "❄"@
            &&& rain && !thunder && !snow ==> icon_for(d) == "🌧"@
            &&& fog && !thunder && !snow && !rain ==> icon_for(d) == "🌫"@
            &&& grey && !worse ==> icon_for(d) == "☁"@
            &&& cloud && !grey && !worse ==> icon_for(d) == "⛅"@
            &&& sun && !cloud && !grey && !worse ==> icon_for(d) == "☀"@
            &&& !sun && !cloud && !grey && !worse ==> icon_for(d) == "🌡"@
        }),
{
}

/// A clock time of half a day is told as one of the whole day: the hour of two digits, and the
/// minutes as they were.
pub proof fn clock_times_are_of_the_whole_day(h: nat, minutes: Seq<char>)
    requires
        1 <= h <= 12,
    ensures
        ({
            let morning = (if h == 12 {
                0
            } else {
                h
            }) as nat;
            let evening = morning + 12;
            let time = digits::dec(h) + seq![':'] + minutes;
            &&& clock24(time, "AM"@, time) == digits::dec2(morning) + seq![':'] + minutes
            &&& clock24(time, "PM"@, time) == digits::dec2(evening) + seq![':'] + minutes
        }),
{
    let time = digits::dec(h) + seq![':'] + minutes;
    digits::dec_value(h);
    assert forall|i: int| 0 <= i < digits::dec(h).len() implies digits::dec(h)[i] != ':' by {
        assert(digits::digit_value(digits::dec(h)[i]) is Some);
    }
    first_colon(digits::dec(h), minutes, 0);
    assert(time.take(digits::dec(h).len() as int) =~= digits::dec(h));
    assert(time.skip(digits::dec(h).len() as int + 1) =~= minutes);
    assert(digits::digit_value(digits::dec(h)[0]) is Some);
    assert(hour_in(digits::dec(h)) == h);
    reveal_strlit("AM");
    reveal_strlit("PM");
    assert("AM"@[0] != "PM"@[0]);
    reveal_strlit("0");
    reveal_strlit(":");
    assert forall|n: nat| n < 10 implies #[trigger] two_wide(n as int) =~= digits::dec2(n) by {
        assert(digits::dec(n) =~= seq![digits::digit(n as int)]);
    }
    assert(":"@ =~= seq![':']);
    assert(two_wide(hour24(h as int, "AM"@)) =~= digits::dec2(
        (if h == 12 {
            0
        } else {
            h
        }) as nat,
    ));
    assert(two_wide(hour24(h as int, "PM"@)) =~= digits::dec2(
        (if h == 12 {
            12
        } else {
            h + 12
        }) as nat,
    ));
}

proof fn first_colon(a: Seq<char>, b: Seq<char>, from: int)
    requires
        forall|i: int| 0 <= i < a.len() ==> a[i] != ':',
        0 <= from <= a.len(),
    ensures
        text::char_from(a + seq![':'] + b, ':', from) == Some(a.len() as int),
    decreases a.len() - from,
{
    let whole = a + seq![':'] + b;
    if from < a.len() {
        assert(whole[from] == a[from]);
        first_colon(a, b, from + 1);
    } else {
        assert(whole[from] == ':');
    }
}

/// A clock time is a time and, behind its last space, the half of the day; without a space it
/// stays as it is.
pub proof fn clock_texts_have_two_parts(time: Seq<char>, half: Seq<char>)
    requires
        text::trimmed(time + seq![' '] + half) == time + seq![' '] + half,
        forall|i: int| 0 <= i < half.len() ==> half[i] != ' ',
    ensures
        normal_clock(time + seq![' '] + half) == clock24(
            time,
            text::uppercase(half),
            time + seq![' '] + half,
        ),
{
    let t = time + seq![' '] + half;
    reveal_strlit(" ");
    last_space(time, half, half.len() as int);
    assert(t.take(time.len() as int) =~= time);
    assert(t.skip(time.len() as int + 1) =~= half);
}

proof fn last_space(time: Seq<char>, half: Seq<char>, k: int)
    requires
        0 <= k <= half.len(),
        forall|i: int| 0 <= i < half.len() ==> half[i] != ' ',
    ensures
        text::position_back(time + seq![' '] + half, " "@, time.len() + k) == Some(
            time.len() as int,
        ),
    decreases k,
{
    let t = time + seq![' '] + half;
    let n = time.len() + k;
    reveal_strlit(" ");
    if k == 0 {
        assert(t.subrange(n as int, n + 1) =~= " "@);
    } else {
        assert(t[n as int] == half[k - 1]);
        assert(t.subrange(n as int, n + 1)[0] == half[k - 1]);
        assert(t.subrange(n as int, n + 1) != " "@);
        last_space(time, half, k - 1);
    }
}

} // verus!
