//! The status bar: one line of readings of the machine.
//!
//! Readings are billionths of their units. They are shown rounded to the nearest, ties to
//! even.

use vstd::prelude::*;
use crate::digits;
use crate::lrc::Share;
use crate::panel;
use crate::panel::{Bit, Hue, Ink, Piece};
use crate::text;
use crate::width;

verus! {

/// The readings of the chip.
#[derive(Clone, Copy, Debug, PartialEq, Eq, Structural)]
pub struct Chip {
    /// Percent.
    pub cpu: i64,
    /// Percent.
    pub gpu: i64,
    /// Watts.
    pub power: i64,
    /// Degrees.
    pub temp: i64,
}

/// The readings of the machine.
#[derive(Clone, Copy, Debug, PartialEq, Eq, Structural)]
pub struct Readings {
    /// What the chip tells, where it does.
    pub chip: Option<Chip>,
    /// The load of the processor as the system tells it, in percent.
    pub cpu: i64,
    /// How many wait for a processor, and how many processors there are.
    pub load: i64,
    pub cores: u32,
    /// Bytes.
    pub mem_used: u64,
    pub mem_total: u64,
    /// Bytes that came and went over a time.
    pub received: u64,
    pub sent: u64,
    pub over: u64,
    /// Seconds.
    pub uptime: u64,
    pub processes: u64,
}

/// A billion.
pub const UNIT: u64 = 1_000_000_000;

// ---------------------------------------------------------------------------
// Numbers.
// ---------------------------------------------------------------------------

/// The size of a number.
pub open spec fn size(v: int) -> nat {
    if v < 0 {
        (-v) as nat
    } else {
        v as nat
    }
}

/// The sign of a number that is negative.
pub open spec fn sign(v: int) -> Seq<char> {
    if v < 0 {
        "-"@
    } else {
        ""@
    }
}

/// A reading as a whole number.
pub open spec fn whole_text(v: int) -> Seq<char> {
    sign(v) + digits::dec(crate::format::nearest(size(v), UNIT as nat))
}

/// A reading with one decimal.
pub open spec fn tenth_text(v: int) -> Seq<char> {
    sign(v) + crate::format::tenths_text(crate::format::nearest(10 * size(v), UNIT as nat))
}

fn magnitude(v: i64) -> (r: u64)
    ensures
        r == size(v as int),
{
    if v < 0 {
        (-(v as i128)) as u64
    } else {
        v as u64
    }
}

fn sign_of(v: i64) -> (r: String)
    ensures
        r@ == sign(v as int),
{
    if v < 0 {
        "-".to_string()
    } else {
        "".to_string()
    }
}

fn show_whole(v: i64) -> (r: String)
    ensures
        r@ == whole_text(v as int),
{
    let n: u128 = crate::format::round_quotient(magnitude(v) as u128, UNIT as u128);
    let mut out = sign_of(v);
    digits::push_dec(&mut out, n as u64);
    out
}

fn show_tenth(v: i64) -> (r: String)
    ensures
        r@ == tenth_text(v as int),
{
    proof {
        tenths_are_small(size(v as int));
    }
    let n: u128 = crate::format::round_quotient(10 * magnitude(v) as u128, UNIT as u128);
    let mut out = sign_of(v);
    crate::format::push_tenths(&mut out, n as u64);
    out
}

proof fn tenths_are_small(n: nat)
    requires
        n <= u64::MAX,
    ensures
        crate::format::nearest(10 * n, UNIT as nat) <= u64::MAX,
{
    assert((10 * n) / (UNIT as nat) <= n);
}

/// A rate in bytes a second: megabytes with one decimal, else whole kilobytes, else bytes.
pub open spec fn rate_text(bytes: nat, over: nat) -> Seq<char> {
    let n = bytes * UNIT;
    if n >= 1_048_576 * over {
        crate::format::tenths_text(crate::format::nearest((10 * n) as nat, 1_048_576 * over)).push('M')
    } else if n >= 1024 * over {
        digits::dec(crate::format::nearest(n as nat, 1024 * over)).push('K')
    } else {
        digits::dec(crate::format::nearest(n as nat, over)).push('B')
    }
}

/// A rate in bytes a second, from bytes over a time.
pub fn fmt_rate_short(bytes: u64, over: u64) -> (r: String)
    requires
        over >= 1_000_000,
    ensures
        r@ == rate_text(bytes as nat, over as nat),
{
    let n: u128 = bytes as u128 * 1_000_000_000;
    let t: u128 = over as u128;
    let mut out = String::new();
    if n >= 1_048_576 * t {
        let m: u128 = crate::format::round_quotient(10 * n, 1_048_576 * t);
        proof {
            let q = (10 * n) / (1_048_576 * t);
            assert(q < u64::MAX) by (nonlinear_arith)
                requires
                    q == (10 * n) / (1_048_576 * t),
                    n == bytes * 1_000_000_000,
                    0 <= bytes <= 0xffff_ffff_ffff_ffff,
                    t >= 1_000_000,
            ;
        }
        crate::format::push_tenths(&mut out, m as u64);
        out.push('M');
    } else if n >= 1024 * t {
        let m: u128 = crate::format::round_quotient(n, 1024 * t);
        proof {
            let q = n as int / (1024 * t);
            assert(q < 1024) by (nonlinear_arith)
                requires
                    q == n as int / (1024 * t),
                    n < 1_048_576 * t,
                    t > 0,
            ;
        }
        digits::push_dec(&mut out, m as u64);
        out.push('K');
    } else {
        let m: u128 = crate::format::round_quotient(n, t);
        proof {
            let q = n as int / t as int;
            assert(q < 1024) by (nonlinear_arith)
                requires
                    q == n as int / t as int,
                    n < 1024 * t,
                    t > 0,
            ;
        }
        digits::push_dec(&mut out, m as u64);
        out.push('B');
    }
    proof {
        assert(out@ =~= rate_text(bytes as nat, over as nat));
    }
    out
}

// ---------------------------------------------------------------------------
// The bar.
// ---------------------------------------------------------------------------

/// So much of a whole, from nothing.
pub open spec fn ramp(v: int, full: u64) -> Ink {
    Ink::Jazz(
        Share {
            num: if v < 0 {
                0
            } else {
                v as u64
            },
            den: full,
        },
    )
}

fn on_ramp(v: i64, full: u64) -> (r: Ink)
    ensures
        r == ramp(v as int, full),
{
    Ink::Jazz(
        Share {
            num: if v < 0 {
                0
            } else {
                v as u64
            },
            den: full,
        },
    )
}

/// A hundred percent.
pub const FULL: u64 = 100_000_000_000;

/// The most power that is told apart.
pub const FULL_POWER: u64 = 120_000_000_000;

/// From here on it is hot.
pub const HOT: i64 = 80_000_000_000;

/// The coolest temperature that is told apart, and how many degrees are.
pub const COOL: i64 = 30_000_000_000;

pub const SPAN: u64 = 70_000_000_000;

/// The load of the processor: the chip knows better than the system.
pub open spec fn cpu_of(m: Readings) -> i64 {
    match m.chip {
        Some(c) => c.cpu,
        None => m.cpu,
    }
}

/// The ink of the load: red where more wait than there are processors.
pub open spec fn cpu_ink(m: Readings) -> Ink {
    if m.load > (if m.cores == 0 {
        1
    } else {
        m.cores as int
    }) * UNIT {
        Ink::Flat(Hue::Red)
    } else {
        ramp(cpu_of(m) as int, FULL)
    }
}

/// The ink of a temperature: red where it is hot.
pub open spec fn temp_ink(t: i64) -> Ink {
    if t > HOT {
        Ink::Flat(Hue::Red)
    } else {
        ramp(t - COOL, SPAN)
    }
}

/// How much memory is used, in percent.
pub open spec fn memory_text(m: Readings) -> Seq<char> {
    digits::dec(
        if m.mem_total > 0 {
            crate::format::nearest((100 * m.mem_used) as nat, m.mem_total as nat)
        } else {
            0
        },
    )
}

/// The ink of the memory.
pub open spec fn memory_ink(m: Readings) -> Ink {
    Ink::Jazz(
        if m.mem_total > 0 {
            Share { num: m.mem_used, den: m.mem_total }
        } else {
            Share { num: 0, den: 1 }
        },
    )
}

/// The rule between two readings.
pub open spec fn rule() -> Bit {
    panel::flat("  │  "@, Hue::Faint)
}

/// A reading with its name.
pub open spec fn reading(name: Seq<char>, value: Seq<char>, ink: Ink) -> Seq<Bit> {
    seq![rule(), panel::flat(name, Hue::Dim), panel::strong(value, ink)]
}

/// The readings of the chip.
pub open spec fn chip_bits(c: Chip) -> Seq<Bit> {
    reading(
        "GPU "@,
        width::right_aligned(whole_text(c.gpu as int), 3) + "%"@,
        ramp(c.gpu as int, FULL),
    ) + reading(
        "PWR "@,
        width::right_aligned(tenth_text(c.power as int), 5) + "W"@,
        ramp(c.power as int, FULL_POWER),
    ) + reading(
        "TEMP "@,
        width::right_aligned(whole_text(c.temp as int), 3) + "°"@,
        temp_ink(c.temp),
    )
}

/// What was spent today, in hundred-millionths of a dollar, with two decimals.
pub open spec fn cost_text(cost: nat) -> Seq<char> {
    let cents = crate::format::nearest(cost, 1_000_000);
    digits::dec(cents / 100) + "."@ + digits::dec2(cents % 100)
}

/// The readings behind those of the chip.
pub open spec fn rest_bits(m: Readings) -> Seq<Bit> {
    reading("MEM "@, width::right_aligned(memory_text(m), 3) + "%"@, memory_ink(m)) + seq![
        rule(),
        panel::flat("NET "@, Hue::Dim),
        panel::flat(
            "▼"@ + width::right_aligned(rate_text(m.received as nat, m.over as nat), 5),
            Hue::Cyan,
        ),
        panel::flat(
            " ▲"@ + width::right_aligned(rate_text(m.sent as nat, m.over as nat), 5),
            Hue::Pink,
        ),
    ]
}

/// The readings at the end.
pub open spec fn last_bits(m: Readings) -> Seq<Bit> {
    seq![
        rule(),
        panel::flat("↑ "@, Hue::Dim),
        panel::flat(width::right_aligned(crate::format::dur_text(m.uptime as nat), 9), Hue::Text),
        rule(),
        panel::flat(
            width::right_aligned(digits::dec(m.processes as nat), 3) + " procs"@,
            Hue::Dim,
        ),
    ]
}

/// The bar. Its first piece is the cap of the key that quits.
pub open spec fn bar(m: Readings, spender: Seq<char>, cost: Option<nat>) -> Seq<Bit> {
    seq![
        panel::bold(" q "@, Hue::Bg),
        panel::flat(" quit"@, Hue::Dim),
    ] + reading("CPU "@, width::right_aligned(whole_text(cpu_of(m) as int), 3) + "%"@, cpu_ink(m))
        + (match m.chip {
        Some(c) => chip_bits(c),
        None => seq![],
    }) + rest_bits(m) + (match cost {
        Some(n) => reading(
            spender + " today "@,
            "$"@ + width::right_aligned(cost_text(n), 5),
            Ink::Flat(Hue::Green),
        ),
        None => seq![],
    }) + last_bits(m)
}

fn push_reading(line: &mut Vec<Piece>, name: &str, value: String, ink: Ink)
    ensures
        panel::bits(final(line)@) == panel::bits(old(line)@) + reading(name@, value@, ink),
{
    panel::push_flat(line, "  │  ", Hue::Faint);
    panel::push_flat(line, name, Hue::Dim);
    panel::push_strong(line, value, ink);
    proof {
        assert(panel::bits(line@) =~= panel::bits(old(line)@) + reading(name@, value@, ink));
    }
}

fn unit_value(v: String, cells: usize, unit: &str) -> (r: String)
    ensures
        r@ == width::right_aligned(v@, cells as nat) + unit@,
{
    text::concat2(width::align_right(v.as_str(), cells).as_str(), unit)
}

fn push_chip(line: &mut Vec<Piece>, c: Chip)
    ensures
        panel::bits(final(line)@) == panel::bits(old(line)@) + chip_bits(c),
{
    push_reading(line, "GPU ", unit_value(show_whole(c.gpu), 3, "%"), on_ramp(c.gpu, FULL));
    push_reading(
        line,
        "PWR ",
        unit_value(show_tenth(c.power), 5, "W"),
        on_ramp(c.power, FULL_POWER),
    );
    let heat = if c.temp > HOT {
        Ink::Flat(Hue::Red)
    } else if c.temp < COOL {
        on_ramp(-1, SPAN)
    } else {
        on_ramp(c.temp - COOL, SPAN)
    };
    push_reading(line, "TEMP ", unit_value(show_whole(c.temp), 3, "°"), heat);
    proof {
        assert(panel::bits(line@) =~= panel::bits(old(line)@) + chip_bits(c));
    }
}

fn push_rest(line: &mut Vec<Piece>, m: &Readings)
    requires
        m.over >= 1_000_000,
    ensures
        panel::bits(final(line)@) == panel::bits(old(line)@) + rest_bits(*m),
{
    let mut percent = String::new();
    let mut share = Share { num: 0, den: 1 };
    if m.mem_total > 0 {
        let n: u128 = crate::format::round_quotient(100 * m.mem_used as u128, m.mem_total as u128);
        push_wide(&mut percent, n);
        share = Share { num: m.mem_used, den: m.mem_total };
    } else {
        digits::push_dec(&mut percent, 0);
    }
    proof {
        assert(percent@ =~= memory_text(*m));
    }
    push_reading(line, "MEM ", unit_value(percent, 3, "%"), Ink::Jazz(share));
    panel::push_flat(line, "  │  ", Hue::Faint);
    panel::push_flat(line, "NET ", Hue::Dim);
    let down = width::align_right(fmt_rate_short(m.received, m.over).as_str(), 5);
    let up = width::align_right(fmt_rate_short(m.sent, m.over).as_str(), 5);
    panel::push_ink(line, text::concat2("▼", down.as_str()), Ink::Flat(Hue::Cyan));
    panel::push_ink(line, text::concat2(" ▲", up.as_str()), Ink::Flat(Hue::Pink));
    proof {
        assert(panel::bits(line@) =~= panel::bits(old(line)@) + rest_bits(*m));
    }
}

fn push_wide(out: &mut String, n: u128)
    ensures
        final(out)@ == old(out)@ + digits::dec(n as nat),
    decreases n,
{
    if n >= 10 {
        push_wide(out, n / 10);
    }
    out.push(digits::digit_char((n % 10) as u64));
    proof {
        assert(out@ =~= old(out)@ + digits::dec(n as nat));
    }
}

fn show_cost(cost: u128) -> (r: String)
    requires
        cost < u128::MAX,
    ensures
        r@ == cost_text(cost as nat),
{
    let cents: u128 = crate::format::round_quotient(cost, 1_000_000);
    let mut out = String::new();
    push_wide(&mut out, cents / 100);
    out.append(".");
    digits::push_dec2(&mut out, (cents % 100) as u64);
    proof {
        assert(out@ =~= cost_text(cost as nat));
    }
    out
}

fn push_last(line: &mut Vec<Piece>, m: &Readings)
    ensures
        panel::bits(final(line)@) == panel::bits(old(line)@) + last_bits(*m),
{
    panel::push_flat(line, "  │  ", Hue::Faint);
    panel::push_flat(line, "↑ ", Hue::Dim);
    let up = width::align_right(crate::format::fmt_dur(m.uptime).as_str(), 9);
    panel::push_ink(line, up, Ink::Flat(Hue::Text));
    panel::push_flat(line, "  │  ", Hue::Faint);
    let n = unit_value(digits::dec_string(m.processes), 3, " procs");
    panel::push_ink(line, n, Ink::Flat(Hue::Dim));
    proof {
        assert(panel::bits(line@) =~= panel::bits(old(line)@) + last_bits(*m));
    }
}

/// The status bar. `cost` is what `spender` spent today, where that is known.
pub fn footer(m: &Readings, spender: &str, cost: Option<u128>) -> (r: Vec<Piece>)
    requires
        m.over >= 1_000_000,
        cost matches Some(n) ==> n < u128::MAX,
    ensures
        panel::bits(r@) == bar(
            *m,
            spender@,
            match cost {
                Some(n) => Some(n as nat),
                None => None,
            },
        ),
{
    let cpu: i64 = match m.chip {
        Some(c) => c.cpu,
        None => m.cpu,
    };
    let cores: i128 = if m.cores == 0 {
        1
    } else {
        m.cores as i128
    };
    let strain = if m.load as i128 > cores * UNIT as i128 {
        Ink::Flat(Hue::Red)
    } else {
        on_ramp(cpu, FULL)
    };
    let mut line = panel::line();
    panel::push_bold(&mut line, " q ", Hue::Bg);
    panel::push_flat(&mut line, " quit", Hue::Dim);
    push_reading(&mut line, "CPU ", unit_value(show_whole(cpu), 3, "%"), strain);
    match m.chip {
        Some(c) => push_chip(&mut line, c),
        None => {},
    }
    push_rest(&mut line, m);
    match cost {
        Some(n) => {
            let name = text::concat2(spender, " today ");
            let sum = width::align_right(show_cost(n).as_str(), 5);
            push_reading(
                &mut line,
                name.as_str(),
                text::concat2("$", sum.as_str()),
                Ink::Flat(Hue::Green),
            );
        },
        None => {},
    }
    push_last(&mut line, m);
    proof {
        assert(panel::bits(line@) =~= bar(
            *m,
            spender@,
            match cost {
                Some(n) => Some(n as nat),
                None => None,
            },
        ));
    }
    line
}

// ---------------------------------------------------------------------------
// Laws of the status bar.
// ---------------------------------------------------------------------------

/// A reading is shown as the whole number that is closest to it, with its sign.
pub proof fn readings_are_shown_as_the_closest(v: int, n: nat)
    requires
        -1_000_000_000 < 2 * (n * 1_000_000_000 - v) < 1_000_000_000 || -1_000_000_000 < 2 * (n
            * 1_000_000_000 + v) < 1_000_000_000,
    ensures
        v >= 0 ==> whole_text(v) == digits::dec(n),
        v < 0 ==> whole_text(v) == "-"@ + digits::dec(n),
{
    crate::format::rounding_takes_the_nearest(size(v), 1_000_000_000);
    reveal_strlit("");
    assert(""@ + digits::dec(n) =~= digits::dec(n));
}

/// A reading with one decimal is the closest tenth.
pub proof fn readings_are_shown_as_the_closest_tenth(v: int, n: nat)
    requires
        -100_000_000 < 2 * (n * 100_000_000 - v) < 100_000_000 || -100_000_000 < 2 * (n
            * 100_000_000 + v) < 100_000_000,
    ensures
        ({
            let t = digits::dec(n / 10) + "."@ + digits::dec(n % 10);
            &&& v >= 0 ==> tenth_text(v) == t
            &&& v < 0 ==> tenth_text(v) == "-"@ + t
        }),
{
    crate::format::rounding_takes_the_nearest(10 * size(v), 1_000_000_000);
    reveal_strlit("");
    reveal_strlit(".");
    assert(digits::dec(n % 10) =~= seq![digits::digit((n % 10) as int)]);
    let t = digits::dec(n / 10) + "."@ + digits::dec(n % 10);
    assert(crate::format::tenths_text(n) =~= t);
    assert(""@ + t =~= t);
}

/// A rate over a second is told in megabytes from 1,048,576 bytes on, else in kilobytes from
/// 1,024 on, else in bytes, as the closest number that is shown.
pub proof fn rates_are_told_in_their_unit(bytes: nat, n: nat)
    ensures
        bytes >= 1_048_576 && -1_048_576 < 2 * (n * 1_048_576 - 10 * bytes) < 1_048_576
            ==> rate_text(bytes, 1_000_000_000) == digits::dec(n / 10) + "."@ + digits::dec(n % 10)
            + "M"@,
        1024 <= bytes < 1_048_576 && -1024 < 2 * (n * 1024 - bytes) < 1024 ==> rate_text(
            bytes,
            1_000_000_000,
        ) == digits::dec(n) + "K"@,
        bytes < 1024 ==> rate_text(bytes, 1_000_000_000) == digits::dec(bytes) + "B"@,
{
    reveal_strlit("M");
    reveal_strlit("K");
    reveal_strlit("B");
    reveal_strlit(".");
    let b = (bytes * 1_000_000_000) as nat;
    crate::format::rounding_takes_the_nearest((10 * b) as nat, 1_048_576 * 1_000_000_000);
    crate::format::rounding_takes_the_nearest(b, 1024 * 1_000_000_000);
    crate::format::rounding_takes_the_nearest(b, 1_000_000_000);
    assert(digits::dec(n % 10) =~= seq![digits::digit((n % 10) as int)]);
    assert(crate::format::tenths_text(n) =~= digits::dec(n / 10) + "."@ + digits::dec(n % 10));
    assert(crate::format::tenths_text(n).push('M') =~= digits::dec(n / 10) + "."@ + digits::dec(
        n % 10,
    ) + "M"@);
    assert(digits::dec(n).push('K') =~= digits::dec(n) + "K"@);
    assert(digits::dec(bytes).push('B') =~= digits::dec(bytes) + "B"@);
}

/// Only what came over how long counts: twice as much over twice the time is the same rate.
pub proof fn rates_are_proportions(bytes: nat, over: nat)
    requires
        over > 0,
    ensures
        rate_text(2 * bytes, 2 * over) == rate_text(bytes, over),
{
    halves_round_alike((10 * (bytes * UNIT)) as nat, 1_048_576 * over);
    halves_round_alike((bytes * UNIT) as nat, 1024 * over);
    halves_round_alike((bytes * UNIT) as nat, over);
}

proof fn halves_round_alike(a: nat, b: nat)
    requires
        b > 0,
    ensures
        crate::format::nearest(2 * a, 2 * b) == crate::format::nearest(a, b),
{
    let q = (a / b) as int;
    let r = (a % b) as int;
    vstd::arithmetic::div_mod::lemma_fundamental_div_mod(a as int, b as int);
    assert((2 * b) * q == 2 * (b * q)) by (nonlinear_arith);
    assert(q * (2 * b) == (2 * b) * q) by (nonlinear_arith);
    vstd::arithmetic::div_mod::lemma_fundamental_div_mod_converse(
        (2 * a) as int,
        (2 * b) as int,
        q,
        2 * r,
    );
}

/// The load is told first: by the chip where it tells, else by the system. It is red exactly
/// where more wait than there are processors.
pub proof fn load_stands_first(m: Readings, spender: Seq<char>, cost: Option<nat>)
    ensures
        bar(m, spender, cost).len() >= 5,
        bar(m, spender, cost)[3].text == "CPU "@,
        m.chip matches Some(c) ==> bar(m, spender, cost)[4].text == width::right_aligned(
            whole_text(c.cpu as int),
            3,
        ) + "%"@,
        m.chip is None ==> bar(m, spender, cost)[4].text == width::right_aligned(
            whole_text(m.cpu as int),
            3,
        ) + "%"@,
        (bar(m, spender, cost)[4].ink == Ink::Flat(Hue::Red)) == (m.load > 1_000_000_000 * m.cores
            && m.load > 1_000_000_000),
{
    assert(m.load > 1_000_000_000 * m.cores && m.cores == 0 ==> 1_000_000_000 * m.cores == 0);
}

/// Memory is told in percent of what there is, as the closest number.
pub proof fn memory_is_a_share(m: Readings, n: nat)
    ensures
        m.mem_total > 0 && -(m.mem_total as int) < 2 * (n * m.mem_total - 100 * m.mem_used)
            < m.mem_total ==> memory_text(m) == digits::dec(n),
        m.mem_total == 0 ==> memory_text(m) == digits::dec(0),
{
    if m.mem_total > 0 {
        let b = m.mem_total as nat;
        let k = crate::format::nearest((100 * m.mem_used) as nat, b);
        crate::format::rounding_takes_the_nearest((100 * m.mem_used) as nat, b);
        if -(b as int) < 2 * (n * b - 100 * m.mem_used) < b {
            assert(k == n) by (nonlinear_arith)
                requires
                    b > 0,
                    -(b as int) < 2 * (n * b - 100 * m.mem_used) < b,
                    -(b as int) <= 2 * (100 * m.mem_used - b * k) <= b,
            ;
        }
    }
}

/// What was spent is told in dollars and cents, as the closest cent.
pub proof fn spending_is_told_in_cents(cost: nat, cents: nat)
    requires
        -1_000_000 < 2 * (cents * 1_000_000 - cost) < 1_000_000,
    ensures
        cents % 100 < 10 ==> cost_text(cost) == digits::dec(cents / 100) + "."@ + "0"@
            + digits::dec(cents % 100),
        cents % 100 >= 10 ==> cost_text(cost) == digits::dec(cents / 100) + "."@ + digits::dec(
            cents % 100,
        ),
{
    crate::format::rounding_takes_the_nearest(cost, 1_000_000);
    reveal_strlit("0");
    let c = cents % 100;
    if c < 10 {
        assert(digits::dec(c) =~= seq![digits::digit(c as int)]);
        assert(digits::dec2(c) =~= "0"@ + digits::dec(c));
        assert(digits::dec(cents / 100) + "."@ + "0"@ + digits::dec(c) =~= digits::dec(cents / 100)
            + "."@ + digits::dec2(c));
    }
}

/// A temperature is red exactly above eighty degrees; below, it lies on a ramp from thirty to a
/// hundred.
pub proof fn heat_is_red(t: i64)
    ensures
        (temp_ink(t) == Ink::Flat(Hue::Red)) == (t > 80_000_000_000),
        30_000_000_000 <= t <= 80_000_000_000 ==> temp_ink(t) == Ink::Jazz(
            Share { num: (t - 30_000_000_000) as u64, den: 70_000_000_000 },
        ),
        t < 30_000_000_000 ==> temp_ink(t) == Ink::Jazz(Share { num: 0, den: 70_000_000_000 }),
{
}

/// Each reading of the chip, the memory, the network, the spending, the uptime and the processes
/// stands behind its name.
pub proof fn readings_stand_behind_their_names(
    m: Readings,
    c: Chip,
    spender: Seq<char>,
    cost: nat,
)
    requires
        m.chip == Some(c),
    ensures
        ({
            let b = bar(m, spender, Some(cost));
            &&& b.len() == 29
            &&& b[6].text == "GPU "@
            &&& b[7].text == width::right_aligned(whole_text(c.gpu as int), 3) + "%"@
            &&& b[9].text == "PWR "@
            &&& b[10].text == width::right_aligned(tenth_text(c.power as int), 5) + "W"@
            &&& b[12].text == "TEMP "@
            &&& b[13].text == width::right_aligned(whole_text(c.temp as int), 3) + "°"@
            &&& b[15].text == "MEM "@
            &&& b[16].text == width::right_aligned(memory_text(m), 3) + "%"@
            &&& b[18].text == "NET "@
            &&& b[19].text == "▼"@ + width::right_aligned(
                rate_text(m.received as nat, m.over as nat),
                5,
            )
            &&& b[20].text == " ▲"@ + width::right_aligned(
                rate_text(m.sent as nat, m.over as nat),
                5,
            )
            &&& b[22].text == spender + " today "@
            &&& b[23].text == "$"@ + width::right_aligned(cost_text(cost), 5)
            &&& b[26].text == width::right_aligned(crate::format::dur_text(m.uptime as nat), 9)
            &&& b[28].text == width::right_aligned(digits::dec(m.processes as nat), 3) + " procs"@
        }),
{
}

/// Where it is not red, the load is drawn by its share of a hundred percent, and so is that of the
/// graphics; power is drawn by its share of 120 watts. Nothing is below nothing.
pub proof fn readings_are_drawn_by_their_share(m: Readings, c: Chip)
    requires
        m.chip == Some(c),
        m.load <= 1_000_000_000,
        c.cpu >= 0,
        c.gpu >= 0,
        c.power >= 0,
    ensures
        ({
            let b = bar(m, ""@, None);
            &&& b[4].ink == Ink::Jazz(Share { num: c.cpu as u64, den: 100_000_000_000 })
            &&& b[7].ink == Ink::Jazz(Share { num: c.gpu as u64, den: 100_000_000_000 })
            &&& b[10].ink == Ink::Jazz(Share { num: c.power as u64, den: 120_000_000_000 })
            &&& m.mem_total > 0 ==> b[16].ink == Ink::Jazz(
                Share { num: m.mem_used, den: m.mem_total },
            )
        }),
{
}

} // verus!
