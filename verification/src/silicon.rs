//! The chip's own metrics, read from what its monitor prints.

use vstd::prelude::*;
use crate::json;
use crate::json::Json;

verus! {

/// The metrics of the chip, in billionths of their units; frequencies in megahertz.
#[derive(Clone, Copy, Debug, PartialEq, Eq)]
pub struct Silicon {
    pub cpu_pct: i128,
    pub gpu_pct: i128,
    pub gpu_freq_mhz: u32,
    pub all_power: i64,
    pub cpu_power: i64,
    pub gpu_power: i64,
    pub sys_power: i64,
    pub ane_power: i64,
    pub ecpu_pct: i128,
    pub ecpu_freq_mhz: u32,
    pub pcpu_pct: i128,
    pub pcpu_freq_mhz: u32,
    /// The temperatures of processor and graphics, where they were told.
    pub temps: Option<(i64, i64)>,
}

/// The number of a value in billionths, zero where it is none.
pub open spec fn number(j: Option<Json>) -> int {
    match j {
        Some(v) => match v.billionths() {
            Some(n) => n,
            None => 0,
        },
        None => 0,
    }
}

fn read_number(j: Option<&Json>) -> (r: i64)
    ensures
        r == number(
            match j {
                Some(v) => Some(*v),
                None => None,
            },
        ),
{
    match j {
        Some(v) => match v.as_billionths() {
            Some(n) => n,
            None => 0,
        },
        None => 0,
    }
}

/// The number of a field.
pub open spec fn field(v: Json, key: Seq<char>) -> int {
    number(v.at(key))
}

fn read_field(v: &Json, key: &str) -> (r: i64)
    ensures
        r == field(*v, key@),
{
    read_number(v.get(key))
}

/// Element `i` of a list in a field.
pub open spec fn element(v: Json, key: Seq<char>, i: int) -> Option<Json> {
    match v.items_at(key) {
        Some(l) => if i < l.len() {
            Some(l[i])
        } else {
            None
        },
        None => None,
    }
}

fn read_element(v: &Json, key: &str, i: usize) -> (r: i64)
    ensures
        r == number(element(*v, key@, i as int)),
{
    match v.list_at(key) {
        Some(l) => if i < l.len() {
            read_number(Some(&l[i]))
        } else {
            0
        },
        None => 0,
    }
}

/// A number of billionths as a whole number of 32 bits, cut at both ends.
pub open spec fn whole(n: int) -> int {
    if n <= 0 {
        0
    } else if n / 1_000_000_000 > u32::MAX {
        u32::MAX as int
    } else {
        n / 1_000_000_000
    }
}

fn to_whole(n: i64) -> (r: u32)
    ensures
        r == whole(n as int),
{
    if n <= 0 {
        0
    } else if n / 1_000_000_000 > 0xffff_ffff {
        0xffff_ffff
    } else {
        (n / 1_000_000_000) as u32
    }
}

/// The metrics are what the monitor printed; shares of usage are told as percentages.
pub open spec fn told(v: Json, s: Silicon) -> bool {
    &&& s.cpu_pct == 100 * field(v, "cpu_usage_pct"@)
    &&& s.gpu_pct == 100 * number(element(v, "gpu_usage"@, 1))
    &&& s.gpu_freq_mhz == whole(number(element(v, "gpu_usage"@, 0)))
    &&& s.all_power == field(v, "all_power"@)
    &&& s.cpu_power == field(v, "cpu_power"@)
    &&& s.gpu_power == field(v, "gpu_power"@)
    &&& s.sys_power == field(v, "sys_power"@)
    &&& s.ane_power == field(v, "ane_power"@)
    &&& s.ecpu_pct == 100 * number(element(v, "ecpu_usage"@, 1))
    &&& s.ecpu_freq_mhz == whole(number(element(v, "ecpu_usage"@, 0)))
    &&& s.pcpu_pct == 100 * number(element(v, "pcpu_usage"@, 1))
    &&& s.pcpu_freq_mhz == whole(number(element(v, "pcpu_usage"@, 0)))
    &&& match v.at("temp"@) {
        Some(t) => s.temps matches Some(p) && p.0 == field(t, "cpu_temp_avg"@) && p.1 == field(
            t,
            "gpu_temp_avg"@,
        ),
        None => s.temps is None,
    }
}

/// Reads the metrics from a document.
pub fn silicon_of(v: &Json) -> (r: Silicon)
    ensures
        told(*v, r),
{
    let temps = match v.get("temp") {
        Some(t) => Some((read_field(t, "cpu_temp_avg"), read_field(t, "gpu_temp_avg"))),
        None => None,
    };
    Silicon {
        cpu_pct: 100 * read_field(v, "cpu_usage_pct") as i128,
        gpu_pct: 100 * read_element(v, "gpu_usage", 1) as i128,
        gpu_freq_mhz: to_whole(read_element(v, "gpu_usage", 0)),
        all_power: read_field(v, "all_power"),
        cpu_power: read_field(v, "cpu_power"),
        gpu_power: read_field(v, "gpu_power"),
        sys_power: read_field(v, "sys_power"),
        ane_power: read_field(v, "ane_power"),
        ecpu_pct: 100 * read_element(v, "ecpu_usage", 1) as i128,
        ecpu_freq_mhz: to_whole(read_element(v, "ecpu_usage", 0)),
        pcpu_pct: 100 * read_element(v, "pcpu_usage", 1) as i128,
        pcpu_freq_mhz: to_whole(read_element(v, "pcpu_usage", 0)),
        temps,
    }
}

/// Reads a line of the monitor; one that is no document is skipped.
pub fn read_line(line: &str) -> (r: Option<Silicon>)
    ensures
        match json::document(line@) {
            Some(v) => r matches Some(s) && told(v, s),
            None => r is None,
        },
{
    match json::parse_json(line) {
        Some(v) => Some(silicon_of(&v)),
        None => None,
    }
}

/// Powers are told under their own names, and the share of the processor as a percentage; what
/// is not told is zero.
pub proof fn metrics_are_told_by_name(v: Json, s: Silicon, key: Seq<char>, n: int)
    requires
        told(v, s),
        n == match v.at(key) {
            Some(j) => match j.billionths() {
                Some(k) => k,
                None => 0,
            },
            None => 0,
        },
    ensures
        key == "cpu_usage_pct"@ ==> s.cpu_pct == 100 * n,
        key == "all_power"@ ==> s.all_power == n,
        key == "cpu_power"@ ==> s.cpu_power == n,
        key == "gpu_power"@ ==> s.gpu_power == n,
        key == "sys_power"@ ==> s.sys_power == n,
        key == "ane_power"@ ==> s.ane_power == n,
{
}

/// Graphics and the two kinds of cores tell a frequency and then a share: the one is kept in
/// whole megahertz, the other as a percentage.
pub proof fn units_tell_frequency_and_share(
    v: Json,
    s: Silicon,
    key: Seq<char>,
    l: Seq<Json>,
    mhz: int,
    rest: int,
    share: int,
)
    requires
        told(v, s),
        v.items_at(key) == Some(l),
        l.len() >= 2,
        0 <= mhz <= u32::MAX,
        0 <= rest < 1_000_000_000,
        l[0].billionths() == Some(1_000_000_000 * mhz + rest),
        l[1].billionths() == Some(share),
    ensures
        key == "gpu_usage"@ ==> s.gpu_freq_mhz == mhz && s.gpu_pct == 100 * share,
        key == "ecpu_usage"@ ==> s.ecpu_freq_mhz == mhz && s.ecpu_pct == 100 * share,
        key == "pcpu_usage"@ ==> s.pcpu_freq_mhz == mhz && s.pcpu_pct == 100 * share,
{
    assert((1_000_000_000 * mhz + rest) / 1_000_000_000 == mhz);
}

/// The temperatures are those of processor and graphics, in this order, where any are told.
pub proof fn temperatures_are_told_together(v: Json, s: Silicon, t: Json, a: Json, b: Json)
    requires
        told(v, s),
        v.at("temp"@) == Some(t),
        t.at("cpu_temp_avg"@) == Some(a),
        t.at("gpu_temp_avg"@) == Some(b),
        a.billionths() is Some,
        b.billionths() is Some,
    ensures
        s.temps matches Some(p) && p.0 == a.billionths()->0 && p.1 == b.billionths()->0,
{
}

} // verus!
