//! Rolling up token usage from session transcripts.
//!
//! Costs are whole hundred-millionths of a dollar: tokens times cents per
//! million tokens. Sums stop at the largest number that their type holds.

use vstd::hash_set::StringHashSet;
use vstd::prelude::*;
use crate::json;
use crate::json::Json;
use crate::text;

verus! {

// ---------------------------------------------------------------------------
// Models.
// ---------------------------------------------------------------------------

/// Prices in cents per million tokens: input, output, cache read, cache write.
pub open spec fn prices(lowered: Seq<char>) -> (int, int, int, int) {
    if text::holds(lowered, "opus"@) {
        (500, 2500, 50, 625)
    } else if text::holds(lowered, "haiku"@) {
        (100, 500, 10, 125)
    } else {
        (300, 1500, 30, 375)
    }
}

/// The prices of a model, given its lowercased name.
pub fn prices_of(lowered: &str) -> (r: (u64, u64, u64, u64))
    ensures
        (r.0 as int, r.1 as int, r.2 as int, r.3 as int) == prices(lowered@),
        r.0 <= 2500 && r.1 <= 2500 && r.2 <= 2500 && r.3 <= 2500,
{
    if text::contains(lowered, "opus") {
        (500, 2500, 50, 625)
    } else if text::contains(lowered, "haiku") {
        (100, 500, 10, 125)
    } else {
        (300, 1500, 30, 375)
    }
}

/// Per-million-token prices of a model in cents. Reading from the cache costs a
/// tenth of input, writing to it one and a quarter.
pub fn pricing(model: &str) -> (r: (u64, u64, u64, u64))
    ensures
        (r.0 as int, r.1 as int, r.2 as int, r.3 as int) == prices(text::lowercase(model@)),
        r.0 <= 2500 && r.1 <= 2500 && r.2 <= 2500 && r.3 <= 2500,
{
    let low = text::lower(model);
    prices_of(low.as_str())
}

/// Cache prices follow from the input price for every model.
pub proof fn cache_prices_follow_input(lowered: Seq<char>)
    ensures
        prices(lowered).2 * 10 == prices(lowered).0,
        prices(lowered).3 * 4 == prices(lowered).0 * 5,
{
}

/// The short name of a model, given its lowercased name.
pub open spec fn short_name(model: Seq<char>, lowered: Seq<char>) -> Seq<char> {
    if text::holds(lowered, "opus"@) {
        "Opus"@
    } else if text::holds(lowered, "sonnet"@) {
        "Sonnet"@
    } else if text::holds(lowered, "haiku"@) {
        "Haiku"@
    } else {
        model
    }
}

/// The short name of a model, given its lowercased name.
pub fn shorten_model(model: &str, lowered: &str) -> (r: String)
    ensures
        r@ == short_name(model@, lowered@),
{
    if text::contains(lowered, "opus") {
        "Opus".to_string()
    } else if text::contains(lowered, "sonnet") {
        "Sonnet".to_string()
    } else if text::contains(lowered, "haiku") {
        "Haiku".to_string()
    } else {
        model.to_string()
    }
}

/// The short name of a model.
pub fn short_model(model: &str) -> (r: String)
    ensures
        r@ == short_name(model@, text::lowercase(model@)),
{
    let low = text::lower(model);
    shorten_model(model, low.as_str())
}

// ---------------------------------------------------------------------------
// Rows.
// ---------------------------------------------------------------------------

/// What [`instant_of`] returns.
pub uninterp spec fn rfc3339(s: Seq<char>) -> Option<(i64, u32)>;

/// Calls `chrono::DateTime::parse_from_rfc3339` and reads the instant as Unix
/// seconds and nanoseconds. The result is named by [`rfc3339`]; there is none
/// where the text is no such date.
#[verifier::external_body]
pub(crate) fn instant_of(s: &str) -> (r: Option<(i64, u32)>)
    ensures
        r == rfc3339(s@),
{
    chrono::DateTime::parse_from_rfc3339(s)
        .ok()
        .map(|d| (d.timestamp(), d.timestamp_subsec_nanos()))
}

/// One answer of a model in a transcript.
pub struct Row {
    /// What tells replays of the same answer apart from others.
    pub request: Option<String>,
    /// When it was given: Unix seconds and nanoseconds.
    pub at: Option<(i64, u32)>,
    pub model: String,
    pub input: u64,
    pub output: u64,
    pub cache_read: u64,
    pub cache_write: u64,
    pub session: Option<String>,
}

/// The text of an optional string.
pub open spec fn opt(s: Option<String>) -> Option<Seq<char>> {
    match s {
        Some(x) => Some(x@),
        None => None,
    }
}

/// The usage record of a transcript line: the message's, else the line's own.
pub open spec fn usage_record(v: Json) -> Option<Json> {
    match v.at("message"@) {
        Some(m) => match m.at("usage"@) {
            Some(u) => Some(u),
            None => v.at("usage"@),
        },
        None => v.at("usage"@),
    }
}

/// The request a line answers: its request number, else its message's.
pub open spec fn request_id(v: Json) -> Option<Seq<char>> {
    match v.text_at("requestId"@) {
        Some(s) => Some(s),
        None => match v.at("message"@) {
            Some(m) => m.text_at("id"@),
            None => None,
        },
    }
}

/// The model that gave the answer.
pub open spec fn model_name(v: Json) -> Seq<char> {
    match v.at("message"@) {
        Some(m) => match m.text_at("model"@) {
            Some(s) => s,
            None => "unknown"@,
        },
        None => "unknown"@,
    }
}

/// A count in a usage record, zero where there is none.
pub open spec fn count(u: Json, key: Seq<char>) -> int {
    match u.at(key) {
        Some(j) => match j.natural() {
            Some(n) => n,
            None => 0,
        },
        None => 0,
    }
}

/// When a line was written.
pub open spec fn written_at(v: Json) -> Option<(i64, u32)> {
    match v.text_at("timestamp"@) {
        Some(s) => rfc3339(s),
        None => rfc3339(""@),
    }
}

/// A row holds what a transcript line says.
pub open spec fn row_says(row: Row, v: Json, u: Json) -> bool {
    &&& opt(row.request) == request_id(v)
    &&& row.at == written_at(v)
    &&& row.model@ == model_name(v)
    &&& row.input == count(u, "input_tokens"@)
    &&& row.output == count(u, "output_tokens"@)
    &&& row.cache_read == count(u, "cache_read_input_tokens"@)
    &&& row.cache_write == count(u, "cache_creation_input_tokens"@)
    &&& opt(row.session) == v.text_at("sessionId"@)
}

fn read_count(u: &Json, key: &str) -> (r: u64)
    ensures
        r == count(*u, key@),
{
    match u.get(key) {
        Some(j) => match j.as_u64() {
            Some(n) => n,
            None => 0,
        },
        None => 0,
    }
}

fn owned(s: Option<&str>) -> (r: Option<String>)
    ensures
        opt(r) == match s {
            Some(x) => Some(x@),
            None => None,
        },
{
    match s {
        Some(x) => Some(x.to_string()),
        None => None,
    }
}

/// Reads one parsed transcript line; lines without usage are passed over.
pub fn read_row(v: &Json) -> (r: Option<Row>)
    ensures
        match r {
            Some(row) => usage_record(*v) is Some && row_says(row, *v, usage_record(*v)->0),
            None => usage_record(*v) is None,
        },
{
    let message = v.get("message");
    let usage = match message {
        Some(m) => match m.get("usage") {
            Some(u) => Some(u),
            None => v.get("usage"),
        },
        None => v.get("usage"),
    };
    match usage {
        None => None,
        Some(u) => {
            let request = match v.str_at("requestId") {
                Some(s) => Some(s),
                None => match message {
                    Some(m) => m.str_at("id"),
                    None => None,
                },
            };
            let model = match message {
                Some(m) => match m.str_at("model") {
                    Some(s) => s,
                    None => "unknown",
                },
                None => "unknown",
            };
            let stamp = match v.str_at("timestamp") {
                Some(s) => s,
                None => "",
            };
            Some(
                Row {
                    request: owned(request),
                    at: instant_of(stamp),
                    model: model.to_string(),
                    input: read_count(u, "input_tokens"),
                    output: read_count(u, "output_tokens"),
                    cache_read: read_count(u, "cache_read_input_tokens"),
                    cache_write: read_count(u, "cache_creation_input_tokens"),
                    session: owned(v.str_at("sessionId")),
                },
            )
        },
    }
}

/// Reads one line of a transcript: only JSON lines with usage count.
pub fn row_of_line(line: &str) -> (r: Option<Row>)
    ensures
        match r {
            Some(row) => {
                &&& text::holds(line@, "\"usage\""@)
                &&& json::document(line@) is Some
                &&& usage_record(json::document(line@)->0) is Some
                &&& row_says(row, json::document(line@)->0, usage_record(json::document(line@)->0)->0)
            },
            None => !text::holds(line@, "\"usage\""@) || json::document(line@) is None
                || usage_record(json::document(line@)->0) is None,
        },
{
    if !text::contains(line, "\"usage\"") {
        return None;
    }
    match json::parse_json(line) {
        None => None,
        Some(v) => read_row(&v),
    }
}

// ---------------------------------------------------------------------------
// Time.
// ---------------------------------------------------------------------------

/// Seconds of a day.
pub const DAY: i64 = 86_400;

/// One instant is before another.
pub open spec fn before(a: (int, int), b: (int, int)) -> bool {
    a.0 < b.0 || (a.0 == b.0 && a.1 < b.1)
}

/// The number of the local day at an instant, given the offset from UTC.
pub open spec fn local_day(secs: int, offset: int) -> int {
    (secs + offset) / DAY as int
}

/// The local hour at an instant, given the offset from UTC.
pub open spec fn local_hour(secs: int, offset: int) -> int {
    (secs + offset) % DAY as int / 3600
}

/// The moment of a scan: an instant and the offset from UTC at it, in seconds.
#[derive(Clone, Copy, Debug)]
pub struct Moment {
    pub secs: i64,
    pub nanos: u32,
    pub offset: i32,
}

fn day_of(secs: i64, offset: i32) -> (r: i128)
    ensures
        r == local_day(secs as int, offset as int),
{
    let n: i128 = secs as i128 + offset as i128;
    let day: i128 = DAY as i128;
    if n >= 0 {
        n / day
    } else {
        -((-1 - n) / day) - 1
    }
}

fn hour_of(secs: i64, offset: i32) -> (r: usize)
    ensures
        r == local_hour(secs as int, offset as int),
        r < 24,
{
    let n: i128 = secs as i128 + offset as i128;
    let rest: i128 = n - day_of(secs, offset) * DAY as i128;
    (rest / 3600) as usize
}

/// Can a file that was last changed at `changed` hold rows of the last thirty
/// days? One day of slack covers the edges of time zones.
pub fn may_hold_rows(changed: i64, now: i64) -> (r: bool)
    ensures
        r == (changed >= now - 31 * DAY),
{
    changed as i128 >= now as i128 - 31 * DAY as i128
}

// ---------------------------------------------------------------------------
// The tally.
// ---------------------------------------------------------------------------

/// What has been counted, as mathematical values.
pub struct Tally {
    pub seen: Set<Seq<char>>,
    pub sessions: Set<Seq<char>>,
    pub sessions_30d: Set<Seq<char>>,
    pub models: Seq<(Seq<char>, int)>,
    pub hourly: Seq<int>,
    pub input: int,
    pub output: int,
    pub cache_read: int,
    pub cache_write: int,
    pub cost: int,
    pub messages: int,
    pub tokens_7d: int,
    pub tokens_30d: int,
}

/// A sum that stops at the largest 64-bit number.
pub open spec fn capped(n: int) -> int {
    if n <= u64::MAX {
        n
    } else {
        u64::MAX as int
    }
}

/// A sum that stops at the largest 128-bit number.
pub open spec fn capped_wide(n: int) -> int {
    if n <= u128::MAX {
        n
    } else {
        u128::MAX as int
    }
}

/// All tokens of a row.
pub open spec fn tokens(row: Row) -> int {
    row.input + row.output + row.cache_read + row.cache_write
}

/// What a row costs.
pub open spec fn cost(row: Row) -> int {
    let p = prices(text::lowercase(row.model@));
    row.input * p.0 + row.output * p.1 + row.cache_read * p.2 + row.cache_write * p.3
}

/// Where a model stands from `i` on, or the length.
pub open spec fn model_from(models: Seq<(Seq<char>, int)>, name: Seq<char>, i: int) -> int
    decreases models.len() - i,
{
    if i < 0 || i >= models.len() {
        models.len() as int
    } else if models[i].0 == name {
        i
    } else {
        model_from(models, name, i + 1)
    }
}

/// One more answer of a model.
pub open spec fn with_model(models: Seq<(Seq<char>, int)>, name: Seq<char>) -> Seq<
    (Seq<char>, int),
> {
    let i = model_from(models, name, 0);
    if i < models.len() {
        models.update(i, (name, capped(models[i].1 + 1)))
    } else {
        models.push((name, 1))
    }
}

/// A set with an optional text.
pub open spec fn with_text(s: Set<Seq<char>>, x: Option<Seq<char>>) -> Set<Seq<char>> {
    match x {
        Some(t) => s.insert(t),
        None => s,
    }
}

/// A row that was counted before.
pub open spec fn replayed(t: Tally, row: Row) -> bool {
    opt(row.request) matches Some(id) && t.seen.contains(id)
}

/// What counts a row for the last thirty days, and for seven days.
pub open spec fn with_recent(t: Tally, row: Row, at: (int, int), now: Moment) -> Tally {
    Tally {
        tokens_30d: capped(t.tokens_30d + tokens(row)),
        sessions_30d: with_text(t.sessions_30d, opt(row.session)),
        tokens_7d: if before(at, (now.secs - 7 * DAY, now.nanos as int)) {
            t.tokens_7d
        } else {
            capped(t.tokens_7d + tokens(row))
        },
        ..t
    }
}

/// What counts a row for today.
pub open spec fn with_today(t: Tally, row: Row, hour: int) -> Tally {
    Tally {
        input: capped(t.input + row.input),
        output: capped(t.output + row.output),
        cache_read: capped(t.cache_read + row.cache_read),
        cache_write: capped(t.cache_write + row.cache_write),
        cost: capped_wide(t.cost + cost(row)),
        messages: capped(t.messages + 1),
        models: with_model(t.models, row.model@),
        sessions: with_text(t.sessions, opt(row.session)),
        hourly: t.hourly.update(hour, capped(t.hourly[hour] + tokens(row))),
        ..t
    }
}

/// One more row. A replay of a counted request changes nothing; a row without a
/// readable time or older than thirty days is only remembered.
pub open spec fn tallied(t: Tally, row: Row, now: Moment, offset: int) -> Tally {
    if replayed(t, row) {
        t
    } else {
        let noted = Tally { seen: with_text(t.seen, opt(row.request)), ..t };
        match row.at {
            None => noted,
            Some(at) => if before(
                (at.0 as int, at.1 as int),
                (now.secs - 30 * DAY, now.nanos as int),
            ) {
                noted
            } else {
                let recent = with_recent(noted, row, (at.0 as int, at.1 as int), now);
                if local_day(at.0 as int, offset) == local_day(now.secs as int, now.offset as int) {
                    with_today(recent, row, local_hour(at.0 as int, offset))
                } else {
                    recent
                }
            },
        }
    }
}

/// Nothing counted yet.
pub open spec fn nothing() -> Tally {
    Tally {
        seen: Set::empty(),
        sessions: Set::empty(),
        sessions_30d: Set::empty(),
        models: seq![],
        hourly: Seq::new(24, |i: int| 0int),
        input: 0,
        output: 0,
        cache_read: 0,
        cache_write: 0,
        cost: 0,
        messages: 0,
        tokens_7d: 0,
        tokens_30d: 0,
    }
}

/// A scan in progress.
pub struct UsageScan {
    pub seen: StringHashSet,
    pub sessions: StringHashSet,
    pub sessions_30d: StringHashSet,
    pub models: Vec<(String, u64)>,
    pub hourly: Vec<u64>,
    pub input: u64,
    pub output: u64,
    pub cache_read: u64,
    pub cache_write: u64,
    pub cost: u128,
    pub messages: u64,
    pub tokens_7d: u64,
    pub tokens_30d: u64,
}

/// Model counts as mathematical values.
pub open spec fn model_counts(v: Seq<(String, u64)>) -> Seq<(Seq<char>, int)> {
    Seq::new(v.len(), |i: int| (v[i].0@, v[i].1 as int))
}

/// Counts as mathematical values.
pub open spec fn ints(v: Seq<u64>) -> Seq<int> {
    Seq::new(v.len(), |i: int| v[i] as int)
}

fn sum(a: u64, b: u64) -> (r: u64)
    ensures
        r == capped(a + b),
{
    if a <= u64::MAX - b {
        a + b
    } else {
        u64::MAX
    }
}

fn sum_wide(a: u64, b: u128) -> (r: u64)
    ensures
        r == capped(a + b),
{
    if b <= (u64::MAX - a) as u128 {
        a + b as u64
    } else {
        u64::MAX
    }
}

impl UsageScan {
    /// What has been counted.
    pub open spec fn tally(&self) -> Tally {
        Tally {
            seen: self.seen@,
            sessions: self.sessions@,
            sessions_30d: self.sessions_30d@,
            models: model_counts(self.models@),
            hourly: ints(self.hourly@),
            input: self.input as int,
            output: self.output as int,
            cache_read: self.cache_read as int,
            cache_write: self.cache_write as int,
            cost: self.cost as int,
            messages: self.messages as int,
            tokens_7d: self.tokens_7d as int,
            tokens_30d: self.tokens_30d as int,
        }
    }

    /// There is a count for each hour of the day.
    pub open spec fn wf(&self) -> bool {
        self.hourly@.len() == 24
    }

    /// A scan that has counted nothing.
    pub fn new() -> (r: UsageScan)
        ensures
            r.wf(),
            r.tally() == nothing(),
    {
        let mut hourly: Vec<u64> = Vec::new();
        let mut i: usize = 0;
        while i < 24
            invariant
                i <= 24,
                hourly@.len() == i,
                forall|j: int| 0 <= j < i ==> hourly@[j] == 0,
            decreases 24 - i,
        {
            hourly.push(0);
            i += 1;
        }
        let r = UsageScan {
            seen: StringHashSet::new(),
            sessions: StringHashSet::new(),
            sessions_30d: StringHashSet::new(),
            models: Vec::new(),
            hourly,
            input: 0,
            output: 0,
            cache_read: 0,
            cache_write: 0,
            cost: 0,
            messages: 0,
            tokens_7d: 0,
            tokens_30d: 0,
        };
        proof {
            assert(r.tally().models =~= nothing().models);
            assert(r.tally().hourly =~= nothing().hourly);
        }
        r
    }

    fn add_model(&mut self, name: &str)
        ensures
            model_counts(final(self).models@) == with_model(
                model_counts(old(self).models@),
                name@,
            ),
            *final(self) == (UsageScan { models: final(self).models, ..*old(self) }),
    {
        let ghost list = model_counts(self.models@);
        let mut i: usize = 0;
        while i < self.models.len()
            invariant
                i <= self.models@.len(),
                *self == *old(self),
                list == model_counts(self.models@),
                model_from(list, name@, 0) == model_from(list, name@, i as int),
            decreases self.models@.len() - i,
        {
            if text::same_str(self.models[i].0.as_str(), name) {
                let n: u64 = sum(self.models[i].1, 1);
                self.models.set(i, (name.to_string(), n));
                proof {
                    assert(model_counts(self.models@) =~= list.update(
                        i as int,
                        (name@, capped(list[i as int].1 + 1)),
                    ));
                }
                return;
            }
            i += 1;
        }
        self.models.push((name.to_string(), 1));
        proof {
            assert(model_counts(self.models@) =~= list.push((name@, 1)));
        }
    }

    fn add_today(&mut self, row: &Row, hour: usize)
        requires
            old(self).wf(),
            hour < 24,
        ensures
            final(self).wf(),
            final(self).tally() == with_today(old(self).tally(), *row, hour as int),
    {
        let p = pricing(row.model.as_str());
        let all: u128 = row.input as u128 + row.output as u128 + row.cache_read as u128
            + row.cache_write as u128;
        proof {
            assert(row.input * p.0 <= u64::MAX * 2500) by (nonlinear_arith)
                requires
                    row.input <= u64::MAX,
                    p.0 <= 2500,
            ;
            assert(row.output * p.1 <= u64::MAX * 2500) by (nonlinear_arith)
                requires
                    row.output <= u64::MAX,
                    p.1 <= 2500,
            ;
            assert(row.cache_read * p.2 <= u64::MAX * 2500) by (nonlinear_arith)
                requires
                    row.cache_read <= u64::MAX,
                    p.2 <= 2500,
            ;
            assert(row.cache_write * p.3 <= u64::MAX * 2500) by (nonlinear_arith)
                requires
                    row.cache_write <= u64::MAX,
                    p.3 <= 2500,
            ;
        }
        let price: u128 = row.input as u128 * p.0 as u128 + row.output as u128 * p.1 as u128
            + row.cache_read as u128 * p.2 as u128 + row.cache_write as u128 * p.3 as u128;
        self.input = sum(self.input, row.input);
        self.output = sum(self.output, row.output);
        self.cache_read = sum(self.cache_read, row.cache_read);
        self.cache_write = sum(self.cache_write, row.cache_write);
        self.cost = if self.cost <= u128::MAX - price {
            self.cost + price
        } else {
            u128::MAX
        };
        self.messages = sum(self.messages, 1);
        self.add_model(row.model.as_str());
        match &row.session {
            Some(id) => {
                self.sessions.insert(id.clone());
            },
            None => {},
        }
        let n: u64 = sum_wide(self.hourly[hour], all);
        self.hourly.set(hour, n);
        proof {
            let want = with_today(old(self).tally(), *row, hour as int);
            assert(self.tally().hourly =~= want.hourly);
            assert(self.tally().cost == want.cost);
        }
    }

    /// Counts one row; `offset` is the local offset from UTC at the row's time.
    pub fn add_row(&mut self, row: &Row, now: Moment, offset: i32)
        requires
            old(self).wf(),
        ensures
            final(self).wf(),
            final(self).tally() == tallied(old(self).tally(), *row, now, offset as int),
    {
        match &row.request {
            Some(id) => {
                if !self.seen.insert(id.clone()) {
                    proof {
                        assert(self.tally().seen =~= old(self).tally().seen);
                    }
                    return;
                }
            },
            None => {},
        }
        let at: (i64, u32) = match row.at {
            Some(x) => x,
            None => {
                return;
            },
        };
        let day: i128 = DAY as i128;
        let secs: i128 = at.0 as i128;
        let month_ago: i128 = now.secs as i128 - 30 * day;
        if secs < month_ago || (secs == month_ago && at.1 < now.nanos) {
            return;
        }
        let all: u128 = row.input as u128 + row.output as u128 + row.cache_read as u128
            + row.cache_write as u128;
        self.tokens_30d = sum_wide(self.tokens_30d, all);
        match &row.session {
            Some(id) => {
                self.sessions_30d.insert(id.clone());
            },
            None => {},
        }
        let week_ago: i128 = now.secs as i128 - 7 * day;
        if !(secs < week_ago || (secs == week_ago && at.1 < now.nanos)) {
            self.tokens_7d = sum_wide(self.tokens_7d, all);
        }
        if day_of(at.0, offset) == day_of(now.secs, now.offset) {
            self.add_today(row, hour_of(at.0, offset));
        }
    }
}

/// The last of the models with the most answers among the first `n`.
pub open spec fn most_used(models: Seq<(Seq<char>, int)>, n: nat) -> Option<int>
    decreases n,
{
    if n == 0 {
        None
    } else {
        match most_used(models, (n - 1) as nat) {
            Some(i) => if models[n - 1].1 >= models[i].1 {
                Some(n - 1)
            } else {
                Some(i)
            },
            None => Some(n - 1),
        }
    }
}

/// No model has more answers than the most used one.
pub proof fn most_used_is_most(models: Seq<(Seq<char>, int)>, n: nat)
    requires
        n <= models.len(),
    ensures
        match most_used(models, n) {
            None => n == 0,
            Some(i) => 0 <= i < n && forall|j: int| 0 <= j < n ==> models[j].1 <= models[i].1,
        },
    decreases n,
{
    if n > 0 {
        most_used_is_most(models, (n - 1) as nat);
    }
}

/// Usage of today and of the last week and month.
pub struct UsageStats {
    pub fresh: bool,
    pub today_input: u64,
    pub today_output: u64,
    pub today_cache_read: u64,
    pub today_cache_write: u64,
    /// In hundred-millionths of a dollar.
    pub today_cost: u128,
    pub today_messages: u64,
    pub top_model: String,
    pub sessions_today: u64,
    pub tokens_7d: u64,
    pub tokens_30d: u64,
    pub sessions_30d: u64,
    /// Tokens per hour of today.
    pub hourly: Vec<u64>,
}

/// The short name of the most used model, empty where none was used.
pub open spec fn top_name(models: Seq<(Seq<char>, int)>) -> Seq<char> {
    match most_used(models, models.len()) {
        None => seq![],
        Some(i) => short_name(models[i].0, text::lowercase(models[i].0)),
    }
}

/// The stats report what was counted.
pub open spec fn reports(s: UsageStats, t: Tally) -> bool {
    &&& s.fresh
    &&& s.today_input == t.input
    &&& s.today_output == t.output
    &&& s.today_cache_read == t.cache_read
    &&& s.today_cache_write == t.cache_write
    &&& s.today_cost == t.cost
    &&& s.today_messages == t.messages
    &&& s.top_model@ == top_name(t.models)
    &&& s.sessions_today == t.sessions.len()
    &&& s.sessions_30d == t.sessions_30d.len()
    &&& s.tokens_7d == t.tokens_7d
    &&& s.tokens_30d == t.tokens_30d
    &&& ints(s.hourly@) == t.hourly
}

impl UsageScan {
    /// The stats at the end of a scan.
    pub fn finish(self) -> (r: UsageStats)
        ensures
            reports(r, self.tally()),
    {
        let ghost list = model_counts(self.models@);
        let mut best: Option<usize> = None;
        let mut i: usize = 0;
        while i < self.models.len()
            invariant
                i <= self.models@.len(),
                list == model_counts(self.models@),
                match best {
                    Some(k) => most_used(list, i as nat) == Some(k as int) && k < i,
                    None => most_used(list, i as nat) is None,
                },
            decreases self.models@.len() - i,
        {
            match best {
                Some(k) => {
                    if self.models[i].1 >= self.models[k].1 {
                        best = Some(i);
                    }
                },
                None => {
                    best = Some(i);
                },
            }
            i += 1;
        }
        let top_model = match best {
            Some(k) => short_model(self.models[k].0.as_str()),
            None => String::new(),
        };
        let today: usize = self.sessions.len();
        let month: usize = self.sessions_30d.len();
        UsageStats {
            fresh: true,
            today_input: self.input,
            today_output: self.output,
            today_cache_read: self.cache_read,
            today_cache_write: self.cache_write,
            today_cost: self.cost,
            today_messages: self.messages,
            top_model,
            sessions_today: today as u64,
            tokens_7d: self.tokens_7d,
            tokens_30d: self.tokens_30d,
            sessions_30d: month as u64,
            hourly: self.hourly,
        }
    }
}

// ---------------------------------------------------------------------------
// Laws of the tally.
// ---------------------------------------------------------------------------

/// A request is counted once: any later row for it changes nothing, however the
/// transcript that replays it differs.
pub proof fn requests_count_once(
    t: Tally,
    first: Row,
    again: Row,
    now: Moment,
    offset: int,
    other: int,
)
    requires
        first.request is Some,
        opt(again.request) == opt(first.request),
    ensures
        ({
            let once = tallied(t, first, now, offset);
            tallied(once, again, now, other) == once
        }),
{
}

/// Rows older than thirty days and rows without a time leave every count alone.
pub proof fn old_rows_do_not_count(t: Tally, row: Row, now: Moment, offset: int)
    requires
        row.at matches Some(at) ==> before(
            (at.0 as int, at.1 as int),
            (now.secs - 30 * DAY, now.nanos as int),
        ),
    ensures
        ({
            let after = tallied(t, row, now, offset);
            after == (Tally { seen: after.seen, ..t })
        }),
{
}

/// What counts for seven days counts for thirty: the longer window never holds
/// less than the shorter one.
pub proof fn month_holds_the_week(t: Tally, row: Row, now: Moment, offset: int)
    requires
        0 <= t.tokens_7d <= t.tokens_30d <= u64::MAX,
    ensures
        tallied(t, row, now, offset).tokens_7d <= tallied(t, row, now, offset).tokens_30d,
{
}

/// All tokens of today.
pub open spec fn today(t: Tally) -> int {
    t.input + t.output + t.cache_read + t.cache_write
}

/// The sum of counts.
pub open spec fn total(v: Seq<int>) -> int
    decreases v.len(),
{
    if v.len() == 0 {
        0
    } else {
        total(v.drop_last()) + v.last()
    }
}

proof fn total_of_update(v: Seq<int>, i: int, x: int)
    requires
        0 <= i < v.len(),
    ensures
        total(v.update(i, x)) == total(v) - v[i] + x,
    decreases v.len(),
{
    let u = v.update(i, x);
    if i == v.len() - 1 {
        assert(u.drop_last() =~= v.drop_last());
    } else {
        total_of_update(v.drop_last(), i, x);
        assert(u.drop_last() =~= v.drop_last().update(i, x));
    }
}

proof fn total_of_zeros(n: nat)
    ensures
        total(Seq::new(n, |i: int| 0int)) == 0,
    decreases n,
{
    let v = Seq::new(n, |i: int| 0int);
    if n > 0 {
        total_of_zeros((n - 1) as nat);
        assert(v.drop_last() =~= Seq::new((n - 1) as nat, |i: int| 0int));
    }
}

/// No part of a sum of counts is larger than the sum.
proof fn part_of_total(v: Seq<int>, i: int)
    requires
        0 <= i < v.len(),
        forall|k: int| 0 <= k < v.len() ==> 0 <= #[trigger] v[k],
    ensures
        v[i] <= total(v),
        0 <= total(v),
    decreases v.len(),
{
    let w = v.drop_last();
    assert forall|k: int| 0 <= k < w.len() implies 0 <= #[trigger] w[k] by {
        assert(w[k] == v[k]);
    }
    assert(0 <= v[v.len() - 1]);
    if i < v.len() - 1 {
        part_of_total(w, i);
        assert(w[i] == v[i]);
    } else if w.len() > 0 {
        part_of_total(w, 0);
    }
    assert(0 <= total(w));
}

/// The windows of a tally hold each other, as long as no count has run full: today is in the
/// week, the week in the month, and the hours make up today.
pub open spec fn nested(t: Tally) -> bool {
    &&& t.hourly.len() == 24 && forall|k: int| 0 <= k < 24 ==> 0 <= #[trigger] t.hourly[k]
    &&& 0 <= t.input && 0 <= t.output && 0 <= t.cache_read && 0 <= t.cache_write
    &&& 0 <= t.tokens_7d && 0 <= t.tokens_30d <= u64::MAX
    &&& t.sessions.finite() && t.sessions_30d.finite() && t.sessions.subset_of(t.sessions_30d)
    &&& t.tokens_30d < u64::MAX ==> {
        &&& today(t) <= t.tokens_7d <= t.tokens_30d
        &&& total(t.hourly) == today(t)
    }
}

/// An offset from UTC is less than a day.
pub open spec fn real_offset(offset: int) -> bool {
    -DAY < offset < DAY
}

proof fn todays_rows_are_recent(at: int, offset: int, now: Moment)
    requires
        real_offset(offset),
        real_offset(now.offset as int),
        local_day(at, offset) == local_day(now.secs as int, now.offset as int),
    ensures
        at > now.secs - 7 * DAY,
        0 <= local_hour(at, offset) < 24,
{
}

proof fn counting_keeps_nested(t: Tally, row: Row, now: Moment, offset: int)
    requires
        nested(t),
        real_offset(offset),
        real_offset(now.offset as int),
    ensures
        nested(tallied(t, row, now, offset)),
{
    let after = tallied(t, row, now, offset);
    if !replayed(t, row) && row.at is Some {
        let at = row.at->0;
        let noted = Tally { seen: with_text(t.seen, opt(row.request)), ..t };
        if !before((at.0 as int, at.1 as int), (now.secs - 30 * DAY, now.nanos as int)) {
            let recent = with_recent(noted, row, (at.0 as int, at.1 as int), now);
            let same_day = local_day(at.0 as int, offset) == local_day(
                now.secs as int,
                now.offset as int,
            );
            assert(0 <= tokens(row));
            if same_day {
                let h = local_hour(at.0 as int, offset);
                todays_rows_are_recent(at.0 as int, offset, now);
                part_of_total(t.hourly, h);
                total_of_update(t.hourly, h, capped(t.hourly[h] + tokens(row)));
                assert(after.hourly == t.hourly.update(h, capped(t.hourly[h] + tokens(row))));
            }
        }
    }
}

/// What rows, each with the local offset from UTC at its time, add up to.
pub open spec fn tally_of(rows: Seq<(Row, int)>, now: Moment) -> Tally
    decreases rows.len(),
{
    if rows.len() == 0 {
        nothing()
    } else {
        tallied(tally_of(rows.drop_last(), now), rows.last().0, now, rows.last().1)
    }
}

proof fn tallies_are_nested(rows: Seq<(Row, int)>, now: Moment)
    requires
        real_offset(now.offset as int),
        forall|i: int| 0 <= i < rows.len() ==> real_offset((#[trigger] rows[i]).1),
    ensures
        nested(tally_of(rows, now)),
    decreases rows.len(),
{
    if rows.len() == 0 {
        total_of_zeros(24);
    } else {
        let front = rows.drop_last();
        assert forall|i: int| 0 <= i < front.len() implies real_offset((#[trigger] front[i]).1) by {
            assert(front[i] == rows[i]);
        }
        tallies_are_nested(front, now);
        assert(rows[rows.len() - 1] == rows.last());
        counting_keeps_nested(tally_of(front, now), rows.last().0, now, rows.last().1);
    }
}

/// Whatever rows a scan reads, what it reports adds up: the tokens of today are among those
/// of seven days, those among the ones of thirty days, the hours make up today, and a session
/// of today is one of the month. The sums speak of counts that have not run full.
pub proof fn usage_adds_up(rows: Seq<(Row, int)>, now: Moment, s: UsageStats)
    requires
        real_offset(now.offset as int),
        forall|i: int| 0 <= i < rows.len() ==> real_offset((#[trigger] rows[i]).1),
        reports(s, tally_of(rows, now)),
    ensures
        s.fresh,
        s.hourly@.len() == 24,
        s.sessions_today <= s.sessions_30d,
        s.tokens_30d < u64::MAX ==> {
            let day = s.today_input + s.today_output + s.today_cache_read + s.today_cache_write;
            &&& day <= s.tokens_7d <= s.tokens_30d
            &&& total(ints(s.hourly@)) == day
        },
{
    let t = tally_of(rows, now);
    tallies_are_nested(rows, now);
    assert(ints(s.hourly@).len() == s.hourly@.len());
    vstd::set_lib::lemma_len_subset(t.sessions, t.sessions_30d);
}

proof fn read_requests_are_seen(rows: Seq<(Row, int)>, now: Moment, k: int)
    requires
        0 <= k < rows.len(),
        rows[k].0.request is Some,
    ensures
        tally_of(rows, now).seen.contains(opt(rows[k].0.request)->0),
    decreases rows.len(),
{
    if k < rows.len() - 1 {
        read_requests_are_seen(rows.drop_last(), now, k);
        assert(rows.drop_last()[k] == rows[k]);
    }
}

/// A scan that reads a request again, in whatever transcript and at whatever offset, reports
/// what it reported before.
pub proof fn replays_change_nothing(
    rows: Seq<(Row, int)>,
    now: Moment,
    k: int,
    again: Row,
    offset: int,
)
    requires
        0 <= k < rows.len(),
        rows[k].0.request is Some,
        opt(again.request) == opt(rows[k].0.request),
    ensures
        tally_of(rows.push((again, offset)), now) == tally_of(rows, now),
{
    read_requests_are_seen(rows, now, k);
    assert(rows.push((again, offset)).drop_last() =~= rows);
}

// ---------------------------------------------------------------------------
// What a row counts and costs.
// ---------------------------------------------------------------------------

/// A row costs its tokens at the price of their own kind, in cents for a million: an Opus model
/// takes 500 for input, 2500 for output, 50 for reading from the cache and 625 for writing to
/// it; a Haiku model 100, 500, 10 and 125; any other 300, 1500, 30 and 375.
pub proof fn tokens_cost_the_price_of_their_kind(row: Row)
    ensures
        ({
            let low = text::lowercase(row.model@);
            let opus = text::holds(low, "opus"@);
            let haiku = text::holds(low, "haiku"@);
            &&& opus ==> cost(row) == 500 * row.input + 2500 * row.output + 50 * row.cache_read
                + 625 * row.cache_write
            &&& !opus && haiku ==> cost(row) == 100 * row.input + 500 * row.output + 10
                * row.cache_read + 125 * row.cache_write
            &&& !opus && !haiku ==> cost(row) == 300 * row.input + 1500 * row.output + 30
                * row.cache_read + 375 * row.cache_write
        }),
{
}

/// A million output tokens alone cost twenty-five dollars with an Opus model, five with a Haiku
/// model and fifteen with any other; costs are in hundred-millionths of a dollar.
pub proof fn a_million_answers_cost_their_price(row: Row)
    requires
        row.input == 0,
        row.cache_read == 0,
        row.cache_write == 0,
        row.output == 1_000_000,
    ensures
        text::holds(text::lowercase(row.model@), "opus"@) ==> cost(row) == 25 * 100_000_000,
        !text::holds(text::lowercase(row.model@), "opus"@) && text::holds(
            text::lowercase(row.model@),
            "haiku"@,
        ) ==> cost(row) == 5 * 100_000_000,
        !text::holds(text::lowercase(row.model@), "opus"@) && !text::holds(
            text::lowercase(row.model@),
            "haiku"@,
        ) ==> cost(row) == 15 * 100_000_000,
{
}

/// What two rows of a model cost together, one row with the tokens of both costs.
pub proof fn costs_add_up(a: Row, b: Row, both: Row)
    requires
        a.model@ == b.model@ && a.model@ == both.model@,
        both.input == a.input + b.input,
        both.output == a.output + b.output,
        both.cache_read == a.cache_read + b.cache_read,
        both.cache_write == a.cache_write + b.cache_write,
    ensures
        cost(both) == cost(a) + cost(b),
{
    tokens_cost_the_price_of_their_kind(a);
    tokens_cost_the_price_of_their_kind(b);
    tokens_cost_the_price_of_their_kind(both);
}

/// A row counts: it has a time no older than thirty days, and its request is new.
pub open spec fn counts(t: Tally, row: Row, now: Moment) -> bool {
    &&& row.request matches Some(id) ==> !t.seen.contains(id@)
    &&& row.at matches Some(at) && (at.0 > now.secs - 2_592_000 || (at.0 == now.secs - 2_592_000
        && at.1 >= now.nanos))
}

/// A row that counts adds all its tokens to those of thirty days, and to those of seven days
/// where it is no older than that; its session is one of the month, and its request is known.
pub proof fn recent_rows_count(t: Tally, row: Row, now: Moment, offset: int)
    requires
        counts(t, row, now),
    ensures
        ({
            let after = tallied(t, row, now, offset);
            let at = row.at->0;
            let all = row.input + row.output + row.cache_read + row.cache_write;
            let week = at.0 > now.secs - 604_800 || (at.0 == now.secs - 604_800 && at.1
                >= now.nanos);
            &&& t.tokens_30d + all <= u64::MAX ==> after.tokens_30d == t.tokens_30d + all
            &&& week && t.tokens_7d + all <= u64::MAX ==> after.tokens_7d == t.tokens_7d + all
            &&& !week ==> after.tokens_7d == t.tokens_7d
            &&& row.session matches Some(s) ==> after.sessions_30d == t.sessions_30d.insert(s@)
            &&& row.session is None ==> after.sessions_30d == t.sessions_30d
            &&& row.request matches Some(id) ==> after.seen == t.seen.insert(id@)
        }),
{
}

/// A row that counts, and was written on the local day of the scan, adds each kind of its
/// tokens to that kind of today, all of them to the local hour in which it was written, one
/// message, its session, and what it costs. A row of another day leaves all of today alone.
pub proof fn todays_rows_count_for_today(t: Tally, row: Row, now: Moment, offset: int)
    requires
        counts(t, row, now),
        t.hourly.len() == 24,
    ensures
        ({
            let after = tallied(t, row, now, offset);
            let local = (row.at->0).0 + offset;
            let hour = local % 86_400 / 3600;
            let all = row.input + row.output + row.cache_read + row.cache_write;
            if local / 86_400 == (now.secs + now.offset) / 86_400 {
                &&& t.input + row.input <= u64::MAX ==> after.input == t.input + row.input
                &&& t.output + row.output <= u64::MAX ==> after.output == t.output + row.output
                &&& t.cache_read + row.cache_read <= u64::MAX ==> after.cache_read == t.cache_read
                    + row.cache_read
                &&& t.cache_write + row.cache_write <= u64::MAX ==> after.cache_write
                    == t.cache_write + row.cache_write
                &&& t.messages + 1 <= u64::MAX ==> after.messages == t.messages + 1
                &&& t.cost + cost(row) <= u128::MAX ==> after.cost == t.cost + cost(row)
                &&& row.session matches Some(s) ==> after.sessions == t.sessions.insert(s@)
                &&& row.session is None ==> after.sessions == t.sessions
                &&& after.hourly.len() == 24
                &&& t.hourly[hour] + all <= u64::MAX ==> after.hourly[hour] == t.hourly[hour] + all
                &&& forall|h: int| 0 <= h < 24 && h != hour ==> after.hourly[h] == t.hourly[h]
                &&& after.models == with_model(t.models, row.model@)
            } else {
                &&& after.input == t.input && after.output == t.output
                &&& after.cache_read == t.cache_read && after.cache_write == t.cache_write
                &&& after.messages == t.messages && after.cost == t.cost
                &&& after.sessions == t.sessions && after.hourly == t.hourly
                &&& after.models == t.models
            }
        }),
{
}

/// An answer of a model adds one to the count of that model and leaves the others alone; a
/// model that answers for the first time is put at the end.
pub proof fn answers_are_counted_by_model(models: Seq<(Seq<char>, int)>, name: Seq<char>)
    requires
        forall|i: int, j: int| 0 <= i < j < models.len() ==> models[i].0 != models[j].0,
        forall|i: int| 0 <= i < models.len() ==> (#[trigger] models[i]).1 < u64::MAX,
    ensures
        ({
            let after = with_model(models, name);
            &&& (exists|i: int| 0 <= i < models.len() && (#[trigger] models[i]).0 == name)
                ==> after.len() == models.len()
            &&& (forall|i: int| 0 <= i < models.len() ==> (#[trigger] models[i]).0 != name)
                ==> after == models.push((name, 1))
            &&& forall|i: int|
                0 <= i < models.len() ==> (#[trigger] after[i]).0 == models[i].0 && after[i].1
                    == models[i].1 + (if models[i].0 == name {
                    1int
                } else {
                    0
                })
        }),
{
    place_of_model(models, name, 0);
}

proof fn place_of_model(models: Seq<(Seq<char>, int)>, name: Seq<char>, i: int)
    requires
        0 <= i <= models.len(),
    ensures
        i <= model_from(models, name, i) <= models.len(),
        forall|j: int| i <= j < model_from(models, name, i) ==> (#[trigger] models[j]).0 != name,
        model_from(models, name, i) < models.len() ==> models[model_from(models, name, i)].0
            == name,
    decreases models.len() - i,
{
    if i < models.len() && models[i].0 != name {
        place_of_model(models, name, i + 1);
    }
}

/// The model that is shown is one that gave the most answers, the last of them where several
/// did, under its short name.
pub proof fn top_model_answered_most(models: Seq<(Seq<char>, int)>)
    requires
        models.len() > 0,
    ensures
        exists|k: int|
            {
                &&& 0 <= k < models.len()
                &&& forall|j: int| 0 <= j < models.len() ==> (#[trigger] models[j]).1 <= models[k].1
                &&& forall|j: int| k < j < models.len() ==> (#[trigger] models[j]).1 < models[k].1
                &&& top_name(models) == short_name(
                    (#[trigger] models[k]).0,
                    text::lowercase(models[k].0),
                )
            },
{
    last_of_the_most(models, models.len());
    let k = most_used(models, models.len())->0;
    assert(top_name(models) == short_name(models[k].0, text::lowercase(models[k].0)));
}

proof fn last_of_the_most(models: Seq<(Seq<char>, int)>, n: nat)
    requires
        0 < n <= models.len(),
    ensures
        most_used(models, n) matches Some(k) && 0 <= k < n && (forall|j: int|
            0 <= j < n ==> (#[trigger] models[j]).1 <= models[k].1) && (forall|j: int|
            k < j < n ==> (#[trigger] models[j]).1 < models[k].1),
    decreases n,
{
    if n > 1 {
        last_of_the_most(models, (n - 1) as nat);
    } else {
        assert(most_used(models, 0) is None);
    }
}

/// A model is known by its family, whatever its version; one of no known family keeps its name.
pub proof fn models_are_known_by_their_family(model: Seq<char>)
    ensures
        ({
            let low = text::lowercase(model);
            let name = short_name(model, low);
            let opus = text::holds(low, "opus"@);
            let sonnet = text::holds(low, "sonnet"@);
            let haiku = text::holds(low, "haiku"@);
            &&& opus ==> name == "Opus"@
            &&& !opus && sonnet ==> name == "Sonnet"@
            &&& !opus && !sonnet && haiku ==> name == "Haiku"@
            &&& !opus && !sonnet && !haiku ==> name == model
        }),
{
}

/// A row holds the numbers that the usage of its line tells under their names, zero where it
/// tells none.
pub proof fn rows_hold_what_is_told(row: Row, v: Json, u: Json, key: Seq<char>, n: int)
    requires
        row_says(row, v, u),
        n == match u.at(key) {
            Some(j) => match j.natural() {
                Some(k) => k,
                None => 0,
            },
            None => 0,
        },
    ensures
        key == "input_tokens"@ ==> row.input == n,
        key == "output_tokens"@ ==> row.output == n,
        key == "cache_read_input_tokens"@ ==> row.cache_read == n,
        key == "cache_creation_input_tokens"@ ==> row.cache_write == n,
        v.text_at("requestId"@) matches Some(s) ==> opt(row.request) == Some(s),
        v.text_at("requestId"@) is None ==> match v.at("message"@) {
            Some(m) => opt(row.request) == m.text_at("id"@),
            None => row.request is None,
        },
        v.at("message"@) matches Some(m) ==> (m.text_at("model"@) matches Some(s) ==> row.model@
            == s),
        opt(row.session) == v.text_at("sessionId"@),
        v.text_at("timestamp"@) matches Some(s) ==> row.at == rfc3339(s),
{
}

/// The usage of a line is that of its message, or its own where the message has none.
pub proof fn usage_stands_in_the_message(v: Json, m: Json)
    requires
        v.at("message"@) == Some(m),
    ensures
        m.at("usage"@) is Some ==> usage_record(v) == m.at("usage"@),
        m.at("usage"@) is None ==> usage_record(v) == v.at("usage"@),
{
}

/// A local time is told by its day and its hour: the day begins at local midnight, and of its 24
/// hours the one is told in which the instant lies.
pub proof fn local_times_have_day_and_hour(secs: int, offset: int)
    ensures
        local_day(secs, offset) * 86_400 + local_hour(secs, offset) * 3_600 <= secs + offset,
        secs + offset < local_day(secs, offset) * 86_400 + local_hour(secs, offset) * 3_600 + 3_600,
        0 <= local_hour(secs, offset) < 24,
{
}

/// A line answers the request that it names, or else that of its message.
pub proof fn answers_name_their_request(v: Json, m: Json, s: Seq<char>)
    ensures
        v.text_at("requestId"@) == Some(s) ==> request_id(v) == Some(s),
        v.text_at("requestId"@) is None && v.at("message"@) == Some(m) ==> request_id(v)
            == m.text_at("id"@),
        v.text_at("requestId"@) is None && v.at("message"@) is None ==> request_id(v) is None,
{
}

} // verus!
