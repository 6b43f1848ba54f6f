//! The command line, and how often a frame is drawn.

use vstd::prelude::*;
use vstd::slice::slice_subrange;
use crate::digits;
use crate::layout;
use crate::state;
use crate::state::{MsgPhase, MsgUi, MusicStats};
use crate::text;
use crate::theme::Rgb;

verus! {

// ---------------------------------------------------------------------------
// What to run.
// ---------------------------------------------------------------------------

/// What the program does.
#[derive(Clone, Copy, Debug, PartialEq, Eq, Structural)]
pub enum Mode {
    Run,
    Demo,
    Snapshot,
    Diag,
    DiagMessages,
    DiagSignal,
    DiagLive,
    DiagTv,
    DiagNowPlaying,
    DiagAudio,
    DiagDiscordAudio,
    DiagVoice,
    Facts,
    ClearCache,
    Cells,
}

/// An argument is among those given.
pub open spec fn given(args: Seq<Seq<char>>, flag: Seq<char>) -> bool {
    args.contains(flag)
}

/// Is an argument among those given?
pub fn has(args: &Vec<String>, flag: &str) -> (r: bool)
    ensures
        r == given(text::texts(args@), flag@),
{
    let ghost all = text::texts(args@);
    let mut i: usize = 0;
    while i < args.len()
        invariant
            i <= args@.len() == all.len(),
            all == text::texts(args@),
            forall|j: int| 0 <= j < i ==> #[trigger] all[j] != flag@,
        decreases args@.len() - i,
    {
        if text::same_str(args[i].as_str(), flag) {
            proof {
                assert(all[i as int] == flag@);
            }
            return true;
        }
        i += 1;
    }
    false
}

/// What the program does: the first flag in this order counts, and without one it runs.
/// Some are for one system only.
pub open spec fn mode_of(a: Seq<Seq<char>>, mac: bool) -> Mode {
    if given(a, "--demo"@) {
        Mode::Demo
    } else if given(a, "--snapshot"@) {
        Mode::Snapshot
    } else if given(a, "--diag"@) {
        Mode::Diag
    } else if given(a, "--diag-msg"@) {
        Mode::DiagMessages
    } else if given(a, "--diag-signal"@) {
        Mode::DiagSignal
    } else if given(a, "--diag-live"@) {
        Mode::DiagLive
    } else if given(a, "--diag-tv"@) {
        Mode::DiagTv
    } else if mac && given(a, "--diag-np"@) {
        Mode::DiagNowPlaying
    } else if mac && given(a, "--diag-audio"@) {
        Mode::DiagAudio
    } else if mac && given(a, "--diag-discord-audio"@) {
        Mode::DiagDiscordAudio
    } else if given(a, "--diag-voice"@) {
        Mode::DiagVoice
    } else if given(a, "--facts"@) {
        Mode::Facts
    } else if given(a, "--clear-cache"@) {
        Mode::ClearCache
    } else if given(a, "--cells"@) {
        Mode::Cells
    } else {
        Mode::Run
    }
}

/// What the program does.
pub fn mode(args: &Vec<String>, mac: bool) -> (r: Mode)
    ensures
        r == mode_of(text::texts(args@), mac),
{
    if has(args, "--demo") {
        Mode::Demo
    } else if has(args, "--snapshot") {
        Mode::Snapshot
    } else if has(args, "--diag") {
        Mode::Diag
    } else if has(args, "--diag-msg") {
        Mode::DiagMessages
    } else if has(args, "--diag-signal") {
        Mode::DiagSignal
    } else if has(args, "--diag-live") {
        Mode::DiagLive
    } else if has(args, "--diag-tv") {
        Mode::DiagTv
    } else if mac && has(args, "--diag-np") {
        Mode::DiagNowPlaying
    } else if mac && has(args, "--diag-audio") {
        Mode::DiagAudio
    } else if mac && has(args, "--diag-discord-audio") {
        Mode::DiagDiscordAudio
    } else if has(args, "--diag-voice") {
        Mode::DiagVoice
    } else if has(args, "--facts") {
        Mode::Facts
    } else if has(args, "--clear-cache") {
        Mode::ClearCache
    } else if has(args, "--cells") {
        Mode::Cells
    } else {
        Mode::Run
    }
}

// ---------------------------------------------------------------------------
// The size of a frame.
// ---------------------------------------------------------------------------

/// The first argument from `i` on that holds an `x`, split at it.
pub open spec fn crossed_from(a: Seq<Seq<char>>, i: int) -> Option<(Seq<char>, Seq<char>)>
    decreases a.len() - i,
{
    if i < 0 || i >= a.len() {
        None
    } else {
        match text::char_from(a[i], 'x', 0) {
            Some(k) => Some((a[i].take(k), a[i].skip(k + 1))),
            None => crossed_from(a, i + 1),
        }
    }
}

/// The size of a frame: `WIDTHxHEIGHT`, or the usual one.
pub open spec fn size_in(a: Seq<Seq<char>>) -> (int, int) {
    match crossed_from(a, 0) {
        Some((l, r)) => match (
            digits::unsigned_upto(l, u16::MAX as int),
            digits::unsigned_upto(r, u16::MAX as int),
        ) {
            (Some(w), Some(h)) => (w, h),
            _ => (140, 44),
        },
        None => (140, 44),
    }
}

fn read_size(l: &[char], r: &[char]) -> (s: (u16, u16))
    ensures
        (s.0 as int, s.1 as int) == match (
            digits::unsigned_upto(l@, u16::MAX as int),
            digits::unsigned_upto(r@, u16::MAX as int),
        ) {
            (Some(w), Some(h)) => (w, h),
            _ => (140, 44),
        },
{
    match (digits::read_unsigned(l, 0xffff), digits::read_unsigned(r, 0xffff)) {
        (Some(w), Some(h)) => (w as u16, h as u16),
        _ => (140, 44),
    }
}

/// The size of a frame that is asked for.
pub fn frame_size(args: &Vec<String>) -> (r: (u16, u16))
    ensures
        (r.0 as int, r.1 as int) == size_in(text::texts(args@)),
{
    let ghost all = text::texts(args@);
    let mut i: usize = 0;
    while i < args.len()
        invariant
            i <= args@.len() == all.len(),
            all == text::texts(args@),
            crossed_from(all, 0) == crossed_from(all, i as int),
        decreases args@.len() - i,
    {
        let c = text::chars_of(args[i].as_str());
        let n: usize = c.len();
        proof {
            assert(all[i as int] == c@);
        }
        match text::find_char(c.as_slice(), 'x', 0) {
            Some(k) => {
                let left = slice_subrange(c.as_slice(), 0, k);
                let right = slice_subrange(c.as_slice(), k + 1, n);
                proof {
                    assert(left@ =~= c@.take(k as int));
                    assert(right@ =~= c@.skip(k + 1));
                }
                return read_size(left, right);
            },
            None => {},
        }
        i += 1;
    }
    (140, 44)
}

// ---------------------------------------------------------------------------
// Previews.
// ---------------------------------------------------------------------------

/// What follows a prefix in the first argument from `i` on that has it.
pub open spec fn value_from(a: Seq<Seq<char>>, prefix: Seq<char>, i: int) -> Option<Seq<char>>
    decreases a.len() - i,
{
    if i < 0 || i >= a.len() {
        None
    } else if text::occurs_at(a[i], prefix, 0) {
        Some(a[i].skip(prefix.len() as int))
    } else {
        value_from(a, prefix, i + 1)
    }
}

/// What follows a prefix in the first argument that has it.
pub fn value_of(args: &Vec<String>, prefix: &str) -> (r: Option<String>)
    ensures
        match r {
            Some(s) => value_from(text::texts(args@), prefix@, 0) == Some(s@),
            None => value_from(text::texts(args@), prefix@, 0) is None,
        },
{
    let ghost all = text::texts(args@);
    let p = text::chars_of(prefix);
    let mut i: usize = 0;
    while i < args.len()
        invariant
            i <= args@.len() == all.len(),
            all == text::texts(args@),
            p@ == prefix@,
            value_from(all, prefix@, 0) == value_from(all, prefix@, i as int),
        decreases args@.len() - i,
    {
        let c = text::chars_of(args[i].as_str());
        let n: usize = c.len();
        proof {
            assert(all[i as int] == c@);
        }
        if text::stands_at(c.as_slice(), p.as_slice(), 0) {
            proof {
                assert(c@.subrange(p@.len() as int, n as int) =~= c@.skip(p@.len() as int));
            }
            return Some(text::string_of(slice_subrange(c.as_slice(), p.len(), n)));
        }
        i += 1;
    }
    None
}

/// How long ago a half-way transition started.
pub const MIDWAY: u64 = 170_000_000;

/// How long ago a finished transition started.
pub const SETTLED: u64 = 1_000_000_000;

/// How long ago the key bindings were hidden, where that is to be shown.
pub open spec fn keys_hidden(a: Seq<Seq<char>>) -> Option<u64> {
    match value_from(a, "kbhide="@, 0) {
        Some(v) => Some(
            if v == "mid"@ {
                MIDWAY
            } else {
                SETTLED
            },
        ),
        None => None,
    }
}

/// How long ago the key bindings were hidden, where that is to be shown.
pub fn keys_preview(args: &Vec<String>) -> (r: Option<u64>)
    ensures
        r == keys_hidden(text::texts(args@)),
{
    match value_of(args, "kbhide=") {
        Some(v) => Some(
            if text::same_str(v.as_str(), "mid") {
                MIDWAY
            } else {
                SETTLED
            },
        ),
        None => None,
    }
}

/// How the queue is to be shown: whether it is open, since when, and whether it is empty.
pub open spec fn queue_shown(a: Seq<Seq<char>>) -> Option<(bool, u64, bool)> {
    match value_from(a, "qopen="@, 0) {
        Some(v) => Some(
            if v == "mid"@ {
                (true, MIDWAY, false)
            } else {
                (v != "0"@, SETTLED, v == "0"@)
            },
        ),
        None => None,
    }
}

/// How the queue is to be shown.
pub fn queue_preview(args: &Vec<String>) -> (r: Option<(bool, u64, bool)>)
    ensures
        r == queue_shown(text::texts(args@)),
{
    match value_of(args, "qopen=") {
        Some(v) => if text::same_str(v.as_str(), "mid") {
            Some((true, MIDWAY, false))
        } else {
            let closed = text::same_str(v.as_str(), "0");
            Some((!closed, SETTLED, closed))
        },
        None => None,
    }
}

/// The time on the wall that a frame is drawn at.
pub open spec fn time_shown(a: Seq<Seq<char>>) -> int {
    match value_from(a, "t="@, 0) {
        Some(v) => match digits::nanos(v) {
            Some(t) => t,
            None => 1_300_000_000,
        },
        None => 1_300_000_000,
    }
}

/// The time on the wall that a frame is drawn at.
pub fn time_preview(args: &Vec<String>) -> (r: i64)
    ensures
        r == time_shown(text::texts(args@)),
        -digits::TIME_LIMIT <= r <= digits::TIME_LIMIT,
{
    match value_of(args, "t=") {
        Some(v) => {
            let c = text::chars_of(v.as_str());
            match digits::read_nanos(c.as_slice()) {
                Some(t) => t,
                None => 1_300_000_000,
            }
        },
        None => 1_300_000_000,
    }
}

/// The colours of a cell as they are shown: without a background, the board's; without a
/// foreground, the background.
pub open spec fn cell_colours(fg: Option<Rgb>, bg: Option<Rgb>) -> (Rgb, Rgb) {
    let b = match bg {
        Some(c) => c,
        None => crate::paint::BG,
    };
    (
        match fg {
            Some(c) => c,
            None => b,
        },
        b,
    )
}

/// A number and a tab.
pub open spec fn cell_number(n: int) -> Seq<char> {
    digits::dec(n as nat) + "\t"@
}

/// A cell as a line: its place, its colours and its symbol, between tabs.
pub open spec fn cell_text(
    x: int,
    y: int,
    fg: Option<Rgb>,
    bg: Option<Rgb>,
    symbol: Seq<char>,
) -> Seq<char> {
    let (f, b) = cell_colours(fg, bg);
    cell_number(x) + cell_number(y) + cell_number(f.0 as int) + cell_number(f.1 as int)
        + cell_number(f.2 as int) + cell_number(b.0 as int) + cell_number(b.1 as int)
        + cell_number(b.2 as int) + symbol
}

fn push_number(out: &mut String, n: u64)
    ensures
        final(out)@ == old(out)@ + cell_number(n as int),
{
    digits::push_dec(out, n);
    out.append("\t");
    proof {
        assert(out@ =~= old(out)@ + cell_number(n as int));
    }
}

/// A cell as a line.
pub fn cell_line(x: u16, y: u16, fg: Option<Rgb>, bg: Option<Rgb>, symbol: &str) -> (r: String)
    ensures
        r@ == cell_text(x as int, y as int, fg, bg, symbol@),
{
    let b: Rgb = match bg {
        Some(c) => c,
        None => crate::paint::BG,
    };
    let f: Rgb = match fg {
        Some(c) => c,
        None => b,
    };
    let mut out = String::new();
    push_number(&mut out, x as u64);
    push_number(&mut out, y as u64);
    push_number(&mut out, f.0 as u64);
    push_number(&mut out, f.1 as u64);
    push_number(&mut out, f.2 as u64);
    push_number(&mut out, b.0 as u64);
    push_number(&mut out, b.1 as u64);
    push_number(&mut out, b.2 as u64);
    out.append(symbol);
    proof {
        assert(out@ =~= cell_text(x as int, y as int, fg, bg, symbol@));
    }
    out
}

// ---------------------------------------------------------------------------
// Frames.
// ---------------------------------------------------------------------------

/// The time for a frame while something moves.
pub const FAST_FRAME: u64 = 8_333_000;

/// The time for a frame otherwise.
pub const CALM_FRAME: u64 = 16_667_000;

/// Something moves: the message card, the queue or the key bindings.
pub open spec fn moving(u: MsgUi, queue_at: u64, keys_at: u64, now: u64) -> bool {
    u.composing || u.phase != MsgPhase::Idle || u.send_failed_at is Some || state::since(
        queue_at,
        now,
    ) < layout::QUEUE_GLIDE || state::since(
        keys_at,
        now,
    ) < layout::KEYS_GLIDE
}

/// The time for a frame.
pub fn frame_budget(m: &MusicStats, u: &MsgUi, queue_at: u64, keys_at: u64, now: u64) -> (r: u64)
    ensures
        r == if m.playing || moving(*u, queue_at, keys_at, now) {
            FAST_FRAME
        } else {
            CALM_FRAME
        },
{
    let glides = state::elapsed(queue_at, now) < layout::QUEUE_GLIDE || state::elapsed(
        keys_at,
        now,
    ) < layout::KEYS_GLIDE;
    if m.playing || u.animating() || glides {
        FAST_FRAME
    } else {
        CALM_FRAME
    }
}

/// How long before its end a track of the demonstration starts again.
pub const LOOP_MARGIN: i64 = 500_000_000;

/// A track of the demonstration is to start again.
pub open spec fn runs_out(m: MusicStats, now: u64) -> bool {
    m.playing && state::position_at(m, now) >= m.duration - LOOP_MARGIN
}

/// Starts the track of the demonstration again, just before it ends.
pub fn loop_track(m: &mut MusicStats, now: u64)
    ensures
        *final(m) == if runs_out(*old(m), now) {
            MusicStats { base_pos: 0, sampled_at: now, ..*old(m) }
        } else {
            *old(m)
        },
{
    let pos: i64 = m.position(now);
    if m.playing && pos as i128 >= m.duration as i128 - LOOP_MARGIN as i128 {
        m.base_pos = 0;
        m.sampled_at = now;
    }
}

// ---------------------------------------------------------------------------
// Laws of the command line.
// ---------------------------------------------------------------------------

/// Each flag has its own mode, which is chosen only where its flag is given; some are for one
/// system only.
pub proof fn modes_have_their_flags(a: Seq<Seq<char>>, mac: bool)
    ensures
        mode_of(a, mac) == Mode::Demo ==> a.contains("--demo"@),
        mode_of(a, mac) == Mode::Snapshot ==> a.contains("--snapshot"@),
        mode_of(a, mac) == Mode::Diag ==> a.contains("--diag"@),
        mode_of(a, mac) == Mode::DiagMessages ==> a.contains("--diag-msg"@),
        mode_of(a, mac) == Mode::DiagSignal ==> a.contains("--diag-signal"@),
        mode_of(a, mac) == Mode::DiagLive ==> a.contains("--diag-live"@),
        mode_of(a, mac) == Mode::DiagTv ==> a.contains("--diag-tv"@),
        mode_of(a, mac) == Mode::DiagNowPlaying ==> a.contains("--diag-np"@) && mac,
        mode_of(a, mac) == Mode::DiagAudio ==> a.contains("--diag-audio"@) && mac,
        mode_of(a, mac) == Mode::DiagDiscordAudio ==> a.contains("--diag-discord-audio"@) && mac,
        mode_of(a, mac) == Mode::DiagVoice ==> a.contains("--diag-voice"@),
        mode_of(a, mac) == Mode::Facts ==> a.contains("--facts"@),
        mode_of(a, mac) == Mode::ClearCache ==> a.contains("--clear-cache"@),
        mode_of(a, mac) == Mode::Cells ==> a.contains("--cells"@),
{
}

/// The program runs where no flag is given, and only there.
pub proof fn without_a_flag_it_runs(a: Seq<Seq<char>>, mac: bool)
    ensures
        (mode_of(a, mac) == Mode::Run) == !(a.contains("--demo"@)
            || a.contains("--snapshot"@)
            || a.contains("--diag"@)
            || a.contains("--diag-msg"@)
            || a.contains("--diag-signal"@)
            || a.contains("--diag-live"@)
            || a.contains("--diag-tv"@)
            || (mac && a.contains("--diag-np"@))
            || (mac && a.contains("--diag-audio"@))
            || (mac && a.contains("--diag-discord-audio"@))
            || a.contains("--diag-voice"@)
            || a.contains("--facts"@)
            || a.contains("--clear-cache"@)
            || a.contains("--cells"@)),
{
}

/// Of two flags the earlier one in the order of the modes counts, wherever it stands.
pub proof fn flags_have_an_order(a: Seq<Seq<char>>, mac: bool)
    ensures
        a.contains("--demo"@) ==> mode_of(a, mac) != Mode::Snapshot && mode_of(a, mac) != Mode::Diag && mode_of(a, mac) != Mode::DiagMessages && mode_of(a, mac) != Mode::DiagSignal && mode_of(a, mac) != Mode::DiagLive && mode_of(a, mac) != Mode::DiagTv && mode_of(a, mac) != Mode::DiagNowPlaying && mode_of(a, mac) != Mode::DiagAudio && mode_of(a, mac) != Mode::DiagDiscordAudio && mode_of(a, mac) != Mode::DiagVoice && mode_of(a, mac) != Mode::Facts && mode_of(a, mac) != Mode::ClearCache && mode_of(a, mac) != Mode::Cells,
        a.contains("--snapshot"@) ==> mode_of(a, mac) != Mode::Diag && mode_of(a, mac) != Mode::DiagMessages && mode_of(a, mac) != Mode::DiagSignal && mode_of(a, mac) != Mode::DiagLive && mode_of(a, mac) != Mode::DiagTv && mode_of(a, mac) != Mode::DiagNowPlaying && mode_of(a, mac) != Mode::DiagAudio && mode_of(a, mac) != Mode::DiagDiscordAudio && mode_of(a, mac) != Mode::DiagVoice && mode_of(a, mac) != Mode::Facts && mode_of(a, mac) != Mode::ClearCache && mode_of(a, mac) != Mode::Cells,
        a.contains("--diag"@) ==> mode_of(a, mac) != Mode::DiagMessages && mode_of(a, mac) != Mode::DiagSignal && mode_of(a, mac) != Mode::DiagLive && mode_of(a, mac) != Mode::DiagTv && mode_of(a, mac) != Mode::DiagNowPlaying && mode_of(a, mac) != Mode::DiagAudio && mode_of(a, mac) != Mode::DiagDiscordAudio && mode_of(a, mac) != Mode::DiagVoice && mode_of(a, mac) != Mode::Facts && mode_of(a, mac) != Mode::ClearCache && mode_of(a, mac) != Mode::Cells,
        a.contains("--diag-msg"@) ==> mode_of(a, mac) != Mode::DiagSignal && mode_of(a, mac) != Mode::DiagLive && mode_of(a, mac) != Mode::DiagTv && mode_of(a, mac) != Mode::DiagNowPlaying && mode_of(a, mac) != Mode::DiagAudio && mode_of(a, mac) != Mode::DiagDiscordAudio && mode_of(a, mac) != Mode::DiagVoice && mode_of(a, mac) != Mode::Facts && mode_of(a, mac) != Mode::ClearCache && mode_of(a, mac) != Mode::Cells,
        a.contains("--diag-signal"@) ==> mode_of(a, mac) != Mode::DiagLive && mode_of(a, mac) != Mode::DiagTv && mode_of(a, mac) != Mode::DiagNowPlaying && mode_of(a, mac) != Mode::DiagAudio && mode_of(a, mac) != Mode::DiagDiscordAudio && mode_of(a, mac) != Mode::DiagVoice && mode_of(a, mac) != Mode::Facts && mode_of(a, mac) != Mode::ClearCache && mode_of(a, mac) != Mode::Cells,
        a.contains("--diag-live"@) ==> mode_of(a, mac) != Mode::DiagTv && mode_of(a, mac) != Mode::DiagNowPlaying && mode_of(a, mac) != Mode::DiagAudio && mode_of(a, mac) != Mode::DiagDiscordAudio && mode_of(a, mac) != Mode::DiagVoice && mode_of(a, mac) != Mode::Facts && mode_of(a, mac) != Mode::ClearCache && mode_of(a, mac) != Mode::Cells,
        a.contains("--diag-tv"@) ==> mode_of(a, mac) != Mode::DiagNowPlaying && mode_of(a, mac) != Mode::DiagAudio && mode_of(a, mac) != Mode::DiagDiscordAudio && mode_of(a, mac) != Mode::DiagVoice && mode_of(a, mac) != Mode::Facts && mode_of(a, mac) != Mode::ClearCache && mode_of(a, mac) != Mode::Cells,
        mac && a.contains("--diag-np"@) ==> mode_of(a, mac) != Mode::DiagAudio && mode_of(a, mac) != Mode::DiagDiscordAudio && mode_of(a, mac) != Mode::DiagVoice && mode_of(a, mac) != Mode::Facts && mode_of(a, mac) != Mode::ClearCache && mode_of(a, mac) != Mode::Cells,
        mac && a.contains("--diag-audio"@) ==> mode_of(a, mac) != Mode::DiagDiscordAudio && mode_of(a, mac) != Mode::DiagVoice && mode_of(a, mac) != Mode::Facts && mode_of(a, mac) != Mode::ClearCache && mode_of(a, mac) != Mode::Cells,
        mac && a.contains("--diag-discord-audio"@) ==> mode_of(a, mac) != Mode::DiagVoice && mode_of(a, mac) != Mode::Facts && mode_of(a, mac) != Mode::ClearCache && mode_of(a, mac) != Mode::Cells,
        a.contains("--diag-voice"@) ==> mode_of(a, mac) != Mode::Facts && mode_of(a, mac) != Mode::ClearCache && mode_of(a, mac) != Mode::Cells,
        a.contains("--facts"@) ==> mode_of(a, mac) != Mode::ClearCache && mode_of(a, mac) != Mode::Cells,
        a.contains("--clear-cache"@) ==> mode_of(a, mac) != Mode::Cells,
{
}

/// What follows a prefix is that of the first argument that starts with it, and there is none
/// where no argument does.
pub proof fn first_argument_with_a_prefix_counts(
    a: Seq<Seq<char>>,
    prefix: Seq<char>,
    i: int,
    value: Seq<char>,
)
    requires
        0 <= i <= a.len(),
        forall|j: int| 0 <= j < i ==> !prefix.is_prefix_of(#[trigger] a[j]),
    ensures
        i < a.len() && a[i] == prefix + value ==> value_from(a, prefix, 0) == Some(value),
        i == a.len() ==> value_from(a, prefix, 0) is None,
{
    if i == a.len() || a[i] == prefix + value {
        values_go_on(a, prefix, i, value, 0);
    }
}

proof fn values_go_on(a: Seq<Seq<char>>, prefix: Seq<char>, i: int, value: Seq<char>, from: int)
    requires
        0 <= from <= i <= a.len(),
        forall|j: int| 0 <= j < i ==> !prefix.is_prefix_of(#[trigger] a[j]),
        i < a.len() ==> a[i] == prefix + value,
    ensures
        i < a.len() ==> value_from(a, prefix, from) == Some(value),
        i == a.len() ==> value_from(a, prefix, from) is None,
    decreases i - from,
{
    if from < i {
        assert(!text::occurs_at(a[from], prefix, 0)) by {
            if text::occurs_at(a[from], prefix, 0) {
                assert(prefix.is_prefix_of(a[from]));
            }
        }
        values_go_on(a, prefix, i, value, from + 1);
    } else if i < a.len() {
        assert((prefix + value).subrange(0, prefix.len() as int) =~= prefix);
        assert(text::occurs_at(a[i], prefix, 0));
        assert((prefix + value).skip(prefix.len() as int) =~= value);
    }
}

/// A frame is as large as the first argument with an `x` says, width before height; where none
/// has one it is 140 by 44.
pub proof fn frames_are_as_large_as_asked(a: Seq<Seq<char>>, i: int, w: nat, h: nat)
    requires
        0 <= i <= a.len(),
        forall|j: int| 0 <= j < i ==> !(#[trigger] a[j]).contains('x'),
        w <= 65535,
        h <= 65535,
    ensures
        i < a.len() && a[i] == digits::dec(w) + seq!['x'] + digits::dec(h) ==> size_in(a) == (
            w as int,
            h as int,
        ),
        i == a.len() ==> size_in(a) == (140int, 44int),
{
    crossing_goes_on(a, i, 0);
    if i < a.len() && a[i] == digits::dec(w) + seq!['x'] + digits::dec(h) {
        digits::dec_value(w);
        assert(!digits::dec(w).contains('x')) by {
            crate::lrc_laws::decimal_notation_is_canonical(w);
        }
        text::texts_part_at_the_first(digits::dec(w), 'x', digits::dec(h));
        crate::lrc_laws::whole_numbers_are_read_exactly(w, 65535, seq![], 0);
        crate::lrc_laws::whole_numbers_are_read_exactly(h, 65535, seq![], 0);
    }
}

proof fn crossing_goes_on(a: Seq<Seq<char>>, i: int, from: int)
    requires
        0 <= from <= i <= a.len(),
        forall|j: int| 0 <= j < i ==> !(#[trigger] a[j]).contains('x'),
    ensures
        crossed_from(a, from) == crossed_from(a, i),
    decreases i - from,
{
    if from < i {
        text::char_from_is_least(a[from], 'x', 0);
        if text::char_from(a[from], 'x', 0) is Some {
            assert(a[from].contains('x'));
        }
        crossing_goes_on(a, i, from + 1);
    }
}

/// Previews of the key bindings and of the queue are half-way through after 170 milliseconds and
/// settled after a second; a queue that is asked to be closed is empty.
pub proof fn previews_start_when_they_say(a: Seq<Seq<char>>)
    ensures
        value_from(a, "kbhide="@, 0) == Some("mid"@) ==> keys_hidden(a) == Some(170_000_000u64),
        (value_from(a, "kbhide="@, 0) is Some && value_from(a, "kbhide="@, 0) != Some("mid"@))
            ==> keys_hidden(a) == Some(1_000_000_000u64),
        value_from(a, "kbhide="@, 0) is None ==> keys_hidden(a) is None,
        value_from(a, "qopen="@, 0) == Some("mid"@) ==> queue_shown(a) == Some(
            (true, 170_000_000u64, false),
        ),
        value_from(a, "qopen="@, 0) == Some("0"@) ==> queue_shown(a) == Some(
            (false, 1_000_000_000u64, true),
        ),
        value_from(a, "qopen="@, 0) == Some("1"@) ==> queue_shown(a) == Some(
            (true, 1_000_000_000u64, false),
        ),
        value_from(a, "qopen="@, 0) is None ==> queue_shown(a) is None,
{
    reveal_strlit("mid");
    reveal_strlit("0");
    reveal_strlit("1");
    assert("0"@ != "mid"@) by {
        assert("0"@.len() != "mid"@.len());
    }
    assert("1"@ != "mid"@) by {
        assert("1"@.len() != "mid"@.len());
    }
    assert("0"@ != "1"@) by {
        assert("0"@[0] != "1"@[0]);
    }
}

/// A frame is drawn at the time that is asked for, in seconds, and at 1.3 seconds where none or
/// no number is.
pub proof fn frames_are_drawn_when_asked(a: Seq<Seq<char>>, t: int)
    ensures
        value_from(a, "t="@, 0) is None ==> time_shown(a) == 1_300_000_000,
        (value_from(a, "t="@, 0) matches Some(v) && digits::nanos(v) is None) ==> time_shown(a)
            == 1_300_000_000,
        (value_from(a, "t="@, 0) matches Some(v) && digits::nanos(v) == Some(t)) ==> time_shown(a)
            == t,
{
}

/// A cell is told by its column and row, its three foreground and its three background channels
/// and its symbol, with a tab between; what has no background has the board's, and what has no
/// foreground has its background.
pub proof fn cells_are_told_between_tabs(x: int, y: int, f: Rgb, b: Rgb, symbol: Seq<char>)
    requires
        0 <= x,
        0 <= y,
    ensures
        cell_text(x, y, Some(f), Some(b), symbol) == text::joined(
            seq![
                digits::dec(x as nat),
                digits::dec(y as nat),
                digits::dec(f.0 as nat),
                digits::dec(f.1 as nat),
                digits::dec(f.2 as nat),
                digits::dec(b.0 as nat),
                digits::dec(b.1 as nat),
                digits::dec(b.2 as nat),
                symbol,
            ],
            "\t"@,
        ),
        cell_text(x, y, None, Some(b), symbol) == cell_text(x, y, Some(b), Some(b), symbol),
        cell_text(x, y, Some(f), None, symbol) == cell_text(
            x,
            y,
            Some(f),
            Some((13u8, 14u8, 22u8)),
            symbol,
        ),
{
    let d = |n: int| digits::dec(n as nat);
    let s1 = seq![d(x)];
    let s2 = s1.push(d(y));
    let s3 = s2.push(d(f.0 as int));
    let s4 = s3.push(d(f.1 as int));
    let s5 = s4.push(d(f.2 as int));
    let s6 = s5.push(d(b.0 as int));
    let s7 = s6.push(d(b.1 as int));
    let s8 = s7.push(d(b.2 as int));
    let s9 = s8.push(symbol);
    let tab = "\t"@;
    assert(s9.drop_last() =~= s8);
    assert(s8.drop_last() =~= s7);
    assert(s7.drop_last() =~= s6);
    assert(s6.drop_last() =~= s5);
    assert(s5.drop_last() =~= s4);
    assert(s4.drop_last() =~= s3);
    assert(s3.drop_last() =~= s2);
    assert(s2.drop_last() =~= s1);
    assert(text::joined(s1, tab) == d(x));
    assert(text::joined(s2, tab) == d(x) + tab + d(y));
    assert(text::joined(s3, tab) == text::joined(s2, tab) + tab + d(f.0 as int));
    assert(text::joined(s4, tab) == text::joined(s3, tab) + tab + d(f.1 as int));
    assert(text::joined(s5, tab) == text::joined(s4, tab) + tab + d(f.2 as int));
    assert(text::joined(s6, tab) == text::joined(s5, tab) + tab + d(b.0 as int));
    assert(text::joined(s7, tab) == text::joined(s6, tab) + tab + d(b.1 as int));
    assert(text::joined(s8, tab) == text::joined(s7, tab) + tab + d(b.2 as int));
    assert(text::joined(s9, tab) == text::joined(s8, tab) + tab + symbol);
    assert(cell_text(x, y, Some(f), Some(b), symbol) =~= text::joined(s9, tab));
    assert(s9 =~= seq![
        digits::dec(x as nat),
        digits::dec(y as nat),
        digits::dec(f.0 as nat),
        digits::dec(f.1 as nat),
        digits::dec(f.2 as nat),
        digits::dec(b.0 as nat),
        digits::dec(b.1 as nat),
        digits::dec(b.2 as nat),
        symbol,
    ]);
}

/// Frames come at least 119 times a second while something moves and at least 59 times
/// otherwise: a queue moves for 380 milliseconds and the key bindings for 360, and the message
/// card while it is written in, changes, or has failed to send.
pub proof fn frames_follow_what_moves(u: MsgUi, queue_at: u64, keys_at: u64, now: u64)
    ensures
        119 * FAST_FRAME < 1_000_000_000 <= 121 * FAST_FRAME,
        59 * CALM_FRAME < 1_000_000_000 <= 60 * CALM_FRAME,
        queue_at <= now < queue_at + 380_000_000 ==> moving(u, queue_at, keys_at, now),
        keys_at <= now < keys_at + 360_000_000 ==> moving(u, queue_at, keys_at, now),
        u.composing || u.phase != MsgPhase::Idle || u.send_failed_at is Some ==> moving(
            u,
            queue_at,
            keys_at,
            now,
        ),
        !u.composing && u.phase == MsgPhase::Idle && u.send_failed_at is None && now >= queue_at
            + 380_000_000 && now >= keys_at + 360_000_000 ==> !moving(u, queue_at, keys_at, now),
{
}

/// A track that plays starts again in the last half second, and no other does.
pub proof fn tracks_start_again_before_they_end(m: MusicStats, now: u64)
    ensures
        runs_out(m, now) == (m.playing && m.duration - state::position_at(m, now) <= 500_000_000),
{
}

} // verus!
