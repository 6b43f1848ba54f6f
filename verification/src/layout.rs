//! Where the cards stand: the heights of the left column, the widths that glide, and the
//! areas of a frame.

use vstd::prelude::*;
use ratatui::layout::{Constraint, Layout, Rect};
use crate::discord;
use crate::keybinds_card;
use crate::message_cards;
use crate::panel;
use crate::panel::Area;
use crate::player;
use crate::state;
use crate::state::{Discord, Keybinds, Messages, MusicStats};
use crate::text;

verus! {

// ---------------------------------------------------------------------------
// The left column.
// ---------------------------------------------------------------------------

/// The rows that a message card needs, its border with them.
pub open spec fn message_rows(m: Messages, active: bool) -> int {
    if !m.fresh || !m.available {
        4
    } else {
        let n = m.items@.len();
        2 + (if n < 1 {
            1
        } else if n > 5 {
            5
        } else {
            n as int
        }) + if active {
            2int
        } else {
            0
        }
    }
}

/// The rows that a message card needs. A focused one also explains its keys.
pub fn card_height(m: &Messages, active: bool) -> (r: u16)
    ensures
        r == message_rows(*m, active),
        r <= 9,
{
    if !m.fresh || !m.available {
        return 4;
    }
    let n: u16 = if m.items.len() < 1 {
        1
    } else if m.items.len() > 5 {
        5
    } else {
        m.items.len() as u16
    };
    let footer: u16 = if active {
        2
    } else {
        0
    };
    2 + n + footer
}

/// What the message cards ask for: iMessage, Signal, Discord.
pub open spec fn wishes(
    messages: Messages,
    active: bool,
    signal: Messages,
    d: Discord,
    preview: Seq<char>,
) -> Seq<int> {
    seq![
        message_rows(messages, active),
        message_rows(signal, false),
        discord::rows_needed(d, preview),
    ]
}

/// The rows in order: resources, processes, robots, weather, the three message cards,
/// and what is left.
pub open spec fn wished_rows(want: Seq<int>) -> Seq<int> {
    seq![16, 9, 10, 7, want[0], want[1], want[2], 0]
}

/// How many rows eight slots have together.
pub open spec fn sum8(h: Seq<int>) -> int {
    h[0] + h[1] + h[2] + h[3] + h[4] + h[5] + h[6] + h[7]
}

/// The floor of a message card: its title and a line or two.
pub open spec fn floor_of(want: int) -> int {
    message_cards::lesser(want, 5)
}

/// Who gives up rows when there are too few, in order, and down to what: the message
/// cards from below down to their floors, weather and resources a part, then all from
/// below.
pub open spec fn sacrifices(want: Seq<int>) -> Seq<(int, int)> {
    seq![
        (6int, floor_of(want[2])),
        (5, floor_of(want[1])),
        (4, floor_of(want[0])),
        (3, 5),
        (0, 9),
        (6, 0),
        (5, 0),
        (4, 0),
        (3, 0),
        (2, 0),
        (1, 0),
        (0, 0),
    ]
}

/// How many rows a slot of `h` rows gives, down to a floor.
pub open spec fn given(h: int, floor: int, deficit: int) -> int {
    message_cards::lesser(panel::minus(h, floor), deficit)
}

/// The rows after some have given theirs, and what is still missing.
pub open spec fn squeezed(h: Seq<int>, deficit: int, steps: Seq<(int, int)>) -> (Seq<int>, int)
    decreases steps.len(),
{
    if steps.len() == 0 {
        (h, deficit)
    } else {
        let (i, floor) = steps[0];
        let t = given(h[i], floor, deficit);
        squeezed(h.update(i, h[i] - t), deficit - t, steps.skip(1))
    }
}

/// The rows of the eight slots of the left column.
pub open spec fn left_rows(avail: int, want: Seq<int>) -> Seq<int> {
    let h = wished_rows(want);
    if sum8(h) <= avail {
        h.update(7, avail - sum8(h))
    } else {
        squeezed(h, sum8(h) - avail, sacrifices(want)).0
    }
}

/// Rows as mathematical values.
pub open spec fn ints(v: Seq<u16>) -> Seq<int> {
    Seq::new(v.len(), |i: int| v[i] as int)
}

/// Steps as mathematical values.
pub open spec fn int_steps(v: Seq<(usize, u16)>) -> Seq<(int, int)> {
    Seq::new(v.len(), |i: int| (v[i].0 as int, v[i].1 as int))
}

fn squeeze(h: Vec<u16>, deficit: u16, steps: &Vec<(usize, u16)>) -> (r: Vec<u16>)
    requires
        forall|i: int| 0 <= i < steps@.len() ==> (#[trigger] steps@[i]).0 < h@.len(),
    ensures
        ints(r@) == squeezed(ints(h@), deficit as int, int_steps(steps@)).0,
{
    let ghost all = squeezed(ints(h@), deficit as int, int_steps(steps@));
    let mut h = h;
    let mut deficit: u16 = deficit;
    let mut k: usize = 0;
    proof {
        assert(int_steps(steps@).skip(0) =~= int_steps(steps@));
    }
    while k < steps.len()
        invariant
            k <= steps@.len(),
            forall|i: int| 0 <= i < steps@.len() ==> (#[trigger] steps@[i]).0 < h@.len(),
            all == squeezed(ints(h@), deficit as int, int_steps(steps@).skip(k as int)),
        decreases steps@.len() - k,
    {
        let i: usize = steps[k].0;
        let floor: u16 = steps[k].1;
        let now: u16 = h[i];
        let spare: u16 = if now > floor {
            now - floor
        } else {
            0
        };
        let t: u16 = if spare < deficit {
            spare
        } else {
            deficit
        };
        let ghost before = ints(h@);
        h.set(i, now - t);
        deficit = deficit - t;
        proof {
            let rest = int_steps(steps@).skip(k as int);
            assert(rest[0] == int_steps(steps@)[k as int]);
            assert(rest.skip(1) =~= int_steps(steps@).skip(k + 1));
            assert(before[i as int] == now);
            assert(ints(h@) =~= before.update(i as int, now - t));
        }
        k += 1;
    }
    h
}

fn low(want: u16) -> (r: u16)
    ensures
        r == floor_of(want as int),
{
    if want < 5 {
        want
    } else {
        5
    }
}

/// The rows of the eight slots of the left column, given the available height: the
/// message cards are as tall as their contents while there is room, and keep a floor
/// when there is not.
pub fn left_card_heights(
    avail: u16,
    messages: &Messages,
    active: bool,
    signal: &Messages,
    d: &Discord,
    preview: &str,
) -> (r: Vec<u16>)
    ensures
        r@.len() == 8,
        ints(r@) == left_rows(avail as int, wishes(*messages, active, *signal, *d, preview@)),
{
    let ghost want = wishes(*messages, active, *signal, *d, preview@);
    let w0: u16 = card_height(messages, active);
    let w1: u16 = card_height(signal, false);
    let w2: u16 = discord::discord_height(d, preview);
    proof {
        assert(w2 <= 8);
    }
    let mut h: Vec<u16> = vec![16u16, 9u16, 10u16, 7u16, w0, w1, w2, 0u16];
    let sum: u16 = 42 + w0 + w1 + w2;
    proof {
        assert(ints(h@) =~= wished_rows(want));
        assert(sum == sum8(wished_rows(want)));
    }
    if sum <= avail {
        h.set(7, avail - sum);
        proof {
            assert(ints(h@) =~= left_rows(avail as int, want));
        }
        return h;
    }
    let steps: Vec<(usize, u16)> = vec![
        (6usize, low(w2)),
        (5usize, low(w1)),
        (4usize, low(w0)),
        (3usize, 5u16),
        (0usize, 9u16),
        (6usize, 0u16),
        (5usize, 0u16),
        (4usize, 0u16),
        (3usize, 0u16),
        (2usize, 0u16),
        (1usize, 0u16),
        (0usize, 0u16),
    ];
    proof {
        assert(int_steps(steps@) =~= sacrifices(want));
    }
    let r = squeeze(h, sum - avail, &steps);
    proof {
        let v = left_rows(avail as int, want);
        assert(ints(r@) == v);
        squeezing_keeps_len(wished_rows(want), sum - avail, sacrifices(want));
        assert(ints(r@).len() == r@.len());
    }
    r
}

proof fn squeezing_keeps_len(h: Seq<int>, deficit: int, steps: Seq<(int, int)>)
    requires
        forall|k: int| 0 <= k < steps.len() ==> 0 <= (#[trigger] steps[k]).0 < h.len(),
    ensures
        squeezed(h, deficit, steps).0.len() == h.len(),
    decreases steps.len(),
{
    if steps.len() > 0 {
        let (i, floor) = steps[0];
        let t = given(h[i], floor, deficit);
        let tail = steps.skip(1);
        assert forall|k: int| 0 <= k < tail.len() implies 0 <= (#[trigger] tail[k]).0
            < h.len() by {
            assert(tail[k] == steps[k + 1]);
        }
        squeezing_keeps_len(h.update(i, h[i] - t), deficit - t, steps.skip(1));
    }
}

// ---------------------------------------------------------------------------
// Laws of the left column.
// ---------------------------------------------------------------------------

/// Rows that a message card can ask for.
pub open spec fn sane(want: Seq<int>) -> bool {
    want.len() == 3 && forall|i: int| 0 <= i < 3 ==> 3 <= #[trigger] want[i] <= 9
}

/// What the message cards ask for is sane.
pub proof fn wishes_are_sane(
    messages: Messages,
    active: bool,
    signal: Messages,
    d: Discord,
    preview: Seq<char>,
)
    ensures
        sane(wishes(messages, active, signal, d, preview)),
{
}

proof fn step_sums(h: Seq<int>, deficit: int, steps: Seq<(int, int)>)
    requires
        h.len() == 8,
        0 <= deficit,
        forall|k: int| 0 <= k < steps.len() ==> 0 <= (#[trigger] steps[k]).0 < 7 && 0 <= steps[k].1,
        forall|k: int| 0 <= k < 8 ==> 0 <= #[trigger] h[k],
    ensures
        ({
            let (r, rest) = squeezed(h, deficit, steps);
            &&& r.len() == 8
            &&& 0 <= rest <= deficit
            &&& sum8(r) - rest == sum8(h) - deficit
            &&& forall|k: int| 0 <= k < 8 ==> 0 <= #[trigger] r[k] <= h[k]
            &&& forall|k: int|
                0 <= k < steps.len() ==> rest == 0 || r[(#[trigger] steps[k]).0] <= steps[k].1
        }),
    decreases steps.len(),
{
    if steps.len() > 0 {
        let (i, floor) = steps[0];
        let t = given(h[i], floor, deficit);
        let h2 = h.update(i, h[i] - t);
        let tail = steps.skip(1);
        assert forall|k: int| 0 <= k < tail.len() implies 0 <= (#[trigger] tail[k]).0 < 7 && 0
            <= tail[k].1 by {
            assert(tail[k] == steps[k + 1]);
        }
        step_sums(h2, deficit - t, tail);
        assert(sum8(h2) == sum8(h) - t);
        let (r, rest) = squeezed(h, deficit, steps);
        assert forall|k: int| 0 <= k < steps.len() implies rest == 0 || r[(#[trigger] steps[k]).0]
            <= steps[k].1 by {
            if k > 0 {
                assert(steps[k] == tail[k - 1]);
            } else if rest > 0 {
                assert(t == panel::minus(h[i], floor));
                assert(r[i] <= h2[i]);
            }
        }
    }
}

/// The left column is always filled exactly: the rows of its slots add up to the height
/// there is, and no card gets more than it asked for.
pub proof fn left_column_fills_exactly(avail: int, want: Seq<int>)
    requires
        sane(want),
        0 <= avail,
    ensures
        left_rows(avail, want).len() == 8,
        sum8(left_rows(avail, want)) == avail,
        forall|k: int|
            0 <= k < 7 ==> 0 <= #[trigger] left_rows(avail, want)[k] <= wished_rows(want)[k],
        0 <= left_rows(avail, want)[7],
{
    let h = wished_rows(want);
    assert(want[0] >= 3 && want[1] >= 3 && want[2] >= 3);
    if sum8(h) > avail {
        let steps = sacrifices(want);
        step_sums(h, sum8(h) - avail, steps);
        let (r, rest) = squeezed(h, sum8(h) - avail, steps);
        assert(steps[5].0 == 6 && steps[6].0 == 5 && steps[7].0 == 4 && steps[8].0 == 3
            && steps[9].0 == 2 && steps[10].0 == 1 && steps[11].0 == 0);
        if rest > 0 {
            assert(r[6] == 0 && r[5] == 0 && r[4] == 0 && r[3] == 0 && r[2] == 0 && r[1] == 0
                && r[0] == 0 && r[7] == 0);
        }
    }
}

/// Slots that start with more, and lack less, end with more.
proof fn squeezing_keeps_order(a: Seq<int>, b: Seq<int>, d: int, e: int, steps: Seq<(int, int)>)
    requires
        a.len() == b.len() == 8,
        0 <= d <= e,
        forall|k: int| 0 <= k < 8 ==> #[trigger] a[k] >= b[k],
        forall|k: int| 0 <= k < steps.len() ==> 0 <= (#[trigger] steps[k]).0 < 8,
    ensures
        squeezed(a, d, steps).0.len() == 8,
        squeezed(b, e, steps).0.len() == 8,
        forall|k: int|
            0 <= k < 8 ==> #[trigger] squeezed(a, d, steps).0[k] >= squeezed(b, e, steps).0[k],
    decreases steps.len(),
{
    if steps.len() > 0 {
        let (i, floor) = steps[0];
        let t = given(a[i], floor, d);
        let u = given(b[i], floor, e);
        let tail = steps.skip(1);
        assert(steps[0].0 == i);
        assert forall|k: int| 0 <= k < tail.len() implies 0 <= (#[trigger] tail[k]).0 < 8 by {
            assert(tail[k] == steps[k + 1]);
        }
        let a2 = a.update(i, a[i] - t);
        let b2 = b.update(i, b[i] - u);
        assert forall|k: int| 0 <= k < 8 implies #[trigger] a2[k] >= b2[k] by {
            assert(a[k] >= b[k]);
        }
        squeezing_keeps_order(a2, b2, d - t, e - u, tail);
    }
}

/// More room never takes rows from a card.
pub proof fn more_room_takes_no_rows(less: int, more: int, want: Seq<int>)
    requires
        sane(want),
        0 <= less <= more,
    ensures
        forall|k: int| 0 <= k < 8 ==> #[trigger] left_rows(less, want)[k] <= left_rows(more, want)[k],
{
    let h = wished_rows(want);
    let steps = sacrifices(want);
    assert(want[0] >= 3 && want[1] >= 3 && want[2] >= 3);
    if sum8(h) > more {
        squeezing_keeps_order(h, h, sum8(h) - more, sum8(h) - less, steps);
    } else {
        left_column_fills_exactly(less, want);
        if sum8(h) > less {
            step_sums(h, sum8(h) - less, steps);
        }
    }
}

proof fn squeezing_splits(h: Seq<int>, deficit: int, a: Seq<(int, int)>, b: Seq<(int, int)>)
    ensures
        squeezed(h, deficit, a + b) == squeezed(
            squeezed(h, deficit, a).0,
            squeezed(h, deficit, a).1,
            b,
        ),
    decreases a.len(),
{
    if a.len() == 0 {
        assert(a + b =~= b);
    } else {
        let (i, floor) = a[0];
        let t = given(h[i], floor, deficit);
        assert((a + b).skip(1) =~= a.skip(1) + b);
        squeezing_splits(h.update(i, h[i] - t), deficit - t, a.skip(1), b);
    }
}

proof fn nothing_to_squeeze(h: Seq<int>, steps: Seq<(int, int)>)
    requires
        forall|k: int| 0 <= k < steps.len() ==> 0 <= (#[trigger] steps[k]).0 < h.len(),
    ensures
        squeezed(h, 0, steps) == (h, 0int),
    decreases steps.len(),
{
    if steps.len() > 0 {
        let (i, floor) = steps[0];
        let tail = steps.skip(1);
        assert forall|k: int| 0 <= k < tail.len() implies 0 <= (#[trigger] tail[k]).0
            < h.len() by {
            assert(tail[k] == steps[k + 1]);
        }
        assert(h.update(i, h[i] - 0) =~= h);
        nothing_to_squeeze(h, tail);
    }
}

/// The message cards never disappear while there is room for their floors: as long as
/// the column can hold the system cards at their smallest and the floors, every message
/// card keeps its floor, and the processes and robots all their rows.
pub proof fn message_cards_keep_their_floor(avail: int, want: Seq<int>)
    requires
        sane(want),
        33 + floor_of(want[0]) + floor_of(want[1]) + floor_of(want[2]) <= avail,
    ensures
        left_rows(avail, want)[4] >= floor_of(want[0]),
        left_rows(avail, want)[5] >= floor_of(want[1]),
        left_rows(avail, want)[6] >= floor_of(want[2]),
        left_rows(avail, want)[1] == 9,
        left_rows(avail, want)[2] == 10,
{
    let h = wished_rows(want);
    assert(want[0] >= 3 && want[1] >= 3 && want[2] >= 3);
    if sum8(h) > avail {
        let steps = sacrifices(want);
        let first = steps.take(5);
        let last = steps.skip(5);
        let d = sum8(h) - avail;
        assert(steps =~= first + last);
        squeezing_splits(h, d, first, last);
        reveal_with_fuel(squeezed, 6);
        let t6 = given(h[6], floor_of(want[2]), d);
        let h1 = h.update(6, h[6] - t6);
        let d1 = d - t6;
        let s1 = first.skip(1);
        let t5 = given(h1[5], floor_of(want[1]), d1);
        let h2 = h1.update(5, h1[5] - t5);
        let d2 = d1 - t5;
        let s2 = s1.skip(1);
        let t4 = given(h2[4], floor_of(want[0]), d2);
        let h3 = h2.update(4, h2[4] - t4);
        let d3 = d2 - t4;
        let s3 = s2.skip(1);
        let t3 = given(h3[3], 5, d3);
        let h4 = h3.update(3, h3[3] - t3);
        let d4 = d3 - t3;
        let s4 = s3.skip(1);
        let t0 = given(h4[0], 9, d4);
        let h5 = h4.update(0, h4[0] - t0);
        let d5 = d4 - t0;
        let s5 = s4.skip(1);
        assert(s5.len() == 0);
        assert(squeezed(h, d, first) == squeezed(h1, d1, s1));
        assert(squeezed(h1, d1, s1) == squeezed(h2, d2, s2));
        assert(squeezed(h2, d2, s2) == squeezed(h3, d3, s3));
        assert(squeezed(h3, d3, s3) == squeezed(h4, d4, s4));
        assert(squeezed(h4, d4, s4) == squeezed(h5, d5, s5));
        assert(d5 == 0);
        nothing_to_squeeze(h5, last);
    }
}

// ---------------------------------------------------------------------------
// Widths and heights that glide.
// ---------------------------------------------------------------------------

/// How long the queue takes to open or close.
pub const QUEUE_GLIDE: u64 = 380_000_000;

/// How long the key bindings take to open or close.
pub const KEYS_GLIDE: u64 = 360_000_000;

/// A size that glides open over a time, eased in and out, or closed.
pub open spec fn glided(full: int, gone: int, time: int, open: bool) -> int {
    let x = if gone < time {
        gone
    } else {
        time
    };
    let eased = x * x * (3 * time - 2 * x);
    let whole = time * time * time;
    player::rounded(
        full * if open {
            eased
        } else {
            whole - eased
        },
        whole,
    )
}

proof fn eased_bounds(x: int, t: int)
    requires
        0 <= x <= t,
    ensures
        0 <= x * x * (3 * t - 2 * x) <= t * t * t,
{
    assert(0 <= x * x * (3 * t - 2 * x) <= t * t * t) by (nonlinear_arith)
        requires
            0 <= x <= t,
    {
        assert(x * x >= 0);
        assert(3 * t - 2 * x >= 0);
        assert(t * t * t - x * x * (3 * t - 2 * x) == (t - x) * (t - x) * (t + 2 * x));
        assert((t - x) * (t - x) >= 0);
    }
}

/// The size at a moment of something that glides open or closed.
fn glide(full: u16, gone: u64, time: u64, open: bool) -> (r: u16)
    requires
        0 < time <= 1_000_000_000,
    ensures
        r == glided(full as int, gone as int, time as int, open),
        r <= full,
{
    let x: u64 = if gone < time {
        gone
    } else {
        time
    };
    let ghost eased_value = x * x * (3 * time - 2 * x);
    let ghost whole_value = time * time * time;
    proof {
        eased_bounds(x as int, time as int);
        assert(0 <= x * x <= 1_000_000_000_000_000_000) by (nonlinear_arith)
            requires
                0 <= x <= 1_000_000_000,
        ;
        assert(0 < time * time <= 1_000_000_000_000_000_000) by (nonlinear_arith)
            requires
                0 < time <= 1_000_000_000,
        ;
        assert(0 < time * time * time <= 1_000_000_000_000_000_000 * 1_000_000_000) by (
        nonlinear_arith)
            requires
                0 < time <= 1_000_000_000,
                0 < time * time <= 1_000_000_000_000_000_000,
        ;
    }
    let eased: u128 = x as u128 * x as u128 * (3 * time as u128 - 2 * x as u128);
    let whole: u128 = time as u128 * time as u128 * time as u128;
    let part: u128 = if open {
        eased
    } else {
        whole - eased
    };
    proof {
        assert(eased == eased_value);
        assert(whole == whole_value);
        assert(0 <= full * part <= full * whole && full * whole <= 0xffff
            * 1_000_000_000_000_000_000_000_000_000) by (nonlinear_arith)
            requires
                0 <= full <= 0xffff,
                0 <= part <= whole <= 1_000_000_000_000_000_000_000_000_000,
        ;
        assert((2 * (full * part) + whole) / (2 * whole) <= full) by (nonlinear_arith)
            requires
                0 <= full * part <= full * whole,
                0 < whole,
        ;
        assert((2 * (full * part) + whole) / (2 * whole) >= 0) by (nonlinear_arith)
            requires
                0 <= full * part,
                0 < whole,
        ;
    }
    ((2 * (full as u128 * part) + whole) / (2 * whole)) as u16
}

/// The full width of the queue: its share of the row.
pub open spec fn queue_full(width: int) -> int {
    let w = player::rounded(35 * width, 100);
    if w > 1 {
        w
    } else {
        1
    }
}

/// The areas of the lyrics and, while it is wide enough to be drawn, of the queue.
pub open spec fn lyrics_split(a: Area, gone: int, open: bool) -> (Area, Option<Area>) {
    if a.width < 64 {
        (a, None)
    } else {
        let shown = glided(queue_full(a.width as int), gone, QUEUE_GLIDE as int, open);
        let w = a.width - shown;
        (
            Area { x: a.x, y: a.y, width: w as u16, height: a.height },
            if shown >= 12 {
                Some(
                    Area {
                        x: (a.x + w) as u16,
                        y: a.y,
                        width: shown as u16,
                        height: a.height,
                    },
                )
            } else {
                None
            },
        )
    }
}

/// The areas of the lyrics and of the queue, `gone` after the queue was last told to
/// open or close.
pub fn lyrics_row(a: Area, gone: u64, open: bool) -> (r: (Area, Option<Area>))
    requires
        a.wf(),
    ensures
        r == lyrics_split(a, gone as int, open),
        r.0.wf(),
        r.1 matches Some(q) ==> q.wf(),
{
    if a.width < 64 {
        return (a, None);
    }
    let full: u16 = ((2 * (35 * a.width as u32) + 100) / 200) as u16;
    let shown: u16 = glide(full, gone, QUEUE_GLIDE, open);
    let w: u16 = a.width - shown;
    let lyrics = Area { x: a.x, y: a.y, width: w, height: a.height };
    let queue = if shown >= 12 {
        Some(Area { x: a.x + w, y: a.y, width: shown, height: a.height })
    } else {
        None
    };
    (lyrics, queue)
}

/// The lyrics and the queue share the row without a gap and without overlapping.
pub proof fn lyrics_and_queue_share_the_row(a: Area, gone: int, open: bool)
    requires
        a.wf(),
        0 <= gone,
        lyrics_split(a, gone, open).1 is Some,
    ensures
        ({
            let (l, q) = lyrics_split(a, gone, open);
            &&& l.width + (q->0).width == a.width
            &&& (q->0).x == l.x + l.width
            &&& 0 < l.width
        }),
{
    let full = queue_full(a.width as int);
    assert(full < a.width);
    glide_bounds(full, gone, QUEUE_GLIDE as int, open);
}

proof fn glide_bounds(full: int, gone: int, time: int, open: bool)
    requires
        0 <= full,
        0 <= gone,
        0 < time,
    ensures
        0 <= glided(full, gone, time, open) <= full,
{
    let x = if gone < time {
        gone
    } else {
        time
    };
    eased_bounds(x, time);
    let eased = x * x * (3 * time - 2 * x);
    let whole = time * time * time;
    let part = if open {
        eased
    } else {
        whole - eased
    };
    assert(0 < whole) by (nonlinear_arith)
        requires
            whole == time * time * time,
            0 < time,
    ;
    assert(0 <= full * part <= full * whole) by (nonlinear_arith)
        requires
            0 <= full,
            0 <= part <= whole,
    ;
    assert(0 <= (2 * (full * part) + whole) / (2 * whole) <= full) by (nonlinear_arith)
        requires
            0 <= full * part <= full * whole,
            0 < whole,
    ;
}

/// Once the time has passed, what opened is fully open and what closed is gone.
pub proof fn gliding_ends(full: int, gone: int, time: int)
    requires
        0 <= full,
        0 < time <= gone,
    ensures
        glided(full, gone, time, true) == full,
        glided(full, gone, time, false) == 0,
{
    let whole = time * time * time;
    assert(time * time * (3 * time - 2 * time) == whole) by (nonlinear_arith)
        requires
            whole == time * time * time,
    ;
    assert(0 < whole) by (nonlinear_arith)
        requires
            whole == time * time * time,
            0 < time,
    ;
    assert((2 * (full * whole) + whole) / (2 * whole) == full) by (nonlinear_arith)
        requires
            0 < whole,
            0 <= full,
    ;
    assert(full * 0 == 0) by (nonlinear_arith);
    assert((2 * 0 + whole) / (2 * whole) == 0) by (nonlinear_arith)
        requires
            0 < whole,
    ;
}

/// The rows that the key bindings take at a moment.
pub open spec fn keys_rows(kb: Keybinds, width: int, gone: int, visible: bool) -> int {
    glided(keybinds_card::height_wanted(kb, width), gone, KEYS_GLIDE as int, visible)
}

/// The rows that the key bindings take, `gone` after they were last shown or hidden.
pub fn keybinds_rows(kb: &Keybinds, width: u16, gone: u64, visible: bool) -> (r: u16)
    requires
        keybinds_card::rows_in(keybinds_card::group_blocks(kb.groups@)) + 3 <= usize::MAX,
    ensures
        r == keys_rows(*kb, width as int, gone as int, visible),
{
    glide(keybinds_card::keybinds_height(kb, width), gone, KEYS_GLIDE, visible)
}

// ---------------------------------------------------------------------------
// The frame.
// ---------------------------------------------------------------------------

/// How long a part of a split area is to be.
#[derive(Clone, Copy, Debug, PartialEq, Eq, Structural)]
pub enum Rule {
    Min(u16),
    Max(u16),
    Length(u16),
    Percent(u16),
}

/// Where an area starts, along a split that goes down or across.
pub open spec fn starts(a: Area, down: bool) -> int {
    if down {
        a.y as int
    } else {
        a.x as int
    }
}

/// How long an area is along a split.
pub open spec fn extent(a: Area, down: bool) -> int {
    if down {
        a.height as int
    } else {
        a.width as int
    }
}

/// Where an area ends along a split.
pub open spec fn ends(a: Area, down: bool) -> int {
    starts(a, down) + extent(a, down)
}

/// Across a split a part is the area.
pub open spec fn spans(area: Area, down: bool, a: Area) -> bool {
    starts(a, !down) == starts(area, !down) && extent(a, !down) == extent(area, !down)
}

/// The lengths that are asked for, together.
pub open spec fn length_sum(rules: Seq<Rule>) -> int
    decreases rules.len(),
{
    if rules.len() == 0 {
        0
    } else {
        length_sum(rules.drop_last()) + match rules.last() {
            Rule::Length(n) => n as int,
            _ => 0,
        }
    }
}

/// The most that is allowed to parts that may be shorter, together.
pub open spec fn max_sum(rules: Seq<Rule>) -> int
    decreases rules.len(),
{
    if rules.len() == 0 {
        0
    } else {
        max_sum(rules.drop_last()) + match rules.last() {
            Rule::Max(n) => n as int,
            _ => 0,
        }
    }
}

/// The percentages that are asked for, together.
pub open spec fn percent_sum(rules: Seq<Rule>) -> int
    decreases rules.len(),
{
    if rules.len() == 0 {
        0
    } else {
        percent_sum(rules.drop_last()) + match rules.last() {
            Rule::Percent(n) => n as int,
            _ => 0,
        }
    }
}

/// A few rules that can be weighed: percentages of no more than the whole, or lengths with at
/// most one part that may be shorter and one that takes what is left.
pub open spec fn weighable(rules: Seq<Rule>) -> bool {
    &&& rules.len() <= 8
    &&& {
        ||| percent_sum(rules) <= 100 && forall|i: int|
            0 <= i < rules.len() ==> #[trigger] rules[i] is Percent
        ||| forall|i: int, j: int|
            0 <= i <= j < rules.len() ==> match (#[trigger] rules[i], #[trigger] rules[j]) {
                (Rule::Percent(_), _) => false,
                (_, Rule::Percent(_)) => false,
                (Rule::Min(n), Rule::Min(_)) => i == j && n == 0,
                (Rule::Max(_), Rule::Max(_)) => i == j,
                _ => true,
            }
    }
}

/// A part is as long as its rule asks for, in an area of `size` cells from `from` on.
///
/// Lengths come first: where all of them fit, each is met, and else nothing is left for the
/// other parts. Parts with a limit come next. The rest goes to the open parts. Percentages
/// are counted from the start of the area, so that rounding does not add up.
pub open spec fn obeys(rules: Seq<Rule>, i: int, from: int, size: int, start: int, end: int) -> bool {
    match rules[i] {
        Rule::Length(n) => {
            &&& end - start <= n
            &&& length_sum(rules) <= size ==> end - start == n
        },
        Rule::Max(n) => {
            &&& end - start <= n
            &&& length_sum(rules) + max_sum(rules) <= size ==> end - start == n
            &&& length_sum(rules) > size ==> end == start
        },
        Rule::Min(_) => length_sum(rules) + max_sum(rules) > size ==> end == start,
        Rule::Percent(_) => end == from + (percent_sum(rules.take(i + 1)) * size + 50) / 100,
    }
}

/// The parts of an area: one for each rule, as long as it asks for. They stand in order,
/// each where the one before it ends, and they fill the area where a part is open or where
/// more is asked for than there is.
pub open spec fn parts(area: Area, down: bool, rules: Seq<Rule>, r: Seq<Area>) -> bool {
    &&& r.len() == rules.len()
    &&& forall|i: int|
        0 <= i < r.len() ==> {
            &&& spans(area, down, #[trigger] r[i])
            &&& starts(r[i], down) == if i == 0 {
                starts(area, down)
            } else {
                ends(r[i - 1], down)
            }
            &&& ends(r[i], down) <= ends(area, down)
            &&& obeys(
                rules,
                i,
                starts(area, down),
                extent(area, down),
                starts(r[i], down),
                ends(r[i], down),
            )
        }
    &&& r.len() > 0 && (length_sum(rules) + max_sum(rules) > extent(area, down) || exists|i: int|
        0 <= i < rules.len() && #[trigger] rules[i] is Min) ==> ends(r.last(), down) == ends(
        area,
        down,
    )
}

/// Calls `ratatui::layout::Layout::split`, which weighs wishes against each other. Its
/// source gives them strengths: that the parts lie in the area is required; that the first
/// starts with it, and that the others adjoin, outweighs every length; then come lengths,
/// percentages, limits, and what the open parts can grow by. The contract says what follows
/// from that order for the few rules that it admits. How lengths that do not fit are cut is
/// not stated: the solver is free among wishes of one strength.
#[verifier::external_body]
pub(crate) fn split(area: Area, down: bool, rules: &Vec<Rule>) -> (r: Vec<Area>)
    requires
        area.wf(),
        weighable(rules@),
    ensures
        parts(area, down, rules@, r@),
{
    let to_rule = |r: &Rule| match r {
        Rule::Min(n) => Constraint::Min(*n),
        Rule::Max(n) => Constraint::Max(*n),
        Rule::Length(n) => Constraint::Length(*n),
        Rule::Percent(n) => Constraint::Percentage(*n),
    };
    let rules = rules.iter().map(to_rule);
    let layout = match down {
        true => Layout::vertical(rules),
        false => Layout::horizontal(rules),
    };
    let rect = Rect { x: area.x, y: area.y, width: area.width, height: area.height };
    let to_area = |r: &Rect| Area { x: r.x, y: r.y, width: r.width, height: r.height };
    layout.split(rect).iter().map(to_area).collect()
}

/// The rules of a frame: the columns take what the footer leaves.
pub fn frame_rules() -> (r: Vec<Rule>)
    ensures
        r@ == seq![Rule::Min(0), Rule::Length(1)],
{
    let r: Vec<Rule> = vec![Rule::Min(0), Rule::Length(1)];
    proof {
        assert(r@ =~= seq![Rule::Min(0), Rule::Length(1)]);
    }
    r
}

/// The rules of the two columns.
pub fn column_rules() -> (r: Vec<Rule>)
    ensures
        r@ == seq![Rule::Percent(42), Rule::Percent(58)],
{
    let r: Vec<Rule> = vec![Rule::Percent(42), Rule::Percent(58)];
    proof {
        assert(r@ =~= seq![Rule::Percent(42), Rule::Percent(58)]);
    }
    r
}

/// Rules for lengths.
pub open spec fn lengths(h: Seq<u16>) -> Seq<Rule> {
    Seq::new(h.len(), |i: int| Rule::Length(h[i]))
}

/// The rules of the left column: each slot has its height.
pub fn length_rules(h: &Vec<u16>) -> (r: Vec<Rule>)
    ensures
        r@ == lengths(h@),
{
    let mut out: Vec<Rule> = Vec::new();
    let mut i: usize = 0;
    while i < h.len()
        invariant
            i <= h@.len(),
            out@ == lengths(h@).take(i as int),
        decreases h@.len() - i,
    {
        out.push(Rule::Length(h[i]));
        proof {
            assert(out@ =~= lengths(h@).take(i + 1));
        }
        i += 1;
    }
    proof {
        assert(lengths(h@).take(i as int) =~= lengths(h@));
    }
    out
}

/// The columns of a frame above its footer.
pub struct Columns {
    pub footer: Area,
    pub left: Area,
    pub right: Area,
}

/// A share of a length in percent, rounded, halves up.
pub open spec fn percent_of(p: int, n: int) -> int {
    (p * n + 50) / 100
}

/// The frame: a footer in the last row, where there is a row, and above it the left column
/// with 42 percent of the width and the right column with the rest.
pub open spec fn frame_of(area: Area) -> Columns {
    let foot: int = if area.height >= 1 {
        1
    } else {
        0
    };
    let w = percent_of(42, area.width as int);
    let body = Area { height: (area.height - foot) as u16, ..area };
    Columns {
        footer: Area {
            y: (area.y + area.height - foot) as u16,
            height: foot as u16,
            ..area
        },
        left: Area { width: w as u16, ..body },
        right: Area { x: (area.x + w) as u16, width: (area.width - w) as u16, ..body },
    }
}

/// The columns made of the parts of the frame and of its body.
pub fn columns_of(outer: &Vec<Area>, body: &Vec<Area>) -> (r: Columns)
    requires
        outer@.len() == 2,
        body@.len() == 2,
    ensures
        r == (Columns { footer: outer@[1], left: body@[0], right: body@[1] }),
{
    Columns { footer: outer[1], left: body[0], right: body[1] }
}

/// Splits a frame into its footer, one row tall, and its two columns.
pub fn frame_columns(area: Area) -> (r: Columns)
    requires
        area.wf(),
    ensures
        r == frame_of(area),
        r.footer.wf() && r.left.wf() && r.right.wf(),
{
    let frame = frame_rules();
    let columns = column_rules();
    proof {
        reveal_with_fuel(length_sum, 4);
        reveal_with_fuel(max_sum, 4);
        reveal_with_fuel(percent_sum, 4);
        assert(frame@[0] is Min);
        assert(columns@.take(1) =~= seq![Rule::Percent(42)]);
        assert(columns@.take(2) =~= columns@);
    }
    let outer = split(area, true, &frame);
    let body = split(outer[0], false, &columns);
    proof {
        let w = area.width as int;
        assert(percent_of(100, w) == w);
        assert(spans(area, true, outer@[0]) && spans(area, true, outer@[1]));
        assert(spans(outer@[0], false, body@[0]) && spans(outer@[0], false, body@[1]));
        assert(0 <= percent_of(42, w) <= w);
    }
    columns_of(&outer, &body)
}

/// The heights before slot `i`, together.
pub open spec fn rows_before(h: Seq<u16>, i: int) -> int
    decreases i,
{
    if i <= 0 {
        0
    } else {
        rows_before(h, i - 1) + h[i - 1]
    }
}

proof fn lengths_add_up(h: Seq<u16>)
    ensures
        length_sum(lengths(h)) == rows_before(h, h.len() as int),
        max_sum(lengths(h)) == 0,
    decreases h.len(),
{
    if h.len() > 0 {
        let k = h.len() - 1;
        lengths_add_up(h.drop_last());
        assert(lengths(h).drop_last() =~= lengths(h.drop_last()));
        rows_before_front(h, h.drop_last(), k);
    }
}

proof fn rows_before_front(a: Seq<u16>, b: Seq<u16>, i: int)
    requires
        0 <= i <= b.len(),
        i <= a.len(),
        forall|k: int| 0 <= k < i ==> #[trigger] a[k] == b[k],
    ensures
        rows_before(a, i) == rows_before(b, i),
    decreases i,
{
    if i > 0 {
        rows_before_front(a, b, i - 1);
    }
}

/// The slots stand in a column one below the other, each with its height.
pub open spec fn stacked(column: Area, h: Seq<u16>, r: Seq<Area>) -> bool {
    forall|i: int|
        0 <= i < h.len() ==> #[trigger] r[i] == (Area {
            y: (column.y + rows_before(h, i)) as u16,
            height: h[i],
            ..column
        })
}

proof fn parts_stack(column: Area, h: Seq<u16>, r: Seq<Area>, i: int)
    requires
        column.wf(),
        0 <= i < h.len(),
        rows_before(h, h.len() as int) <= column.height,
        parts(column, true, lengths(h), r),
    ensures
        r[i].y == column.y + rows_before(h, i),
        r[i].height == h[i],
    decreases i,
{
    lengths_add_up(h);
    assert(spans(column, true, r[i]));
    if i > 0 {
        parts_stack(column, h, r, i - 1);
    }
}

/// The areas of the slots of the left column. Where they fit, each has its height; where
/// they do not, none is taller than asked for, and together they fill the column.
pub fn left_areas(column: Area, heights: &Vec<u16>) -> (r: Vec<Area>)
    requires
        column.wf(),
        heights@.len() <= 8,
    ensures
        r@.len() == heights@.len(),
        rows_before(heights@, heights@.len() as int) <= column.height ==> stacked(
            column,
            heights@,
            r@,
        ),
        parts(column, true, lengths(heights@), r@),
{
    let rules = length_rules(heights);
    let r = split(column, true, &rules);
    proof {
        if rows_before(heights@, heights@.len() as int) <= column.height {
            assert forall|i: int| 0 <= i < heights@.len() implies #[trigger] r@[i] == (Area {
                y: (column.y + rows_before(heights@, i)) as u16,
                height: heights@[i],
                ..column
            }) by {
                parts_stack(column, heights@, r@, i);
                assert(spans(column, true, r@[i]));
            }
        }
    }
    r
}

/// The cards of the left column stand where its rows put them: the slots of
/// [`left_card_heights`] always fit.
pub proof fn left_cards_stand_in_their_rows(column: Area, want: Seq<int>, h: Seq<u16>, r: Seq<Area>)
    requires
        column.wf(),
        sane(want),
        ints(h) == left_rows(column.height as int, want),
        parts(column, true, lengths(h), r),
    ensures
        rows_before(h, 8) == column.height,
        h.len() == 8,
        forall|i: int|
            0 <= i < 8 ==> (#[trigger] r[i]).height == h[i] && r[i].y == column.y + rows_before(h, i),
{
    let rows = left_rows(column.height as int, want);
    left_column_fills_exactly(column.height as int, want);
    assert(h.len() == ints(h).len());
    assert forall|k: int| 0 <= k < 8 implies #[trigger] h[k] == rows[k] by {
        assert(ints(h)[k] == h[k]);
    }
    reveal_with_fuel(rows_before, 9);
    assert(rows_before(h, 8) == sum8(rows));
    assert forall|i: int| 0 <= i < 8 implies (#[trigger] r[i]).height == h[i] && r[i].y == column.y
        + rows_before(h, i) by {
        parts_stack(column, h, r, i);
    }
}

/// Lyrics are shown until the player has been asked, and while a track plays.
pub open spec fn lyrics_shown(m: MusicStats) -> bool {
    !m.polled || (m.playing && m.track@.len() > 0)
}

/// Are lyrics shown?
pub fn show_lyrics(m: &MusicStats) -> (r: bool)
    ensures
        r == lyrics_shown(*m),
{
    !m.polled || (m.playing && text::chars_of(m.track.as_str()).len() > 0)
}

/// The rows of the player.
pub const PLAYER_ROWS: u16 = 13;

/// The rows of the lyrics.
pub const LYRICS_ROWS: u16 = 9;

/// What stands in the right column.
pub struct RightColumn {
    pub player: Area,
    pub lyrics: Option<Area>,
    pub keys: Option<Area>,
}

/// The right column made of its parts: the player, the lyrics where they are shown, and
/// the key bindings once they are tall enough for a border.
pub open spec fn right_of(lyrics: bool, v: Seq<Area>) -> RightColumn {
    let k: int = if lyrics {
        2
    } else {
        1
    };
    RightColumn {
        player: v[0],
        lyrics: if lyrics {
            Some(v[1])
        } else {
            None
        },
        keys: if v[k].height >= 3 {
            Some(v[k])
        } else {
            None
        },
    }
}

/// The right column made of its parts.
pub fn right_column(lyrics: bool, v: &Vec<Area>) -> (r: RightColumn)
    requires
        v@.len() >= 3,
    ensures
        r == right_of(lyrics, v@),
{
    let k: usize = if lyrics {
        2
    } else {
        1
    };
    RightColumn {
        player: v[0],
        lyrics: if lyrics {
            Some(v[1])
        } else {
            None
        },
        keys: if v[k].height >= 3 {
            Some(v[k])
        } else {
            None
        },
    }
}

/// The rules of the right column: the player, the lyrics where they are shown, at most
/// `keys` rows of key bindings, and what is left.
pub open spec fn right_asks(lyrics: bool, keys: u16) -> Seq<Rule> {
    if lyrics {
        seq![
            Rule::Length(PLAYER_ROWS),
            Rule::Length(LYRICS_ROWS),
            Rule::Max(keys),
            Rule::Min(0),
        ]
    } else {
        seq![Rule::Length(PLAYER_ROWS), Rule::Max(keys), Rule::Min(0)]
    }
}

/// The rules of the right column.
pub fn right_rules(lyrics: bool, keys: u16) -> (r: Vec<Rule>)
    ensures
        r@ == right_asks(lyrics, keys),
{
    let r: Vec<Rule> = if lyrics {
        vec![
            Rule::Length(PLAYER_ROWS),
            Rule::Length(LYRICS_ROWS),
            Rule::Max(keys),
            Rule::Min(0),
        ]
    } else {
        vec![Rule::Length(PLAYER_ROWS), Rule::Max(keys), Rule::Min(0)]
    };
    proof {
        assert(r@ =~= right_asks(lyrics, keys));
    }
    r
}

/// Rows of a column, from row `from` of it on.
pub open spec fn band(column: Area, from: int, rows: int) -> Area {
    Area { y: (column.y + from) as u16, height: rows as u16, ..column }
}

/// The rows of the player and the lyrics together.
pub open spec fn media_rows(lyrics: bool) -> int {
    PLAYER_ROWS + if lyrics {
        LYRICS_ROWS as int
    } else {
        0
    }
}

/// The right column of a height that holds player and lyrics: the key bindings take what
/// they ask for, as far as it is there.
pub open spec fn roomy(column: Area, lyrics: bool, keys: int) -> RightColumn {
    let top = media_rows(lyrics);
    let rest = column.height - top;
    let k = if keys < rest {
        keys
    } else {
        rest
    };
    RightColumn {
        player: band(column, 0, PLAYER_ROWS as int),
        lyrics: if lyrics {
            Some(band(column, PLAYER_ROWS as int, LYRICS_ROWS as int))
        } else {
            None
        },
        keys: if k >= 3 {
            Some(band(column, top, k))
        } else {
            None
        },
    }
}

/// The right column of a height that is too small for player and lyrics: it holds nothing
/// else, and neither is taller than it likes to be.
pub open spec fn cramped(column: Area, lyrics: bool, r: RightColumn) -> bool {
    let p = r.player.height as int;
    &&& r.player == band(column, 0, p) && p <= PLAYER_ROWS
    &&& r.keys is None
    &&& if lyrics {
        r.lyrics == Some(band(column, p, column.height - p)) && 0 <= column.height - p
            <= LYRICS_ROWS
    } else {
        r.lyrics is None && p == column.height
    }
}

/// The areas of the right column; `keys` is how many rows the key bindings may take.
pub fn right_areas(column: Area, lyrics: bool, keys: u16) -> (r: RightColumn)
    requires
        column.wf(),
    ensures
        column.height >= media_rows(lyrics) ==> r == roomy(column, lyrics, keys as int),
        column.height < media_rows(lyrics) ==> cramped(column, lyrics, r),
        r.player.wf(),
        r.lyrics matches Some(a) ==> a.wf(),
        r.keys matches Some(a) ==> a.wf(),
{
    let rules = right_rules(lyrics, keys);
    proof {
        reveal_with_fuel(length_sum, 6);
        reveal_with_fuel(max_sum, 6);
        assert(rules@.last() is Min);
        if lyrics {
            assert(rules@.drop_last() =~= seq![
                Rule::Length(PLAYER_ROWS),
                Rule::Length(LYRICS_ROWS),
                Rule::Max(keys),
            ]);
            assert(rules@.drop_last().drop_last() =~= seq![
                Rule::Length(PLAYER_ROWS),
                Rule::Length(LYRICS_ROWS),
            ]);
            assert(rules@.drop_last().drop_last().drop_last() =~= seq![Rule::Length(PLAYER_ROWS)]);
        } else {
            assert(rules@.drop_last() =~= seq![Rule::Length(PLAYER_ROWS), Rule::Max(keys)]);
            assert(rules@.drop_last().drop_last() =~= seq![Rule::Length(PLAYER_ROWS)]);
        }
        assert(length_sum(rules@) == media_rows(lyrics));
        assert(max_sum(rules@) == keys);
    }
    let v = split(column, true, &rules);
    proof {
        assert(spans(column, true, v@[0]) && spans(column, true, v@[1]) && spans(
            column,
            true,
            v@[2],
        ));
        if lyrics {
            assert(spans(column, true, v@[3]));
        }
    }
    right_column(lyrics, &v)
}

/// The rules of the row of the player: the player and the facts.
pub fn player_rules() -> (r: Vec<Rule>)
    ensures
        r@ == seq![Rule::Percent(65), Rule::Percent(35)],
{
    let r: Vec<Rule> = vec![Rule::Percent(65), Rule::Percent(35)];
    proof {
        assert(r@ =~= seq![Rule::Percent(65), Rule::Percent(35)]);
    }
    r
}

/// From this width on the facts stand beside the player.
pub const FACTS_FROM: u16 = 64;

/// The areas of the player and the facts: the player has 65 percent of a row that is wide
/// enough for both, and else the whole.
pub open spec fn player_row(row: Area) -> (Area, Option<Area>) {
    if row.width < FACTS_FROM {
        (row, None)
    } else {
        let w = percent_of(65, row.width as int);
        (
            Area { width: w as u16, ..row },
            Some(Area { x: (row.x + w) as u16, width: (row.width - w) as u16, ..row }),
        )
    }
}

/// The row of the player made of its parts.
pub fn player_and_facts(v: &Vec<Area>) -> (r: (Area, Option<Area>))
    requires
        v@.len() == 2,
    ensures
        r == (v@[0], Some(v@[1])),
{
    (v[0], Some(v[1]))
}

/// The areas of the player and, where the row is wide enough, of the facts.
pub fn now_playing_row(row: Area) -> (r: (Area, Option<Area>))
    requires
        row.wf(),
    ensures
        r == player_row(row),
{
    if row.width < FACTS_FROM {
        return (row, None);
    }
    let rules = player_rules();
    proof {
        reveal_with_fuel(percent_sum, 4);
        assert(rules@.take(1) =~= seq![Rule::Percent(65)]);
        assert(rules@.take(2) =~= rules@);
    }
    let v = split(row, false, &rules);
    proof {
        let w = row.width as int;
        assert(percent_of(100, w) == w);
        assert(spans(row, false, v@[0]) && spans(row, false, v@[1]));
        assert(0 <= percent_of(65, w) <= w);
    }
    player_and_facts(&v)
}

// ---------------------------------------------------------------------------
// Laws of the frame.
// ---------------------------------------------------------------------------

/// A message card asks for a row for each conversation, five at most and one at least, for its
/// border, and for two more while it is in use; four rows tell why there is none.
pub proof fn message_cards_ask_for_their_rows(m: Messages, active: bool)
    ensures
        m.fresh && m.available && 1 <= m.items@.len() <= 5 ==> message_rows(m, false)
            == m.items@.len() + 2,
        m.fresh && m.available && m.items@.len() == 0 ==> message_rows(m, false) == 3,
        m.fresh && m.available && m.items@.len() > 5 ==> message_rows(m, false) == 7,
        m.fresh && m.available ==> message_rows(m, true) == message_rows(m, false) + 2,
        !m.fresh || !m.available ==> message_rows(m, active) == 4,
{
}

/// Where there is room, every card has the rows that it asks for: 16 for the resources, 9 for
/// the processes, 10 for the robots, 7 for the weather, and what the message cards ask for.
pub proof fn cards_have_what_they_ask_for(avail: int, want: Seq<int>)
    requires
        sane(want),
        avail >= 42 + want[0] + want[1] + want[2],
    ensures
        left_rows(avail, want) == seq![
            16,
            9,
            10,
            7,
            want[0],
            want[1],
            want[2],
            avail - 42 - want[0] - want[1] - want[2],
        ],
{
}

proof fn first_gives(h: Seq<int>, deficit: int, steps: Seq<(int, int)>, i: int, floor: int)
    requires
        steps.len() > 0,
        steps[0] == (i, floor),
        0 <= i < h.len(),
        forall|k: int| 0 <= k < steps.len() ==> 0 <= (#[trigger] steps[k]).0 < h.len(),
        0 <= deficit <= h[i] - floor,
    ensures
        squeezed(h, deficit, steps).0 == h.update(i, h[i] - deficit),
{
    let rest = steps.skip(1);
    assert forall|k: int| 0 <= k < rest.len() implies 0 <= (#[trigger] rest[k]).0 < h.len() by {
        assert(rest[k] == steps[k + 1]);
    }
    nothing_to_squeeze(h.update(i, h[i] - deficit), rest);
}

/// Where rows are missing, the Discord card gives first, down to five rows; as long as that is
/// enough, no other card loses any.
pub proof fn discord_gives_first(avail: int, want: Seq<int>, missing: int)
    requires
        sane(want),
        avail == 42 + want[0] + want[1] + want[2] - missing,
        0 < missing,
        missing <= want[2] - 5,
    ensures
        left_rows(avail, want) == seq![16, 9, 10, 7, want[0], want[1], want[2] - missing, 0],
{
    let h = wished_rows(want);
    first_gives(h, missing, sacrifices(want), 6, floor_of(want[2]));
    assert(h.update(6, h[6] - missing) =~= seq![
        16,
        9,
        10,
        7,
        want[0],
        want[1],
        want[2] - missing,
        0,
    ]);
}

/// Closing is opening backwards: so long before its end, what closes is as large as what opens
/// so long after its start.
pub proof fn closing_is_opening_backwards(full: int, gone: int, time: int)
    requires
        0 <= gone <= time,
        0 < time,
    ensures
        glided(full, gone, time, false) == glided(full, time - gone, time, true),
{
    let t = time;
    let x = gone;
    assert(t * t * t - x * x * (3 * t - 2 * x) == (t - x) * (t - x) * (3 * t - 2 * (t - x)))
        by (nonlinear_arith);
}

/// What glides is the closest size to its eased share: three squares less two cubes of the time
/// that has passed.
pub proof fn gliding_is_eased(full: int, gone: int, time: int)
    requires
        0 <= full,
        0 <= gone <= time,
        0 < time,
    ensures
        ({
            let whole = time * time * time;
            let share = 3 * time * gone * gone - 2 * gone * gone * gone;
            -whole <= 2 * (whole * glided(full, gone, time, true) - full * share) <= whole
        }),
        glided(full, 0, time, true) == 0,
{
    let whole = time * time * time;
    let x = gone;
    let eased = x * x * (3 * time - 2 * x);
    eased_bounds(x, time);
    assert(whole > 0) by (nonlinear_arith)
        requires
            whole == time * time * time,
            time > 0,
    ;
    assert(eased == 3 * time * x * x - 2 * x * x * x) by (nonlinear_arith)
        requires
            eased == x * x * (3 * time - 2 * x),
    ;
    let a = full * eased;
    assert(a >= 0) by (nonlinear_arith)
        requires
            a == full * eased,
            full >= 0,
            eased >= 0,
    ;
    let q = (2 * a + whole) / (2 * whole);
    vstd::arithmetic::div_mod::lemma_fundamental_div_mod(2 * a + whole, 2 * whole);
    assert((2 * whole) * q == 2 * (whole * q)) by (nonlinear_arith);
    assert(0 * 0 * (3 * time - 2 * 0) == 0) by (nonlinear_arith);
    assert(full * 0 == 0);
    assert((2 * 0 + whole) / (2 * whole) == 0) by {
        vstd::arithmetic::div_mod::lemma_fundamental_div_mod_converse(whole, 2 * whole, 0, whole);
    }
}

/// An open queue has 35 percent of a row of 64 cells or more, to the closest cell, beside the
/// lyrics, from 380 milliseconds after it was opened on; closed it leaves them the whole row.
pub proof fn queue_stands_beside_the_lyrics(a: Area, gone: int, open: bool)
    requires
        a.wf(),
        gone >= 380_000_000,
    ensures
        a.width < 64 ==> lyrics_split(a, gone, open) == (a, None::<Area>),
        a.width >= 64 && !open ==> lyrics_split(a, gone, open) == (a, None::<Area>),
        a.width >= 64 && open ==> lyrics_split(a, gone, open).1 is Some && ({
            let l = lyrics_split(a, gone, open).0;
            let q = lyrics_split(a, gone, open).1->0;
            &&& -100 <= 2 * (100 * q.width - 35 * a.width) <= 100
            &&& l.width + q.width == a.width
            &&& l.x == a.x && q.x == l.x + l.width
            &&& l.y == a.y && q.y == a.y && l.height == a.height && q.height == a.height
        }),
{
    let w = queue_full(a.width as int);
    gliding_ends(w, gone, 380_000_000);
}

/// The key bindings have all their rows from 360 milliseconds after they were shown on, and none
/// as long after they were hidden.
pub proof fn key_bindings_settle(kb: Keybinds, width: int, gone: int)
    requires
        gone >= 360_000_000,
        keybinds_card::height_wanted(kb, width) >= 0,
    ensures
        keys_rows(kb, width, gone, true) == keybinds_card::height_wanted(kb, width),
        keys_rows(kb, width, gone, false) == 0,
{
    gliding_ends(keybinds_card::height_wanted(kb, width), gone, 360_000_000);
}

/// A frame is filled without a gap: its last row is the footer, the left column has 42 percent of
/// the width, to the closest cell, and the right column the rest.
pub proof fn frames_are_filled(area: Area)
    requires
        area.wf(),
        area.height >= 1,
    ensures
        ({
            let c = frame_of(area);
            &&& c.footer.height == 1 && c.footer.y == area.y + area.height - 1
            &&& c.footer.x == area.x && c.footer.width == area.width
            &&& c.left.x == area.x && c.left.y == area.y && c.right.y == area.y
            &&& c.left.height == area.height - 1 && c.right.height == area.height - 1
            &&& c.right.x == c.left.x + c.left.width
            &&& c.left.width + c.right.width == area.width
            &&& -100 <= 2 * (100 * c.left.width - 42 * area.width) <= 100
        }),
{
}

/// The player has 13 rows, the lyrics nine below it where they are shown, and the key bindings
/// what they ask for below these, as far as it is there.
pub proof fn right_column_stacks(column: Area, lyrics: bool, keys: int)
    requires
        column.wf(),
        keys >= 3,
        column.height >= 25,
    ensures
        ({
            let r = roomy(column, lyrics, keys);
            &&& r.player.y == column.y && r.player.height == 13
            &&& lyrics ==> (r.lyrics matches Some(l) && l.y == column.y + 13 && l.height == 9)
            &&& !lyrics ==> r.lyrics is None
            &&& r.keys matches Some(k) && ({
                let top: int = if lyrics {
                    22
                } else {
                    13
                };
                &&& k.y == column.y + top
                &&& keys <= column.height - top ==> k.height == keys
                &&& keys > column.height - top ==> k.y + k.height == column.y + column.height
            })
        }),
{
}

/// Lyrics are shown exactly until the player has been asked and while a track plays.
pub proof fn lyrics_are_shown_while_playing(m: MusicStats)
    ensures
        !m.polled ==> lyrics_shown(m),
        m.polled && !m.playing ==> !lyrics_shown(m),
        m.polled && m.track@.len() == 0 ==> !lyrics_shown(m),
        m.polled && m.playing && m.track@.len() > 0 ==> lyrics_shown(m),
{
}

/// The player has 65 percent of a row of 64 cells or more, to the closest cell, and the facts the
/// rest; a narrower row is the player's alone.
pub proof fn facts_stand_beside_the_player(row: Area)
    requires
        row.wf(),
    ensures
        row.width < 64 ==> player_row(row) == (row, None::<Area>),
        row.width >= 64 ==> player_row(row).1 is Some && ({
            let p = player_row(row).0;
            let f = player_row(row).1->0;
            &&& -100 <= 2 * (100 * p.width - 65 * row.width) <= 100
            &&& p.width + f.width == row.width
            &&& p.x == row.x && f.x == p.x + p.width
            &&& p.y == row.y && f.y == row.y && p.height == row.height && f.height == row.height
        }),
{
}

} // verus!
