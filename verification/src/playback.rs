//! Delayed playback: which samples surround a moment, and how rows slide between them.

use vstd::prelude::*;
use crate::lrc::Share;
use crate::panel::Area;
use crate::state;
use crate::text;

verus! {

/// The shortest distance between two samples that is told apart.
pub const SHORTEST_SPAN: u64 = 1_000_000;

// ---------------------------------------------------------------------------
// Samples.
// ---------------------------------------------------------------------------

/// The first sample from `j` on that a moment lies behind, the next one being later; the
/// last but one where there is none.
pub open spec fn segment_from(times: Seq<u64>, target: u64, j: int) -> int
    decreases times.len() - j,
{
    if j < 0 || j + 1 >= times.len() {
        times.len() - 2
    } else if times[j] <= target < times[j + 1] {
        j
    } else {
        segment_from(times, target, j + 1)
    }
}

/// The sample that a moment lies behind, and how far it is towards the next one. Before
/// the first and behind the last sample it stands still.
pub open spec fn segment(times: Seq<u64>, target: u64) -> (int, (int, int)) {
    if times.len() <= 1 || target <= times[0] {
        (0, (0, 1))
    } else if target >= times.last() {
        (times.len() - 1, (0, 1))
    } else {
        let i = segment_from(times, target, 0);
        let gap = state::since(times[i], times[i + 1]);
        let span = if gap > SHORTEST_SPAN {
            gap
        } else {
            SHORTEST_SPAN as int
        };
        let at = state::since(times[i], target);
        (
            i,
            (
                if at < span {
                    at
                } else {
                    span
                },
                span,
            ),
        )
    }
}

/// The sample that a moment lies behind, and how far it is towards the next one.
pub fn bracket(times: &Vec<u64>, target: u64) -> (r: (usize, Share))
    requires
        times@.len() > 0,
    ensures
        (r.0 as int, (r.1.num as int, r.1.den as int)) == segment(times@, target),
        r.0 < times@.len(),
        0 < r.1.den,
        r.1.num <= r.1.den,
        r.1.num > 0 ==> r.0 + 1 < times@.len(),
{
    let m: usize = times.len();
    if m == 1 || target <= times[0] {
        return (0, Share { num: 0, den: 1 });
    }
    if target >= times[m - 1] {
        return (m - 1, Share { num: 0, den: 1 });
    }
    let mut j: usize = 0;
    while j < m - 1 && !(times[j] <= target && target < times[j + 1])
        invariant
            2 <= m == times@.len(),
            j <= m - 1,
            segment_from(times@, target, 0) == segment_from(times@, target, j as int),
        ensures
            j <= m - 1,
            segment_from(times@, target, 0) == if j < m - 1 {
                j as int
            } else {
                m - 2
            },
        decreases m - j,
    {
        j += 1;
    }
    let i: usize = if j < m - 1 {
        j
    } else {
        m - 2
    };
    let gap: u64 = state::elapsed(times[i], times[i + 1]);
    let span: u64 = if gap > SHORTEST_SPAN {
        gap
    } else {
        SHORTEST_SPAN
    };
    let at: u64 = state::elapsed(times[i], target);
    let num: u64 = if at < span {
        at
    } else {
        span
    };
    (i, Share { num, den: span })
}

/// The samples are in order.
pub open spec fn in_time(times: Seq<u64>) -> bool {
    forall|i: int, j: int| 0 <= i <= j < times.len() ==> times[i] <= times[j]
}

proof fn segment_found(times: Seq<u64>, target: u64, j: int)
    requires
        in_time(times),
        0 <= j < times.len() - 1,
        times[j] <= target,
        target < times.last(),
    ensures
        ({
            let i = segment_from(times, target, j);
            j <= i < times.len() - 1 && times[i] <= target < times[i + 1]
        }),
    decreases times.len() - j,
{
    if !(times[j] <= target < times[j + 1]) {
        segment_found(times, target, j + 1);
    }
}

/// Among samples in order, a moment between the first and the last one lies between the
/// sample that is found and the next one.
pub proof fn moments_are_bracketed(times: Seq<u64>, target: u64)
    requires
        in_time(times),
        times.len() > 1,
        times[0] < target < times.last(),
    ensures
        ({
            let i = segment(times, target).0;
            0 <= i < times.len() - 1 && times[i] <= target < times[i + 1]
        }),
{
    segment_found(times, target, 0);
}

// ---------------------------------------------------------------------------
// Rows that slide.
// ---------------------------------------------------------------------------

/// Where a name stands in a list from `i` on, or its length.
pub open spec fn name_from(list: Seq<Seq<char>>, name: Seq<char>, i: int) -> int
    decreases list.len() - i,
{
    if i < 0 || i >= list.len() {
        list.len() as int
    } else if list[i] == name {
        i
    } else {
        name_from(list, name, i + 1)
    }
}

/// A row on its way: which one of the new list it is, its rank in parts of a row, and
/// how far it has appeared.
#[derive(Clone, Copy, Debug, PartialEq, Eq, Structural)]
pub struct Slot {
    pub index: usize,
    pub rank: i128,
    pub fade: Share,
}

/// Row `k` of the new list on its way: from where it stood in the old list, or from below
/// the bottom, fading in.
pub open spec fn slot(from: Seq<Seq<char>>, to: Seq<Seq<char>>, u: Share, k: int) -> Slot {
    let old_rank = name_from(from, to[k], 0);
    let known = old_rank < from.len();
    let start = if known {
        old_rank
    } else {
        to.len() as int
    };
    Slot {
        index: k as usize,
        rank: (start * u.den + (k - start) * u.num) as i128,
        fade: if known {
            Share { num: 1, den: 1 }
        } else {
            u
        },
    }
}

/// One row is drawn above another: by rank, then by name.
pub open spec fn above(to: Seq<Seq<char>>, a: Slot, b: Slot) -> bool {
    a.rank < b.rank || (a.rank == b.rank && text::before(to[a.index as int], to[b.index as int]))
}

/// Where a row belongs among others: below those that it is not above of.
pub open spec fn slot_place(to: Seq<Seq<char>>, list: Seq<Slot>, s: Slot, i: int) -> int
    decreases list.len() - i,
{
    if i < 0 || i >= list.len() {
        list.len() as int
    } else if above(to, s, list[i]) {
        i
    } else {
        slot_place(to, list, s, i + 1)
    }
}

/// The first `n` rows of the new list on their way, in the order in which they are drawn.
pub open spec fn slid(from: Seq<Seq<char>>, to: Seq<Seq<char>>, u: Share, n: nat) -> Seq<Slot>
    decreases n,
{
    if n == 0 {
        seq![]
    } else {
        let list = slid(from, to, u, (n - 1) as nat);
        let s = slot(from, to, u, n - 1);
        list.insert(slot_place(to, list, s, 0), s)
    }
}

fn find_name(list: &Vec<String>, name: &str) -> (r: usize)
    ensures
        r == name_from(text::texts(list@), name@, 0),
        r <= list@.len(),
{
    let ghost all = text::texts(list@);
    let mut i: usize = 0;
    while i < list.len()
        invariant
            i <= list@.len(),
            all == text::texts(list@),
            name_from(all, name@, 0) == name_from(all, name@, i as int),
        decreases list@.len() - i,
    {
        if text::same_str(list[i].as_str(), name) {
            return i;
        }
        i += 1;
    }
    i
}

fn slot_of(from: &Vec<String>, to: &Vec<String>, u: Share, k: usize) -> (r: Slot)
    requires
        k < to@.len() <= u32::MAX,
        from@.len() <= u32::MAX,
        u.num <= u.den,
    ensures
        r == slot(text::texts(from@), text::texts(to@), u, k as int),
{
    let i: usize = find_name(from, to[k].as_str());
    let known = i < from.len();
    let start: usize = if known {
        i
    } else {
        to.len()
    };
    proof {
        assert(text::texts(to@)[k as int] == to@[k as int]@);
        assert(text::texts(to@).len() == to@.len());
        assert(text::texts(from@).len() == from@.len());
        assert(0 <= start * u.den <= 0xffff_ffff * 0xffff_ffff_ffff_ffff) by (nonlinear_arith)
            requires
                0 <= start <= 0xffff_ffff,
                0 <= u.den <= 0xffff_ffff_ffff_ffff,
        ;
        assert(-0xffff_ffff * 0xffff_ffff_ffff_ffff <= (k - start) * u.num <= 0xffff_ffff
            * 0xffff_ffff_ffff_ffff) by (nonlinear_arith)
            requires
                -0xffff_ffff <= k - start <= 0xffff_ffff,
                0 <= u.num <= 0xffff_ffff_ffff_ffff,
        ;
    }
    let rank: i128 = start as i128 * u.den as i128 + (k as i128 - start as i128) * u.num as i128;
    Slot {
        index: k,
        rank,
        fade: if known {
            Share { num: 1, den: 1 }
        } else {
            u
        },
    }
}

proof fn slot_place_bounds(to: Seq<Seq<char>>, list: Seq<Slot>, s: Slot, i: int)
    requires
        0 <= i <= list.len(),
    ensures
        i <= slot_place(to, list, s, i) <= list.len(),
        forall|j: int| i <= j < slot_place(to, list, s, i) ==> !above(to, s, #[trigger] list[j]),
        slot_place(to, list, s, i) < list.len() ==> above(
            to,
            s,
            list[slot_place(to, list, s, i)],
        ),
    decreases list.len() - i,
{
    if i < list.len() && !above(to, s, list[i]) {
        slot_place_bounds(to, list, s, i + 1);
    }
}

/// The rows of a new list on their way from an old one, `u` of the way, in the order in
/// which they are drawn: a row that changes its rank slides past its neighbours, and a
/// new one rises from below the bottom.
pub fn slide(from: &Vec<String>, to: &Vec<String>, u: Share) -> (r: Vec<Slot>)
    requires
        to@.len() <= u32::MAX,
        from@.len() <= u32::MAX,
        u.num <= u.den,
    ensures
        r@ == slid(text::texts(from@), text::texts(to@), u, to@.len()),
{
    let ghost f = text::texts(from@);
    let ghost t = text::texts(to@);
    let mut out: Vec<Slot> = Vec::new();
    let mut k: usize = 0;
    proof {
        assert(out@ =~= slid(f, t, u, 0));
    }
    while k < to.len()
        invariant
            k <= to@.len() <= u32::MAX,
            from@.len() <= u32::MAX,
            u.num <= u.den,
            f == text::texts(from@),
            t == text::texts(to@),
            out@ == slid(f, t, u, k as nat),
            forall|i: int| 0 <= i < out@.len() ==> (#[trigger] out@[i]).index < to@.len(),
        decreases to@.len() - k,
    {
        let s = slot_of(from, to, u, k);
        let n: usize = out.len();
        let mut i: usize = 0;
        proof {
            slot_place_bounds(t, out@, s, 0);
        }
        while i < n && !goes_above(to, s, out[i])
            invariant
                i <= n == out@.len(),
                s.index < to@.len(),
                t == text::texts(to@),
                forall|j: int| 0 <= j < out@.len() ==> (#[trigger] out@[j]).index < to@.len(),
                slot_place(t, out@, s, 0) == slot_place(t, out@, s, i as int),
            ensures
                i <= n,
                i == slot_place(t, out@, s, 0),
            decreases n - i,
        {
            i += 1;
        }
        out.insert(i, s);
        k += 1;
    }
    out
}

fn goes_above(to: &Vec<String>, a: Slot, b: Slot) -> (r: bool)
    requires
        a.index < to@.len(),
        b.index < to@.len(),
    ensures
        r == above(text::texts(to@), a, b),
{
    proof {
        assert(text::texts(to@)[a.index as int] == to@[a.index as int]@);
        assert(text::texts(to@)[b.index as int] == to@[b.index as int]@);
    }
    a.rank < b.rank || (a.rank == b.rank && text::is_before(
        to[a.index].as_str(),
        to[b.index].as_str(),
    ))
}

/// Every row of the new list is drawn once, and the ranks never go back from one row to
/// the next.
pub proof fn sliding_keeps_the_rows(from: Seq<Seq<char>>, to: Seq<Seq<char>>, u: Share, n: nat)
    requires
        n <= to.len(),
    ensures
        slid(from, to, u, n).len() == n,
        forall|k: int| 0 <= k < n ==> slid(from, to, u, n).contains(#[trigger] slot(from, to, u, k)),
        forall|i: int, j: int|
            0 <= i <= j < n ==> (#[trigger] slid(from, to, u, n)[i]).rank <= (#[trigger] slid(
                from,
                to,
                u,
                n,
            )[j]).rank,
    decreases n,
{
    if n > 0 {
        let list = slid(from, to, u, (n - 1) as nat);
        let s = slot(from, to, u, n - 1);
        let p = slot_place(to, list, s, 0);
        let r = list.insert(p, s);
        sliding_keeps_the_rows(from, to, u, (n - 1) as nat);
        slot_place_bounds(to, list, s, 0);
        assert forall|k: int| 0 <= k < n implies r.contains(#[trigger] slot(from, to, u, k)) by {
            if k == n - 1 {
                assert(r[p] == s);
            } else {
                let i = list.index_of(slot(from, to, u, k));
                assert(list[i] == slot(from, to, u, k));
                if i < p {
                    assert(r[i] == list[i]);
                } else {
                    assert(r[i + 1] == list[i]);
                }
            }
        }
        assert forall|i: int, j: int| 0 <= i <= j < n implies (#[trigger] r[i]).rank <= (
        #[trigger] r[j]).rank by {
            let fi = if i < p {
                i
            } else {
                i - 1
            };
            let fj = if j < p {
                j
            } else {
                j - 1
            };
            if i == p && j == p {
            } else if i == p {
                assert(r[j] == list[fj]);
                assert(s.rank <= list[p].rank);
            } else if j == p {
                assert(r[i] == list[fi]);
            } else {
                assert(r[i] == list[fi] && r[j] == list[fj]);
            }
        }
    }
}

/// At the end of its way every row has reached its place in the new list.
pub proof fn sliding_ends_in_place(from: Seq<Seq<char>>, to: Seq<Seq<char>>, den: u64, k: int)
    requires
        0 <= k < to.len() <= u32::MAX,
        from.len() <= u32::MAX,
    ensures
        slot(from, to, (Share { num: den, den }), k).rank == k * den,
{
    let old_rank = name_from(from, to[k], 0);
    let start = if old_rank < from.len() {
        old_rank
    } else {
        to.len() as int
    };
    assert(start * den + (k - start) * den == k * den) by (nonlinear_arith);
    assert(0 <= k * den <= 0xffff_ffff * 0xffff_ffff_ffff_ffff) by (nonlinear_arith)
        requires
            0 <= k <= 0xffff_ffff,
            0 <= den <= 0xffff_ffff_ffff_ffff,
    ;
}

// ---------------------------------------------------------------------------
// Light around a border.
// ---------------------------------------------------------------------------

/// How many cells a border has.
pub open spec fn border_cells(w: int, h: int) -> int {
    2 * (w - 1) + 2 * (h - 1)
}

/// The place of a cell on a border, clockwise from the upper left corner. None inside.
pub open spec fn border_place(w: int, h: int, x: int, y: int) -> Option<int> {
    if y == 0 {
        Some(x)
    } else if x == w - 1 {
        Some((w - 1) + y)
    } else if y == h - 1 {
        Some((w - 1) + (h - 1) + ((w - 1) - x))
    } else if x == 0 {
        Some(2 * (w - 1) + (h - 1) + ((h - 1) - y))
    } else {
        None
    }
}

/// How far along its border a cell of an area is, `x` and `y` being counted from the
/// upper left corner.
pub fn border_share(a: Area, x: u16, y: u16) -> (r: Option<Share>)
    requires
        a.width >= 2,
        a.height >= 2,
        x < a.width,
        y < a.height,
    ensures
        match r {
            Some(s) => border_place(a.width as int, a.height as int, x as int, y as int) == Some(
                s.num as int,
            ) && s.den == border_cells(a.width as int, a.height as int) && s.num < s.den,
            None => border_place(a.width as int, a.height as int, x as int, y as int) is None,
        },
{
    let w: u64 = a.width as u64 - 1;
    let h: u64 = a.height as u64 - 1;
    let cx: u64 = x as u64;
    let cy: u64 = y as u64;
    let den: u64 = 2 * w + 2 * h;
    if cy == 0 {
        Some(Share { num: cx, den })
    } else if cx == w {
        Some(Share { num: w + cy, den })
    } else if cy == h {
        Some(Share { num: w + h + (w - cx), den })
    } else if cx == 0 {
        Some(Share { num: 2 * w + h + (h - cy), den })
    } else {
        None
    }
}

/// Every cell of a border has a place of its own.
pub proof fn border_places_differ(w: int, h: int, x: int, y: int, p: int, q: int)
    requires
        w >= 2,
        h >= 2,
        0 <= x < w,
        0 <= y < h,
        0 <= p < w,
        0 <= q < h,
        border_place(w, h, x, y) is Some,
        border_place(w, h, x, y) == border_place(w, h, p, q),
    ensures
        x == p && y == q,
{
}

// ---------------------------------------------------------------------------
// How far along things are.
// ---------------------------------------------------------------------------

/// A moment between two samples is as far along as the time since the one out of the time between
/// the two. Up to the first sample it stands at that one, from the last on at the last.
pub proof fn moments_lie_in_proportion(times: Seq<u64>, target: u64, i: int)
    requires
        times.len() > 1,
        forall|a: int, b: int| 0 <= a < b < times.len() ==> times[a] < times[b],
    ensures
        target <= times[0] ==> segment(times, target) == (0int, (0int, 1int)),
        target >= times.last() ==> segment(times, target) == (times.len() - 1, (0int, 1int)),
        0 <= i && i + 1 < times.len() && times[0] < target && times[i] <= target < times[i + 1]
            && times[i + 1] - times[i] >= 1_000_000 ==> segment(times, target) == (
            i,
            (target - times[i], times[i + 1] - times[i]),
        ),
{
    if 0 <= i && i + 1 < times.len() && times[0] < target && times[i] <= target < times[i + 1] {
        if i + 1 < times.len() - 1 {
            assert(times[i + 1] < times[times.len() - 1]);
        }
        segment_is_unique(times, target, i, 0);
    }
}

proof fn segment_is_unique(times: Seq<u64>, target: u64, i: int, j: int)
    requires
        forall|a: int, b: int| 0 <= a < b < times.len() ==> times[a] < times[b],
        0 <= j <= i,
        i + 1 < times.len(),
        times[i] <= target < times[i + 1],
    ensures
        segment_from(times, target, j) == i,
    decreases i - j,
{
    if j < i {
        if j + 1 < i {
            assert(times[j + 1] < times[i]);
        }
        segment_is_unique(times, target, i, j + 1);
    }
}

/// A row that was there before goes evenly from its old place to its new one, fully visible; a
/// new row rises from below the last place and appears as it goes.
pub proof fn rows_go_evenly(
    from: Seq<Seq<char>>,
    to: Seq<Seq<char>>,
    u: Share,
    k: int,
    old_place: int,
)
    requires
        0 <= k < to.len() <= u32::MAX,
        from.len() <= u32::MAX,
        u.num <= u.den,
        0 <= old_place <= from.len(),
        forall|j: int| 0 <= j < old_place ==> from[j] != to[k],
        old_place < from.len() ==> from[old_place] == to[k],
    ensures
        ({
            let s = slot(from, to, u, k);
            let start = if old_place < from.len() {
                old_place
            } else {
                to.len() as int
            };
            &&& s.index == k
            &&& s.rank == start * (u.den - u.num) + k * u.num
            &&& old_place < from.len() ==> s.fade == (Share { num: 1, den: 1 })
            &&& old_place == from.len() ==> s.fade == u
        }),
{
    name_is_found(from, to[k], old_place, 0);
    let start = if old_place < from.len() {
        old_place
    } else {
        to.len() as int
    };
    let (n, d) = (u.num as int, u.den as int);
    assert(start * d + (k - start) * n == start * (d - n) + k * n) by (nonlinear_arith);
    assert(0 <= start * (d - n) + k * n <= 0x1_0000_0000 * 0x1_0000_0000_0000_0000
        * 2) by (nonlinear_arith)
        requires
            0 <= start <= u32::MAX,
            0 <= k <= u32::MAX,
            0 <= n <= d <= u64::MAX,
    ;
}

proof fn name_is_found(list: Seq<Seq<char>>, name: Seq<char>, at: int, i: int)
    requires
        0 <= i <= at <= list.len(),
        forall|j: int| 0 <= j < at ==> list[j] != name,
        at < list.len() ==> list[at] == name,
    ensures
        name_from(list, name, i) == at,
    decreases at - i,
{
    if i < at {
        name_is_found(list, name, at, i + 1);
    }
}

/// The places on a border run clockwise: from the upper left corner to the right, down, to the
/// left and up again, one place for each cell.
pub proof fn borders_run_clockwise(w: int, h: int, x: int, y: int)
    requires
        w >= 2,
        h >= 2,
        0 <= x < w,
        0 <= y < h,
    ensures
        border_place(w, h, 0, 0) == Some(0int),
        x + 1 < w ==> border_place(w, h, x + 1, 0) == Some(border_place(w, h, x, 0)->0 + 1),
        y + 1 < h ==> border_place(w, h, w - 1, y + 1) == Some(
            border_place(w, h, w - 1, y)->0 + 1,
        ),
        x > 0 ==> border_place(w, h, x - 1, h - 1) == Some(border_place(w, h, x, h - 1)->0 + 1),
        y > 1 ==> border_place(w, h, 0, y - 1) == Some(border_place(w, h, 0, y)->0 + 1),
        border_place(w, h, 0, 1)->0 + 1 == border_cells(w, h),
        border_place(w, h, x, y) is None <==> 0 < x < w - 1 && 0 < y < h - 1,
{
}

} // verus!
