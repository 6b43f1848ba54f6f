//! The busiest processes, and the rows of their card.

use vstd::prelude::*;
use crate::panel;
use crate::panel::Area;
use crate::text;
use crate::width;

verus! {

// ---------------------------------------------------------------------------
// The busiest.
// ---------------------------------------------------------------------------

/// How many processes are kept.
pub const KEPT: usize = 6;

/// Process `i` stands before process `j`: it has more load, or it has as much and came first.
pub open spec fn ahead(load: Seq<u32>, i: int, j: int) -> bool {
    load[i] > load[j] || (load[i] == load[j] && i < j)
}

/// Process `k` is in the list.
pub open spec fn listed(top: Seq<usize>, k: int) -> bool {
    exists|i: int| 0 <= i < top.len() && #[trigger] top[i] == k
}

/// A list of some of the first `n` processes, busiest first.
pub open spec fn falling(load: Seq<u32>, n: int, top: Seq<usize>) -> bool {
    &&& forall|i: int| 0 <= i < top.len() ==> #[trigger] top[i] < n
    &&& forall|i: int, j: int|
        0 <= i < j < top.len() ==> ahead(load, #[trigger] top[i] as int, #[trigger] top[j] as int)
}

/// The list holds the busiest of the first `n` processes, busiest first.
pub open spec fn busiest_of(load: Seq<u32>, n: int, top: Seq<usize>) -> bool {
    &&& falling(load, n, top)
    &&& top.len() == if n < KEPT {
        n
    } else {
        KEPT as int
    }
    &&& forall|i: int, k: int|
        0 <= i < top.len() && 0 <= k < n ==> #[trigger] listed(top, k) || ahead(
            load,
            #[trigger] top[i] as int,
            k,
        )
}

/// Where a load goes in a falling list: behind all that have as much.
fn slot(load: &Vec<u32>, top: &Vec<usize>, n: usize) -> (r: usize)
    requires
        n < load@.len(),
        falling(load@, n as int, top@),
    ensures
        r <= top@.len(),
        forall|i: int| 0 <= i < r ==> load@[#[trigger] top@[i] as int] >= load@[n as int],
        forall|i: int| r <= i < top@.len() ==> load@[#[trigger] top@[i] as int] < load@[n as int],
{
    let mut k: usize = top.len();
    while k > 0 && load[top[k - 1]] < load[n]
        invariant
            k <= top@.len(),
            n < load@.len(),
            falling(load@, n as int, top@),
            forall|i: int| k <= i < top@.len() ==> load@[#[trigger] top@[i] as int] < load@[n as int],
        decreases k,
    {
        k -= 1;
    }
    proof {
        assert forall|i: int| 0 <= i < k implies load@[#[trigger] top@[i] as int]
            >= load@[n as int] by {
            if i < k - 1 {
                assert(ahead(load@, top@[i] as int, top@[k - 1] as int));
            }
        }
    }
    k
}

/// One more process in its place leaves a falling list that misses none but those it missed.
proof fn one_more(load: Seq<u32>, n: int, top: Seq<usize>, k: int)
    requires
        0 <= n < load.len() <= usize::MAX,
        busiest_of(load, n, top),
        0 <= k <= top.len(),
        forall|i: int| 0 <= i < k ==> load[#[trigger] top[i] as int] >= load[n],
        forall|i: int| k <= i < top.len() ==> load[#[trigger] top[i] as int] < load[n],
    ensures
        ({
            let more = top.insert(k, n as usize);
            &&& falling(load, n + 1, more)
            &&& listed(more, n)
            &&& forall|j: int| #[trigger] listed(top, j) ==> listed(more, j)
            &&& forall|i: int, j: int|
                0 <= i < top.len() && 0 <= j < n ==> #[trigger] listed(more, j) || ahead(
                    load,
                    #[trigger] more[i] as int,
                    j,
                )
        }),
{
    let more = top.insert(k, n as usize);
    assert(more[k] == n);
    assert forall|j: int| #[trigger] listed(top, j) implies listed(more, j) by {
        let i = choose|i: int| 0 <= i < top.len() && #[trigger] top[i] == j;
        if i < k {
            assert(more[i] == j);
        } else {
            assert(more[i + 1] == j);
        }
    }
    assert forall|i: int| 0 <= i < more.len() implies #[trigger] more[i] < n + 1 by {
        if i < k {
            assert(more[i] == top[i]);
        } else if i > k {
            assert(more[i] == top[i - 1]);
        }
    }
    assert forall|i: int, j: int| 0 <= i < j < more.len() implies ahead(
        load,
        #[trigger] more[i] as int,
        #[trigger] more[j] as int,
    ) by {
        let a = if i < k {
            i
        } else {
            i - 1
        };
        let b = if j < k {
            j
        } else {
            j - 1
        };
        if i != k {
            assert(more[i] == top[a]);
        }
        if j != k {
            assert(more[j] == top[b]);
        }
        if i != k && j != k {
            assert(ahead(load, top[a] as int, top[b] as int));
        }
    }
    assert forall|i: int, j: int|
        0 <= i < top.len() && 0 <= j < n implies #[trigger] listed(more, j) || ahead(
        load,
        #[trigger] more[i] as int,
        j,
    ) by {
        if listed(top, j) {
        } else if i < k {
            assert(more[i] == top[i]);
            assert(ahead(load, top[i] as int, j));
        } else if i > k {
            assert(more[i] == top[i - 1]);
            assert(ahead(load, top[i - 1] as int, j));
        } else {
            assert(ahead(load, top[i] as int, j));
        }
    }
}

/// The last of a list that grew too long is behind all that stay.
proof fn last_falls_out(load: Seq<u32>, n: int, more: Seq<usize>)
    requires
        0 <= n <= load.len() <= usize::MAX,
        falling(load, n, more),
        more.len() == KEPT + 1,
        n > KEPT,
        forall|i: int, j: int|
            0 <= i < KEPT && 0 <= j < n ==> #[trigger] listed(more, j) || ahead(
                load,
                #[trigger] more[i] as int,
                j,
            ),
    ensures
        busiest_of(load, n, more.drop_last()),
{
    let top = more.drop_last();
    assert forall|i: int, j: int|
        0 <= i < top.len() && 0 <= j < n implies #[trigger] listed(top, j) || ahead(
        load,
        #[trigger] top[i] as int,
        j,
    ) by {
        assert(top[i] == more[i]);
        if listed(more, j) {
            let k = choose|k: int| 0 <= k < more.len() && #[trigger] more[k] == j;
            if k < top.len() {
                assert(top[k] == j);
            }
            assert(ahead(load, more[i] as int, more[KEPT as int] as int));
        }
    }
    assert forall|i: int, j: int| 0 <= i < j < top.len() implies ahead(
        load,
        #[trigger] top[i] as int,
        #[trigger] top[j] as int,
    ) by {
        assert(top[i] == more[i] && top[j] == more[j]);
    }
}

/// A list of all processes so far misses none.
proof fn short_list_holds_all(load: Seq<u32>, n: int, top: Seq<usize>)
    requires
        forall|j: int| 0 <= j < n ==> #[trigger] listed(top, j),
        falling(load, n, top),
        top.len() == n <= KEPT,
    ensures
        busiest_of(load, n, top),
{
}

/// The places of the busiest processes, busiest first; of two with the same load the one that
/// came first.
pub fn busiest(load: &Vec<u32>) -> (r: Vec<usize>)
    ensures
        busiest_of(load@, load@.len() as int, r@),
{
    let mut top: Vec<usize> = Vec::new();
    let mut n: usize = 0;
    while n < load.len()
        invariant
            n <= load@.len(),
            busiest_of(load@, n as int, top@),
            n <= KEPT ==> forall|j: int| 0 <= j < n ==> #[trigger] listed(top@, j),
        decreases load@.len() - n,
    {
        let k: usize = slot(load, &top, n);
        let ghost before = top@;
        proof {
            one_more(load@, n as int, before, k as int);
        }
        top.insert(k, n);
        if top.len() > KEPT {
            proof {
                last_falls_out(load@, n + 1, top@);
                assert(top@.drop_last() =~= top@.take(KEPT as int));
            }
            top.truncate(KEPT);
        } else {
            proof {
                assert forall|j: int| 0 <= j < n + 1 implies #[trigger] listed(top@, j) by {
                    if j < n {
                        assert(listed(before, j));
                    }
                }
                short_list_holds_all(load@, n + 1, top@);
            }
        }
        n += 1;
    }
    top
}

/// No process that is left out is busier than one that is kept.
pub proof fn the_busiest_are_kept(load: Seq<u32>, top: Seq<usize>, i: int, k: int)
    requires
        busiest_of(load, load.len() as int, top),
        0 <= i < top.len(),
        0 <= k < load.len(),
        !listed(top, k),
    ensures
        load[k] <= load[top[i] as int],
{
    assert(listed(top, k) || ahead(load, top[i] as int, k));
}

// ---------------------------------------------------------------------------
// The rows.
// ---------------------------------------------------------------------------

/// The heading of the columns.
pub open spec fn heading() -> Seq<char> {
    width::right_aligned("cpu%"@, 6) + "  "@ + width::right_aligned("mem"@, 6) + "   "@
        + width::right_aligned("uptime"@, 6) + "  "@ + "process"@
}

/// The heading of the columns.
pub fn header() -> (r: String)
    ensures
        r@ == heading(),
{
    let mut out = width::align_right("cpu%", 6);
    out.append("  ");
    out.append(width::align_right("mem", 6).as_str());
    out.append("   ");
    out.append(width::align_right("uptime", 6).as_str());
    out.append("  ");
    out.append("process");
    proof {
        assert(out@ =~= heading());
    }
    out
}

/// The characters for a name: what the other columns leave, eight to forty.
pub open spec fn name_cells(iw: int) -> int {
    if iw < 33 {
        8
    } else if iw > 65 {
        40
    } else {
        iw - 25
    }
}

/// The columns behind the load: memory, uptime, name.
pub open spec fn columns(mem: nat, uptime: nat, name: Seq<char>, iw: int) -> (
    Seq<char>,
    Seq<char>,
    Seq<char>,
) {
    (
        "  "@ + width::right_aligned(crate::format::bytes_text(mem), 6),
        "   "@ + width::right_aligned(crate::format::short_dur_text(uptime), 6),
        "  "@ + width::truncated(name, name_cells(iw) as nat),
    )
}

/// The columns behind the load of a process, in a card of `iw` cells.
pub fn proc_columns(mem: u64, uptime: u64, name: &str, iw: u16) -> (r: (String, String, String))
    ensures
        (r.0@, r.1@, r.2@) == columns(mem as nat, uptime as nat, name@, iw as int),
{
    let cells: usize = if iw < 33 {
        8
    } else if iw > 65 {
        40
    } else {
        iw as usize - 25
    };
    let bytes = width::align_right(crate::format::fmt_bytes(mem).as_str(), 6);
    let time = width::align_right(crate::format::fmt_dur_short(uptime).as_str(), 6);
    (
        text::concat2("  ", bytes.as_str()),
        text::concat2("   ", time.as_str()),
        text::concat2("  ", width::truncate(name, cells).as_str()),
    )
}

/// How many processes are shown: one for each row below the heading. None where the card
/// is too small for rows.
pub open spec fn rows_shown(a: Area, n: int) -> Option<int> {
    if a.height < 2 || a.width < 8 {
        None
    } else {
        Some(
            if n < a.height - 1 {
                n
            } else {
                a.height - 1
            },
        )
    }
}

/// How many of `n` processes are shown in a card. `area` is the whole card.
pub fn proc_rows(area: Area, n: usize) -> (r: Option<usize>)
    ensures
        match r {
            Some(k) => rows_shown(panel::inside(area), n as int) == Some(k as int) && k <= n,
            None => rows_shown(panel::inside(area), n as int) is None,
        },
{
    let a = panel::inner(area);
    if a.height < 2 || a.width < 8 {
        None
    } else if n < a.height as usize - 1 {
        Some(n)
    } else {
        Some(a.height as usize - 1)
    }
}

// ---------------------------------------------------------------------------
// Laws of the process card.
// ---------------------------------------------------------------------------

/// Six processes are kept, or all where there are fewer; they stand by falling load, and none is
/// there twice.
pub proof fn six_are_kept_by_falling_load(load: Seq<u32>, top: Seq<usize>, i: int, j: int)
    requires
        busiest_of(load, load.len() as int, top),
        0 <= i < j < top.len(),
    ensures
        load.len() >= 6 ==> top.len() == 6,
        load.len() < 6 ==> top.len() == load.len(),
        top[i] < load.len(),
        load[top[i] as int] >= load[top[j] as int],
        load[top[i] as int] == load[top[j] as int] ==> top[i] < top[j],
        top[i] != top[j],
{
    assert(ahead(load, top[i] as int, top[j] as int));
}

/// A name has what the other columns leave, but eight characters at least and forty at most.
pub proof fn names_have_eight_to_forty(iw: int)
    ensures
        8 <= name_cells(iw) <= 40,
        8 < name_cells(iw) < 40 ==> name_cells(iw) + 25 == iw,
        iw <= 33 ==> name_cells(iw) == 8,
        iw >= 65 ==> name_cells(iw) == 40,
{
}

/// Memory comes before the uptime and the uptime before the name, each in its column.
pub proof fn columns_come_in_order(mem: nat, uptime: nat, name: Seq<char>, iw: int)
    ensures
        columns(mem, uptime, name, iw).0 == "  "@ + width::right_aligned(
            crate::format::bytes_text(mem),
            6,
        ),
        columns(mem, uptime, name, iw).1 == "   "@ + width::right_aligned(
            crate::format::short_dur_text(uptime),
            6,
        ),
        name.len() <= 8 ==> columns(mem, uptime, name, iw).2 == "  "@ + name,
{
    if name.len() <= 8 {
        width::truncating_keeps_the_front(name, name_cells(iw) as nat);
    }
}

/// There is a row for each process that has room below the heading.
pub proof fn rows_stand_below_the_heading(a: Area, n: int)
    requires
        0 <= n,
    ensures
        a.height >= 2 && a.width >= 8 ==> rows_shown(a, n) is Some && rows_shown(a, n)->0 + 1
            <= a.height && rows_shown(a, n)->0 <= n && (rows_shown(a, n)->0 == n || rows_shown(
            a,
            n,
        )->0 + 1 == a.height),
        a.height < 2 || a.width < 8 ==> rows_shown(a, n) is None,
{
}

} // verus!
