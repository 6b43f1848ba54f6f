//! The key binding cheat sheet: groups in balanced columns.

use vstd::prelude::*;
use crate::panel;
use crate::panel::{Area, Bit, Hue, Piece};
use crate::robots::{Block, Placed};
use crate::robots;
use crate::state::{KeyGroup, Keybinds};
use crate::text;
use crate::width;

verus! {

/// The cells for the keys of a binding.
pub const KEY_CELLS: usize = 7;

/// The cells between columns.
pub const COLUMN_GAP: usize = 2;

/// The narrowest column.
pub const COLUMN_MIN: usize = 30;

// ---------------------------------------------------------------------------
// Columns.
// ---------------------------------------------------------------------------

/// One row of the sheet.
#[derive(Clone, Debug, PartialEq, Eq)]
pub enum KbItem {
    Header(String),
    Bind(String, String),
    Blank,
}

/// One row of the sheet, as a mathematical value.
#[verifier::ext_equal]
pub enum Entry {
    Header(Seq<char>),
    Bind(Seq<char>, Seq<char>),
    Blank,
}

/// A row as a mathematical value.
pub open spec fn entry(i: KbItem) -> Entry {
    match i {
        KbItem::Header(s) => Entry::Header(s@),
        KbItem::Bind(k, d) => Entry::Bind(k@, d@),
        KbItem::Blank => Entry::Blank,
    }
}

/// Rows as mathematical values.
pub open spec fn entries(v: Seq<KbItem>) -> Seq<Entry> {
    Seq::new(v.len(), |i: int| entry(v[i]))
}

/// Columns as mathematical values.
pub open spec fn sheet(v: Seq<Vec<KbItem>>) -> Seq<Seq<Entry>> {
    Seq::new(v.len(), |i: int| entries(v[i]@))
}

/// A group: its heading and its bindings.
pub open spec fn group_block(g: KeyGroup) -> Seq<Entry> {
    seq![Entry::Header(g.name@)] + Seq::new(
        g.binds@.len(),
        |i: int| Entry::Bind(g.binds@[i].0@, g.binds@[i].1@),
    )
}

/// All groups.
pub open spec fn group_blocks(groups: Seq<KeyGroup>) -> Seq<Seq<Entry>> {
    Seq::new(groups.len(), |i: int| group_block(groups[i]))
}

/// How many rows blocks have together.
pub open spec fn rows_in(blocks: Seq<Seq<Entry>>) -> nat
    decreases blocks.len(),
{
    if blocks.len() == 0 {
        0
    } else {
        rows_in(blocks.drop_last()) + blocks.last().len()
    }
}

/// The height that columns aim for: an equal share, rounded up.
pub open spec fn target_height(total: int, ncols: int) -> int {
    let n = if ncols > 0 {
        ncols
    } else {
        1
    };
    (total + n - 1) / n
}

/// A column with another block below, a blank row between.
pub open spec fn stacked(open: Seq<Entry>, block: Seq<Entry>) -> Seq<Entry> {
    if open.len() > 0 {
        open.push(Entry::Blank) + block
    } else {
        block
    }
}

/// The finished columns and the open one after the first `n` blocks: a block that would
/// outgrow the target opens a new column, except in the last one.
pub open spec fn flowed(blocks: Seq<Seq<Entry>>, target: int, ncols: int, n: nat) -> (
    Seq<Seq<Entry>>,
    Seq<Entry>,
)
    decreases n,
{
    if n == 0 {
        (seq![], seq![])
    } else {
        let (done, open) = flowed(blocks, target, ncols, (n - 1) as nat);
        let block = blocks[n - 1];
        if open.len() > 0 && done.len() + 1 != ncols && open.len() + 1 + block.len() > target {
            (done.push(open), block)
        } else {
            (done, stacked(open, block))
        }
    }
}

/// The columns of the sheet.
pub open spec fn columns(groups: Seq<KeyGroup>, ncols: int) -> Seq<Seq<Entry>> {
    let blocks = group_blocks(groups);
    let target = target_height(rows_in(blocks) as int, ncols);
    let (done, open) = flowed(blocks, target, ncols, blocks.len());
    done.push(open)
}

/// How many columns fit, one to three.
pub open spec fn column_count(iw: int) -> int {
    let n = (iw + COLUMN_GAP) / (COLUMN_MIN + COLUMN_GAP);
    if n < 1 {
        1
    } else if n > 3 {
        3
    } else {
        n
    }
}

/// How many columns fit into `iw` cells.
pub fn keybinds_ncols(iw: usize) -> (r: usize)
    ensures
        r == column_count(iw as int),
        1 <= r <= 3,
{
    let n: u128 = (iw as u128 + COLUMN_GAP as u128) / (COLUMN_MIN + COLUMN_GAP) as u128;
    if n < 1 {
        1
    } else if n > 3 {
        3
    } else {
        n as usize
    }
}

fn block_of(g: &KeyGroup) -> (r: Vec<KbItem>)
    ensures
        entries(r@) == group_block(*g),
        r@.len() == g.binds@.len() + 1,
{
    let ghost want = group_block(*g);
    let mut out: Vec<KbItem> = Vec::new();
    out.push(KbItem::Header(g.name.clone()));
    let mut i: usize = 0;
    proof {
        assert(entries(out@) =~= want.take(1));
    }
    while i < g.binds.len()
        invariant
            i <= g.binds@.len(),
            want == group_block(*g),
            entries(out@) == want.take(i + 1),
            out@.len() == i + 1,
        decreases g.binds@.len() - i,
    {
        let ghost before = entries(out@);
        out.push(KbItem::Bind(g.binds[i].0.clone(), g.binds[i].1.clone()));
        proof {
            assert(entries(out@) =~= before.push(want[i + 1]));
            assert(want.take(i + 2) =~= want.take(i + 1).push(want[i + 1]));
        }
        i += 1;
    }
    proof {
        assert(want.take(i + 1) =~= want);
    }
    out
}

fn count_rows(groups: &Vec<KeyGroup>) -> (r: usize)
    requires
        rows_in(group_blocks(groups@)) <= usize::MAX,
    ensures
        r == rows_in(group_blocks(groups@)),
{
    let ghost blocks = group_blocks(groups@);
    let mut n: usize = 0;
    let mut i: usize = 0;
    proof {
        assert(blocks.take(0) =~= Seq::<Seq<Entry>>::empty());
    }
    while i < groups.len()
        invariant
            i <= groups@.len(),
            blocks == group_blocks(groups@),
            rows_in(blocks) <= usize::MAX,
            n == rows_in(blocks.take(i as int)),
        decreases groups@.len() - i,
    {
        proof {
            rows_grow(blocks, i + 1);
            assert(blocks.take(i + 1).drop_last() =~= blocks.take(i as int));
            assert(blocks[i as int].len() == groups@[i as int].binds@.len() + 1);
        }
        n += groups[i].binds.len();
        n += 1;
        i += 1;
    }
    proof {
        assert(blocks.take(i as int) =~= blocks);
    }
    n
}

proof fn rows_grow(blocks: Seq<Seq<Entry>>, n: int)
    requires
        0 <= n <= blocks.len(),
    ensures
        rows_in(blocks.take(n)) <= rows_in(blocks),
    decreases blocks.len() - n,
{
    if n < blocks.len() {
        rows_grow(blocks, n + 1);
        assert(blocks.take(n + 1).drop_last() =~= blocks.take(n));
    } else {
        assert(blocks.take(n) =~= blocks);
    }
}

fn push_entries(out: &mut Vec<KbItem>, more: Vec<KbItem>)
    ensures
        entries(final(out)@) == entries(old(out)@) + entries(more@),
{
    let ghost added = more@;
    let mut more = more;
    out.append(&mut more);
    proof {
        assert(entries(out@) =~= entries(old(out)@) + entries(added));
    }
}

fn push_column(out: &mut Vec<Vec<KbItem>>, col: Vec<KbItem>)
    ensures
        sheet(final(out)@) == sheet(old(out)@).push(entries(col@)),
{
    out.push(col);
    proof {
        assert(sheet(out@) =~= sheet(old(out)@).push(entries(col@)));
    }
}

/// Packs the groups into balanced columns. A group is never split from its heading; the
/// last column takes the rest.
pub fn keybinds_columns(kb: &Keybinds, ncols: usize) -> (r: Vec<Vec<KbItem>>)
    requires
        rows_in(group_blocks(kb.groups@)) + ncols <= usize::MAX,
    ensures
        sheet(r@) == columns(kb.groups@, ncols as int),
{
    let ghost blocks = group_blocks(kb.groups@);
    let total: usize = count_rows(&kb.groups);
    let n: usize = if ncols > 0 {
        ncols
    } else {
        1
    };
    let target: usize = (total + (n - 1)) / n;
    let mut done: Vec<Vec<KbItem>> = Vec::new();
    let mut open: Vec<KbItem> = Vec::new();
    let mut i: usize = 0;
    proof {
        assert(target == target_height(rows_in(blocks) as int, ncols as int));
        assert(sheet(done@) =~= flowed(blocks, target as int, ncols as int, 0).0);
        assert(entries(open@) =~= flowed(blocks, target as int, ncols as int, 0).1);
    }
    while i < kb.groups.len()
        invariant
            i <= kb.groups@.len() == blocks.len(),
            blocks == group_blocks(kb.groups@),
            sheet(done@) == flowed(blocks, target as int, ncols as int, i as nat).0,
            entries(open@) == flowed(blocks, target as int, ncols as int, i as nat).1,
            done@.len() <= i,
        decreases kb.groups@.len() - i,
    {
        let block = block_of(&kb.groups[i]);
        proof {
            assert(entries(block@) == blocks[i as int]);
            assert(entries(block@).len() == block@.len());
            assert(entries(open@).len() == open@.len());
            assert(sheet(done@).len() == done@.len());
        }
        let h: usize = open.len();
        let last = done.len() + 1 == ncols;
        if h > 0 && !last && (h >= target || block.len() >= target - h) {
            push_column(&mut done, open);
            proof {
                assert(sheet(done@).len() == done@.len());
            }
            open = block;
        } else if h > 0 {
            let ghost before = entries(open@);
            open.push(KbItem::Blank);
            proof {
                assert(entries(open@) =~= before.push(Entry::Blank));
            }
            push_entries(&mut open, block);
        } else {
            open = block;
        }
        i += 1;
    }
    push_column(&mut done, open);
    done
}

/// The height of the tallest column.
pub open spec fn tallest(cols: Seq<Seq<Entry>>) -> nat
    decreases cols.len(),
{
    if cols.len() == 0 {
        0
    } else if cols.last().len() > tallest(cols.drop_last()) {
        cols.last().len()
    } else {
        tallest(cols.drop_last())
    }
}

/// The rows that the card asks for: its tallest column and its border.
pub open spec fn height_wanted(kb: Keybinds, outer: int) -> int {
    if !kb.available {
        4
    } else if kb.groups@.len() == 0 {
        3
    } else {
        let cols = columns(kb.groups@, column_count(panel::minus(outer, 4)));
        if tallest(cols) + 2 > u16::MAX {
            u16::MAX as int
        } else {
            tallest(cols) + 2int
        }
    }
}

/// The rows that the card asks for, `outer` cells wide.
pub fn keybinds_height(kb: &Keybinds, outer: u16) -> (r: u16)
    requires
        rows_in(group_blocks(kb.groups@)) + 3 <= usize::MAX,
    ensures
        r == height_wanted(*kb, outer as int),
{
    if !kb.available {
        return 4;
    }
    if kb.groups.len() == 0 {
        return 3;
    }
    let iw: u16 = if outer > 4 {
        outer - 4
    } else {
        0
    };
    let cols = keybinds_columns(kb, keybinds_ncols(iw as usize));
    let ghost view = sheet(cols@);
    let mut best: usize = 0;
    let mut i: usize = 0;
    proof {
        assert(view.take(0) =~= Seq::<Seq<Entry>>::empty());
    }
    while i < cols.len()
        invariant
            i <= cols@.len(),
            view == sheet(cols@),
            best == tallest(view.take(i as int)),
        decreases cols@.len() - i,
    {
        proof {
            assert(view.take(i + 1).drop_last() =~= view.take(i as int));
            assert(view[i as int].len() == cols@[i as int]@.len());
        }
        if cols[i].len() > best {
            best = cols[i].len();
        }
        i += 1;
    }
    proof {
        assert(view.take(i as int) =~= view);
    }
    if best > 0xfffd {
        0xffff
    } else {
        best as u16 + 2
    }
}

// ---------------------------------------------------------------------------
// The card.
// ---------------------------------------------------------------------------

/// A row of the sheet as it is shown.
pub open spec fn entry_row(e: Entry, cells: int) -> Seq<Bit> {
    match e {
        Entry::Blank => seq![],
        Entry::Header(s) => seq![panel::bold(width::fitted(s, cells as nat), Hue::Pink)],
        Entry::Bind(k, d) => seq![
            panel::bold(width::padded(k, KEY_CELLS as nat), Hue::Cyan),
            panel::raw(" "@),
            panel::flat(width::fitted(d, panel::minus(cells, 8) as nat), Hue::Text),
        ],
    }
}

/// A column as it is shown.
pub open spec fn column_rows(col: Seq<Entry>, cells: int) -> Seq<Seq<Bit>> {
    Seq::new(col.len(), |i: int| entry_row(col[i], cells))
}

/// The cells of one of `n` columns.
pub open spec fn column_cells(iw: int, n: int) -> int {
    (iw - COLUMN_GAP * (n - 1)) / n
}

/// The columns where they are drawn.
pub open spec fn column_blocks(a: Area, groups: Seq<KeyGroup>) -> Seq<Block> {
    let n = column_count(a.width as int);
    let cells = column_cells(a.width as int, n);
    let cols = columns(groups, n);
    Seq::new(
        cols.len(),
        |i: int|
            Block {
                lines: column_rows(cols[i], cells),
                at: Area {
                    x: (a.x + i * (cells + COLUMN_GAP)) as u16,
                    y: a.y,
                    width: cells as u16,
                    height: a.height,
                },
            },
    )
}

/// The inside of the card.
pub open spec fn sheet_inside(a: Area, kb: Keybinds) -> Seq<Block> {
    if a.height < 2 || a.width < 12 {
        seq![]
    } else if !kb.available {
        seq![
            Block {
                lines: seq![
                    seq![panel::flat("⌘ waiting for Hammerspoon…"@, Hue::Dim)],
                    seq![
                        panel::flat("reload Hammerspoon (Ctrl+Alt+R) to populate"@, Hue::Faint),
                    ],
                ],
                at: a,
            },
        ]
    } else {
        column_blocks(a, kb.groups@)
    }
}

/// The title of the card: how Hyper is produced.
pub open spec fn sheet_title(kb: Keybinds) -> Seq<Bit> {
    seq![panel::bold(" KEYBINDS "@, Hue::Accent)] + if kb.available && kb.hyper@.len() > 0 {
        seq![panel::flat("· Hyper = "@ + kb.hyper@ + " "@, Hue::Dim)]
    } else {
        seq![]
    }
}

/// Placed columns as mathematical values.
pub open spec fn placed(v: Seq<Placed>) -> Seq<Block> {
    Seq::new(v.len(), |i: int| robots::block(v[i]))
}

fn entry_line(e: &KbItem, cells: usize) -> (r: Vec<Piece>)
    ensures
        panel::bits(r@) == entry_row(entry(*e), cells as int),
{
    let mut line = panel::line();
    match e {
        KbItem::Blank => {},
        KbItem::Header(s) => {
            panel::push_bold(
                &mut line,
                width::fit_width(s.as_str(), cells).as_str(),
                Hue::Pink,
            );
        },
        KbItem::Bind(k, d) => {
            let room: usize = if cells > 8 {
                cells - 8
            } else {
                0
            };
            panel::push_bold(
                &mut line,
                width::pad_width(k.as_str(), KEY_CELLS).as_str(),
                Hue::Cyan,
            );
            panel::push_raw(&mut line, " ");
            panel::push_flat(
                &mut line,
                width::fit_width(d.as_str(), room).as_str(),
                Hue::Text,
            );
        },
    }
    proof {
        assert(panel::bits(line@) =~= entry_row(entry(*e), cells as int));
    }
    line
}

fn column_lines(col: &Vec<KbItem>, cells: usize) -> (r: Vec<Vec<Piece>>)
    ensures
        panel::rows(r@) == column_rows(entries(col@), cells as int),
{
    let ghost want = column_rows(entries(col@), cells as int);
    let mut lines: Vec<Vec<Piece>> = Vec::new();
    let mut i: usize = 0;
    proof {
        assert(panel::rows(lines@) =~= want.take(0));
    }
    while i < col.len()
        invariant
            i <= col@.len() == want.len(),
            want == column_rows(entries(col@), cells as int),
            panel::rows(lines@) == want.take(i as int),
        decreases col@.len() - i,
    {
        let l = entry_line(&col[i], cells);
        proof {
            assert(entries(col@)[i as int] == entry(col@[i as int]));
            assert(panel::bits(l@) == want[i as int]);
            assert(want.take(i + 1) =~= want.take(i as int).push(want[i as int]));
        }
        panel::push_row(&mut lines, l);
        i += 1;
    }
    proof {
        assert(want.take(i as int) =~= want);
    }
    lines
}

proof fn flow_is_narrow(blocks: Seq<Seq<Entry>>, target: int, ncols: int, n: nat)
    requires
        ncols >= 1,
    ensures
        flowed(blocks, target, ncols, n).0.len() + 1 <= ncols,
    decreases n,
{
    if n > 0 {
        flow_is_narrow(blocks, target, ncols, (n - 1) as nat);
    }
}

/// There are never more columns than fit.
pub proof fn columns_fit(groups: Seq<KeyGroup>, ncols: int)
    requires
        ncols >= 1,
    ensures
        1 <= columns(groups, ncols).len() <= ncols,
{
    let blocks = group_blocks(groups);
    flow_is_narrow(
        blocks,
        target_height(rows_in(blocks) as int, ncols),
        ncols,
        blocks.len(),
    );
}

/// The columns of the sheet, drawn beside each other in `a`.
fn draw_columns(a: Area, kb: &Keybinds) -> (r: Vec<Placed>)
    requires
        a.width >= 12,
        a.x + a.width <= u16::MAX,
        rows_in(group_blocks(kb.groups@)) + 3 <= usize::MAX,
    ensures
        placed(r@) == column_blocks(a, kb.groups@),
{
    let n: usize = keybinds_ncols(a.width as usize);
    let cols = keybinds_columns(kb, n);
    let cells: usize = (a.width as usize - COLUMN_GAP * (n - 1)) / n;
    let ghost view = sheet(cols@);
    let ghost want = column_blocks(a, kb.groups@);
    proof {
        columns_fit(kb.groups@, n as int);
        assert(view.len() == cols@.len());
        assert(cells == column_cells(a.width as int, n as int));
        assert(n * (cells + COLUMN_GAP) <= a.width + COLUMN_GAP) by (nonlinear_arith)
            requires
                cells == (a.width - COLUMN_GAP * (n - 1)) / n as int,
                1 <= n,
                COLUMN_GAP == 2,
                a.width - COLUMN_GAP * (n - 1) >= 0,
        ;
    }
    let mut out: Vec<Placed> = Vec::new();
    let mut i: usize = 0;
    proof {
        assert(placed(out@) =~= want.take(0));
    }
    while i < cols.len()
        invariant
            i <= cols@.len() <= n <= 3,
            cols@.len() == want.len(),
            n == column_count(a.width as int),
            cells == column_cells(a.width as int, n as int),
            cells <= a.width,
            n * (cells + COLUMN_GAP) <= a.width + COLUMN_GAP,
            a.x + a.width <= u16::MAX,
            view == sheet(cols@),
            view == columns(kb.groups@, n as int),
            want == column_blocks(a, kb.groups@),
            placed(out@) == want.take(i as int),
        decreases cols@.len() - i,
    {
        proof {
            assert(i * (cells + COLUMN_GAP) <= (n - 1) * (cells + COLUMN_GAP) && (n - 1) * (cells
                + COLUMN_GAP) == n * (cells + COLUMN_GAP) - (cells + COLUMN_GAP) && 0 <= i * (cells
                + COLUMN_GAP)) by (nonlinear_arith)
                requires
                    0 <= i <= n - 1,
                    cells >= 0,
                    COLUMN_GAP == 2,
            ;
        }
        let x: u16 = a.x + (i * (cells + COLUMN_GAP)) as u16;
        let p = Placed {
            lines: column_lines(&cols[i], cells),
            at: Area { x, y: a.y, width: cells as u16, height: a.height },
        };
        let ghost before = placed(out@);
        out.push(p);
        proof {
            assert(view[i as int] == entries(cols@[i as int]@));
            assert(robots::block(p) == want[i as int]);
            assert(placed(out@) =~= before.push(want[i as int]));
            assert(want.take(i + 1) =~= want.take(i as int).push(want[i as int]));
        }
        i += 1;
    }
    proof {
        assert(want.take(i as int) =~= want);
    }
    out
}

/// The key binding card: its title and its columns. `area` is the whole card.
pub fn keybinds_card(area: Area, kb: &Keybinds) -> (r: (Vec<Piece>, Vec<Placed>))
    requires
        area.wf(),
        rows_in(group_blocks(kb.groups@)) + 3 <= usize::MAX,
    ensures
        panel::bits(r.0@) == sheet_title(*kb),
        placed(r.1@) == sheet_inside(panel::inside(area), *kb),
{
    let mut title = panel::line();
    panel::push_bold(&mut title, " KEYBINDS ", Hue::Accent);
    if kb.available && text::chars_of(kb.hyper.as_str()).len() > 0 {
        panel::push_flat(
            &mut title,
            text::concat3("· Hyper = ", kb.hyper.as_str(), " ").as_str(),
            Hue::Dim,
        );
    }
    proof {
        assert(panel::bits(title@) =~= sheet_title(*kb));
    }
    let a = panel::inner(area);
    let mut out: Vec<Placed> = Vec::new();
    if a.height < 2 || a.width < 12 {
        proof {
            assert(placed(out@) =~= sheet_inside(a, *kb));
        }
        return (title, out);
    }
    if !kb.available {
        let mut lines: Vec<Vec<Piece>> = Vec::new();
        panel::push_row(&mut lines, panel::flat_line("⌘ waiting for Hammerspoon…", Hue::Dim));
        panel::push_row(
            &mut lines,
            panel::flat_line("reload Hammerspoon (Ctrl+Alt+R) to populate", Hue::Faint),
        );
        proof {
            assert(panel::rows(lines@) =~= sheet_inside(a, *kb)[0].lines);
        }
        out.push(Placed { lines, at: a });
        proof {
            assert(placed(out@) =~= sheet_inside(a, *kb));
        }
        return (title, out);
    }
    (title, draw_columns(a, kb))
}

// ---------------------------------------------------------------------------
// Laws of the sheet.
// ---------------------------------------------------------------------------

/// A block stands in a column in one piece.
pub open spec fn stands_in(col: Seq<Entry>, block: Seq<Entry>) -> bool {
    exists|o: int|
        0 <= o && o + block.len() <= col.len() && #[trigger] col.subrange(o, o + block.len())
            == block
}

proof fn flow_splits_none(blocks: Seq<Seq<Entry>>, target: int, ncols: int, n: nat, i: int)
    requires
        0 <= i < n <= blocks.len(),
    ensures
        stands_in(flowed(blocks, target, ncols, n).1, blocks[i]) || exists|k: int|
            0 <= k < flowed(blocks, target, ncols, n).0.len() && stands_in(
                #[trigger] flowed(blocks, target, ncols, n).0[k],
                blocks[i],
            ),
    decreases n,
{
    let (done, open) = flowed(blocks, target, ncols, (n - 1) as nat);
    let (done2, open2) = flowed(blocks, target, ncols, n);
    let block = blocks[n - 1];
    let moved = open.len() > 0 && done.len() + 1 != ncols && open.len() + 1 + block.len() > target;
    if i == n - 1 {
        if moved || open.len() == 0 {
            assert(open2.subrange(0, 0int + block.len()) =~= block);
        } else {
            let o = open.len() + 1int;
            assert(open2.subrange(o, o + block.len()) =~= block);
        }
    } else {
        flow_splits_none(blocks, target, ncols, (n - 1) as nat, i);
        let b = blocks[i];
        if stands_in(open, b) {
            let o = choose|o: int|
                0 <= o && o + b.len() <= open.len() && #[trigger] open.subrange(o, o + b.len())
                    == b;
            if moved {
                assert(done2[done.len() as int] == open);
                assert(stands_in(done2[done.len() as int], b));
            } else if open.len() == 0 {
                assert(b =~= Seq::<Entry>::empty());
                assert(open2.subrange(0, 0int + b.len()) =~= b);
            } else {
                assert(open2.subrange(o, o + b.len()) =~= open.subrange(o, o + b.len()));
            }
        } else {
            let k = choose|k: int| 0 <= k < done.len() && stands_in(#[trigger] done[k], b);
            assert(done2[k] == done[k]);
            assert(stands_in(done2[k], b));
        }
    }
}

/// A group is never split from its heading: all of it stands in one column, one row
/// below the other.
pub proof fn groups_are_never_split(groups: Seq<KeyGroup>, ncols: int, i: int)
    requires
        0 <= i < groups.len(),
    ensures
        exists|k: int|
            0 <= k < columns(groups, ncols).len() && stands_in(
                #[trigger] columns(groups, ncols)[k],
                group_block(groups[i]),
            ),
{
    let blocks = group_blocks(groups);
    let target = target_height(rows_in(blocks) as int, ncols);
    flow_splits_none(blocks, target, ncols, blocks.len(), i);
    let (done, open) = flowed(blocks, target, ncols, blocks.len());
    let cols = columns(groups, ncols);
    if stands_in(open, blocks[i]) {
        assert(cols[done.len() as int] == open);
        assert(stands_in(cols[done.len() as int], blocks[i]));
    } else {
        let k = choose|k: int| 0 <= k < done.len() && stands_in(#[trigger] done[k], blocks[i]);
        assert(cols[k] == done[k]);
        assert(stands_in(cols[k], blocks[i]));
    }
}

proof fn tallest_bounds(cols: Seq<Seq<Entry>>, k: int)
    requires
        0 <= k < cols.len(),
    ensures
        cols[k].len() <= tallest(cols),
    decreases cols.len(),
{
    if k < cols.len() - 1 {
        tallest_bounds(cols.drop_last(), k);
    }
}

/// The card hugs its contents: given the rows that it asks for, every column fits.
pub proof fn sheet_fits_the_card(area: Area, kb: Keybinds, k: int)
    requires
        kb.available,
        kb.groups@.len() > 0,
        area.height == height_wanted(kb, area.width as int),
        area.height < u16::MAX,
        0 <= k < columns(kb.groups@, column_count(panel::inside(area).width as int)).len(),
    ensures
        columns(kb.groups@, column_count(panel::inside(area).width as int))[k].len()
            <= panel::inside(area).height,
{
    tallest_bounds(columns(kb.groups@, column_count(panel::inside(area).width as int)), k);
}

/// Rows one after the other.
pub open spec fn in_a_row(cols: Seq<Seq<Entry>>) -> Seq<Entry>
    decreases cols.len(),
{
    if cols.len() == 0 {
        seq![]
    } else {
        in_a_row(cols.drop_last()) + cols.last()
    }
}

/// The rows that are not blank.
pub open spec fn written(rows: Seq<Entry>) -> Seq<Entry> {
    rows.filter(|e: Entry| e !is Blank)
}

proof fn written_parts(a: Seq<Entry>, b: Seq<Entry>)
    ensures
        written(a + b) == written(a) + written(b),
{
    Seq::filter_distributes_over_add(a, b, |e: Entry| e !is Blank);
}

proof fn written_whole(a: Seq<Entry>)
    requires
        forall|i: int| 0 <= i < a.len() ==> a[i] !is Blank,
    ensures
        written(a) == a,
    decreases a.len(),
{
    reveal(Seq::filter);
    if a.len() > 0 {
        assert forall|i: int| 0 <= i < a.drop_last().len() implies a.drop_last()[i] !is Blank by {
            assert(a.drop_last()[i] == a[i]);
        }
        written_whole(a.drop_last());
        assert(a.drop_last().push(a.last()) =~= a);
    }
}

proof fn flow_keeps_order(blocks: Seq<Seq<Entry>>, target: int, ncols: int, n: nat)
    requires
        n <= blocks.len(),
        forall|k: int, i: int|
            0 <= k < blocks.len() && 0 <= i < blocks[k].len() ==> (#[trigger] blocks[k][i]) !is Blank,
    ensures
        written(
            in_a_row(flowed(blocks, target, ncols, n).0) + flowed(blocks, target, ncols, n).1,
        ) == in_a_row(blocks.take(n as int)),
    decreases n,
{
    if n == 0 {
        reveal(Seq::filter);
        assert(blocks.take(0) =~= Seq::<Seq<Entry>>::empty());
        assert(in_a_row(flowed(blocks, target, ncols, n).0) + flowed(blocks, target, ncols, n).1
            =~= Seq::<Entry>::empty());
    } else {
        flow_keeps_order(blocks, target, ncols, (n - 1) as nat);
        let (done, open) = flowed(blocks, target, ncols, (n - 1) as nat);
        let block = blocks[n - 1];
        assert(blocks.take(n as int).drop_last() =~= blocks.take(n - 1));
        assert forall|i: int| 0 <= i < block.len() implies block[i] !is Blank by {
            assert(blocks[n - 1][i] !is Blank);
        }
        written_whole(block);
        let front = in_a_row(done) + open;
        written_parts(front, block);
        if open.len() > 0 && done.len() + 1 != ncols && open.len() + 1 + block.len() > target {
            assert(done.push(open).drop_last() =~= done);
        } else if open.len() > 0 {
            let gap = seq![Entry::Blank];
            assert(in_a_row(done) + (open.push(Entry::Blank) + block) =~= (front + gap) + block);
            written_parts(front + gap, block);
            written_parts(front, gap);
            assert(written(gap) =~= Seq::<Entry>::empty()) by {
                reveal_with_fuel(Seq::filter, 2);
                assert(gap.drop_last() =~= Seq::<Entry>::empty());
            }
            assert(written(front) + written(gap) =~= written(front));
        } else {
            assert(front =~= in_a_row(done));
            assert(in_a_row(done) + block =~= front + block);
        }
    }
}

/// Read column by column, the sheet holds the headings and bindings of all groups in their order,
/// none lost and none twice, with nothing but blank rows between.
pub proof fn sheet_keeps_the_order(groups: Seq<KeyGroup>, ncols: int)
    ensures
        written(in_a_row(columns(groups, ncols))) == in_a_row(group_blocks(groups)),
{
    let blocks = group_blocks(groups);
    let target = target_height(rows_in(blocks) as int, ncols);
    flow_keeps_order(blocks, target, ncols, blocks.len());
    let (done, open) = flowed(blocks, target, ncols, blocks.len());
    assert(done.push(open).drop_last() =~= done);
    assert(blocks.take(blocks.len() as int) =~= blocks);
}

/// A group is its name and below it its bindings, key and meaning, in their order.
pub proof fn groups_list_their_bindings(g: KeyGroup, i: int)
    requires
        0 <= i < g.binds@.len(),
    ensures
        group_block(g).len() == g.binds@.len() + 1,
        group_block(g)[0] == Entry::Header(g.name@),
        group_block(g)[i + 1] == Entry::Bind(g.binds@[i].0@, g.binds@[i].1@),
{
}

/// Columns aim for an equal share of all rows, rounded up, and there is a column for each 30
/// cells and the gaps of two between, three at most.
pub proof fn columns_share_the_rows(total: int, ncols: int, iw: int)
    requires
        0 <= total,
        ncols >= 1,
        iw >= 0,
    ensures
        ncols * target_height(total, ncols) >= total,
        ncols * (target_height(total, ncols) - 1) < total,
        iw < 62 ==> column_count(iw) == 1,
        62 <= iw < 94 ==> column_count(iw) == 2,
        iw >= 94 ==> column_count(iw) == 3,
{
    let t = target_height(total, ncols);
    vstd::arithmetic::div_mod::lemma_fundamental_div_mod(total + ncols - 1, ncols);
    assert(ncols * (t - 1) == ncols * t - ncols) by (nonlinear_arith);
}

/// The tallest column is none below another, and is there.
pub proof fn tallest_column_is_there(cols: Seq<Seq<Entry>>, k: int)
    requires
        0 <= k < cols.len(),
    ensures
        cols[k].len() <= tallest(cols),
        exists|j: int| 0 <= j < cols.len() && (#[trigger] cols[j]).len() == tallest(cols),
    decreases cols.len(),
{
    let front = cols.drop_last();
    if front.len() > 0 {
        let i = if k < front.len() {
            k
        } else {
            0
        };
        tallest_column_is_there(front, i);
        assert(k < front.len() ==> front[k] == cols[k]);
        let j = choose|j: int| 0 <= j < front.len() && (#[trigger] front[j]).len() == tallest(front);
        assert(cols[j] == front[j]);
    } else {
        assert(tallest(front) == 0);
    }
    assert(cols[cols.len() - 1] == cols.last());
}

/// The columns are as wide as the card lets them be beside each other with two cells between.
pub proof fn columns_fill_the_width(iw: int, n: int)
    requires
        n >= 1,
    ensures
        n * column_cells(iw, n) + 2 * (n - 1) <= iw,
        n * (column_cells(iw, n) + 1) + 2 * (n - 1) > iw,
{
    let a = iw - 2 * (n - 1);
    vstd::arithmetic::div_mod::lemma_fundamental_div_mod(a, n);
    assert(n * (a / n + 1) == n * (a / n) + n) by (nonlinear_arith);
}

/// A binding shows its keys in seven cells and its meaning behind them, a heading its name.
pub proof fn rows_show_keys_and_meaning(k: Seq<char>, d: Seq<char>, cells: int)
    requires
        cells >= 8,
    ensures
        entry_row(Entry::Bind(k, d), cells).len() == 3,
        entry_row(Entry::Bind(k, d), cells)[0].text == width::padded(k, 7),
        entry_row(Entry::Bind(k, d), cells)[2].text == width::fitted(d, (cells - 8) as nat),
        entry_row(Entry::Header(k), cells).len() == 1,
        entry_row(Entry::Header(k), cells)[0].text == width::fitted(k, cells as nat),
        entry_row(Entry::Blank, cells).len() == 0,
{
}

} // verus!
