//! The cards beside the player: facts, the queue, and the synopsis of a film.

use vstd::prelude::*;
use crate::digits;
use crate::lrc::Share;
use crate::panel;
use crate::panel::{Area, Bit, Body, Card, Hue, Ink, Inside, Piece, Sweep};
use crate::state;
use crate::state::{MediaSource, MusicFacts, MusicStats, Queue, QueueTrack, WatchInfo};
use crate::text;
use crate::width;

verus! {

// ---------------------------------------------------------------------------
// Views that dissolve into each other.
// ---------------------------------------------------------------------------

/// How long a dissolve takes.
pub const FADE: u64 = 900_000_000;

/// How long a page of the synopsis stays.
pub const SYNOPSIS_HOLD: u64 = 8_000_000_000;

/// How long a page of facts about a song stays.
pub const SONG_HOLD: u64 = 3_400_000_000;

/// How long a page of facts about a film stays.
pub const FILM_HOLD: u64 = 9_000_000_000;

/// Twice the time in which a view fades out; a dissolve is never quite sudden.
pub open spec fn dissolve_time(fade: u64) -> int {
    if fade > 200_000 {
        fade as int
    } else {
        200_000
    }
}

/// Which of `n` views is shown at a time, and how far: each is held, fades out, and
/// the next fades in.
pub open spec fn dissolve(n: nat, t: u64, hold: u64, fade: u64) -> (int, int, int) {
    if n <= 1 {
        (0, 1, 1)
    } else {
        let slot = hold + fade;
        let i = (t as int / slot) % n as int;
        let w = t as int % slot;
        let d = dissolve_time(fade);
        if w < hold {
            (i, 1, 1)
        } else if 2 * (w - hold) < d {
            (i, d - 2 * (w - hold), d)
        } else {
            ((i + 1) % n as int, 2 * (w - hold) - d, d)
        }
    }
}

/// Which of `n` views is shown at a time, and how far.
pub fn dissolve_phase(n: usize, t: u64, hold: u64, fade: u64) -> (r: (usize, Share))
    requires
        0 < hold + fade,
        hold + fade <= u32::MAX * 1_000_000_000,
    ensures
        (r.0 as int, r.1.num as int, r.1.den as int) == dissolve(n as nat, t, hold, fade),
        n > 0 ==> r.0 < n,
        0 < r.1.den,
        r.1.num <= r.1.den,
{
    if n <= 1 {
        return (0, Share { num: 1, den: 1 });
    }
    let slot: u64 = hold + fade;
    let i: usize = ((t / slot) % n as u64) as usize;
    let w: u64 = t % slot;
    let d: u64 = if fade > 200_000 {
        fade
    } else {
        200_000
    };
    if w < hold {
        (i, Share { num: 1, den: 1 })
    } else {
        let past: u64 = 2 * (w - hold);
        if past < d {
            (i, Share { num: d - past, den: d })
        } else {
            let next: usize = if i + 1 < n {
                i + 1
            } else {
                0
            };
            proof {
                assert(next == (i + 1) % n as int) by {
                    if i + 1 < n {
                        vstd::arithmetic::div_mod::lemma_small_mod((i + 1) as nat, n as nat);
                    } else {
                        vstd::arithmetic::div_mod::lemma_mod_self_0(n as int);
                    }
                }
            }
            (next, Share { num: past - d, den: d })
        }
    }
}

/// A view is fully shown while it is held, whichever it is.
pub proof fn held_views_are_clear(n: nat, t: u64, hold: u64, fade: u64)
    requires
        0 < hold + fade,
        t as int % (hold + fade) < hold,
    ensures
        dissolve(n, t, hold, fade).1 == dissolve(n, t, hold, fade).2,
{
}

/// A dissolve is smooth: a view changes only where it is invisible.
pub proof fn views_change_unseen(n: nat, t: u64, hold: u64, fade: u64)
    requires
        n > 1,
        0 < hold + fade,
        t < u64::MAX,
        dissolve(n, t, hold, fade).0 != dissolve(n, (t + 1) as u64, hold, fade).0,
        fade >= 200_000,
    ensures
        dissolve(n, (t + 1) as u64, hold, fade).1 <= 1,
{
    let slot = hold + fade;
    let q = t as int / slot;
    let w = t as int % slot;
    vstd::arithmetic::div_mod::lemma_fundamental_div_mod(t as int, slot);
    if w + 1 < slot {
        vstd::arithmetic::div_mod::lemma_fundamental_div_mod_converse(t + 1, slot, q, w + 1);
    } else {
        assert(t + 1 == slot * (q + 1)) by (nonlinear_arith)
            requires
                t == slot * q + w,
                w + 1 == slot,
        ;
        vstd::arithmetic::div_mod::lemma_fundamental_div_mod_converse(t + 1, slot, q + 1, 0);
        vstd::arithmetic::div_mod::lemma_add_mod_noop(q, 1, n as int);
        vstd::arithmetic::div_mod::lemma_small_mod(1, n);
    }
}

// ---------------------------------------------------------------------------
// Facts.
// ---------------------------------------------------------------------------

/// The hue of a bullet.
pub open spec fn bullet_hue(i: int) -> Hue {
    if i % 5 == 0 {
        Hue::Cyan
    } else if i % 5 == 1 {
        Hue::Pink
    } else if i % 5 == 2 {
        Hue::Green
    } else if i % 5 == 3 {
        Hue::Yellow
    } else {
        Hue::Accent
    }
}

fn bullet_of(i: usize) -> (r: Hue)
    ensures
        r == bullet_hue(i as int),
{
    let k: usize = i % 5;
    if k == 0 {
        Hue::Cyan
    } else if k == 1 {
        Hue::Pink
    } else if k == 2 {
        Hue::Green
    } else if k == 3 {
        Hue::Yellow
    } else {
        Hue::Accent
    }
}

/// The characters that a fact has beside its bullet, four at least.
pub open spec fn fact_width(iw: nat) -> nat {
    if iw >= 6 {
        (iw - 2) as nat
    } else {
        4
    }
}

/// A fact: a bullet, and a hanging indent.
pub open spec fn fact_block(i: int, fact: Seq<char>, iw: nat) -> Seq<Seq<Bit>> {
    let parts = width::wrapped(fact, fact_width(iw));
    Seq::new(
        parts.len(),
        |j: int|
            seq![
                if j == 0 {
                    panel::bold("• "@, bullet_hue(i))
                } else {
                    panel::raw("  "@)
                },
                panel::inked(parts[j], Ink::Breath),
            ],
    )
}

/// All facts, each with its lines.
pub open spec fn fact_blocks(facts: Seq<Seq<char>>, iw: nat) -> Seq<Seq<Seq<Bit>>> {
    Seq::new(facts.len(), |i: int| fact_block(i, facts[i], iw))
}

/// The first `n` blocks packed into full pages and a page that is still open: a
/// block that does not fit opens a new page.
pub open spec fn packed(blocks: Seq<Seq<Seq<Bit>>>, max: int, n: nat) -> (
    Seq<Seq<Seq<Bit>>>,
    Seq<Seq<Bit>>,
)
    decreases n,
{
    if n == 0 {
        (seq![], seq![])
    } else {
        let (pages, open) = packed(blocks, max, (n - 1) as nat);
        let block = blocks[n - 1];
        if open.len() > 0 && open.len() + block.len() > max {
            (pages.push(open), block)
        } else {
            (pages, open + block)
        }
    }
}

/// The pages of blocks.
pub open spec fn pages_of(blocks: Seq<Seq<Seq<Bit>>>, max: int) -> Seq<Seq<Seq<Bit>>> {
    let (pages, open) = packed(blocks, max, blocks.len());
    if open.len() > 0 {
        pages.push(open)
    } else {
        pages
    }
}

/// Pages as mathematical values.
pub open spec fn sheets(v: Seq<Vec<Vec<Piece>>>) -> Seq<Seq<Seq<Bit>>> {
    Seq::new(v.len(), |i: int| panel::rows(v[i]@))
}

fn push_sheet(v: &mut Vec<Vec<Vec<Piece>>>, page: Vec<Vec<Piece>>)
    ensures
        sheets(final(v)@) == sheets(old(v)@).push(panel::rows(page@)),
{
    v.push(page);
    proof {
        assert(sheets(v@) =~= sheets(old(v)@).push(panel::rows(page@)));
    }
}

fn fact_lines(i: usize, fact: &str, iw: usize) -> (r: Vec<Vec<Piece>>)
    ensures
        panel::rows(r@) == fact_block(i as int, fact@, iw as nat),
{
    let room: usize = if iw >= 6 {
        iw - 2
    } else {
        4
    };
    let parts = width::wrap_text(fact, room);
    let ghost want = fact_block(i as int, fact@, iw as nat);
    let mut lines: Vec<Vec<Piece>> = Vec::new();
    let mut j: usize = 0;
    proof {
        assert(text::texts(parts@).len() == parts@.len());
        assert(panel::rows(lines@) =~= want.take(0));
    }
    while j < parts.len()
        invariant
            j <= parts@.len() == want.len(),
            text::texts(parts@) == width::wrapped(fact@, fact_width(iw as nat)),
            want == fact_block(i as int, fact@, iw as nat),
            panel::rows(lines@) == want.take(j as int),
        decreases parts@.len() - j,
    {
        let mut l = panel::line();
        if j == 0 {
            panel::push_bold(&mut l, "• ", bullet_of(i));
        } else {
            panel::push_raw(&mut l, "  ");
        }
        panel::push_ink(&mut l, parts[j].clone(), Ink::Breath);
        proof {
            assert(text::texts(parts@)[j as int] == parts@[j as int]@);
            assert(panel::bits(l@) =~= want[j as int]);
            assert(want.take(j + 1) =~= want.take(j as int).push(want[j as int]));
        }
        panel::push_row(&mut lines, l);
        j += 1;
    }
    proof {
        assert(want.take(j as int) =~= want);
    }
    lines
}

fn fact_pages(facts: &Vec<String>, iw: usize, max: usize) -> (r: Vec<Vec<Vec<Piece>>>)
    ensures
        sheets(r@) == pages_of(fact_blocks(text::texts(facts@), iw as nat), max as int),
{
    let ghost blocks = fact_blocks(text::texts(facts@), iw as nat);
    let mut pages: Vec<Vec<Vec<Piece>>> = Vec::new();
    let mut open: Vec<Vec<Piece>> = Vec::new();
    let mut i: usize = 0;
    proof {
        assert(sheets(pages@) =~= packed(blocks, max as int, 0).0);
        assert(panel::rows(open@) =~= packed(blocks, max as int, 0).1);
    }
    while i < facts.len()
        invariant
            i <= facts@.len() == blocks.len(),
            blocks == fact_blocks(text::texts(facts@), iw as nat),
            sheets(pages@) == packed(blocks, max as int, i as nat).0,
            panel::rows(open@) == packed(blocks, max as int, i as nat).1,
        decreases facts@.len() - i,
    {
        let block = fact_lines(i, facts[i].as_str(), iw);
        proof {
            assert(text::texts(facts@)[i as int] == facts@[i as int]@);
            assert(panel::rows(block@) == blocks[i as int]);
            assert(panel::rows(open@).len() == open@.len());
            assert(panel::rows(block@).len() == block@.len());
        }
        let n: usize = open.len();
        if n > 0 && (n > max || block.len() > max - n) {
            push_sheet(&mut pages, open);
            open = block;
        } else {
            panel::push_rows(&mut open, block);
        }
        i += 1;
    }
    if open.len() > 0 {
        push_sheet(&mut pages, open);
    }
    pages
}

/// The page that is shown, and how far.
pub open spec fn shown_page(pages: Seq<Seq<Seq<Bit>>>, t: u64, hold: u64) -> Inside {
    if pages.len() == 0 {
        Inside::Blank
    } else {
        let (i, num, den) = dissolve(pages.len(), t, hold, FADE);
        Inside::Page(pages[i], Share { num: num as u64, den: den as u64 })
    }
}

fn show_page(pages: Vec<Vec<Vec<Piece>>>, t: u64, hold: u64) -> (r: Body)
    requires
        hold <= 10_000_000_000,
    ensures
        panel::body_view(r) == shown_page(sheets(pages@), t, hold),
{
    proof {
        assert(sheets(pages@).len() == pages@.len());
    }
    if pages.len() == 0 {
        return Body::Blank;
    }
    let (i, alpha) = dissolve_phase(pages.len(), t, hold, FADE);
    let mut pages = pages;
    proof {
        assert(panel::rows(pages@[i as int]@) == sheets(pages@)[i as int]);
    }
    let page = pages.swap_remove(i);
    Body::Page(page, alpha)
}

/// Nothing plays.
pub open spec fn silent(m: MusicStats) -> bool {
    !m.running || m.track@.len() == 0
}

/// Is nothing playing?
pub fn is_silent(m: &MusicStats) -> (r: bool)
    ensures
        r == silent(*m),
{
    !m.running || text::chars_of(m.track.as_str()).len() == 0
}

/// What stands in for facts that are not there.
pub open spec fn facts_note(f: MusicFacts, m: MusicStats) -> Seq<char> {
    if silent(m) {
        "♫"@
    } else if f.track_id@ != state::identity(m) || f.note@.len() == 0 {
        if m.source == MediaSource::Tv {
            "gathering trivia…"@
        } else {
            "gathering liner notes…"@
        }
    } else {
        f.note@
    }
}

/// The inside of the facts card.
pub open spec fn facts_inside(area: Area, f: MusicFacts, m: MusicStats, t: u64) -> Inside {
    if area.width < 6 || area.height < 2 {
        Inside::Blank
    } else if f.lines@.len() == 0 || f.track_id@ != state::identity(m) {
        Inside::Centered(seq![panel::flat(facts_note(f, m), Hue::Dim)])
    } else {
        shown_page(
            pages_of(
                fact_blocks(text::texts(f.lines@), area.width as nat),
                area.height as int,
            ),
            t,
            if m.source == MediaSource::Tv {
                FILM_HOLD
            } else {
                SONG_HOLD
            },
        )
    }
}

fn facts_body(area: Area, f: &MusicFacts, m: &MusicStats, t: u64) -> (r: Body)
    ensures
        panel::body_view(r) == facts_inside(area, *f, *m, t),
{
    if area.width < 6 || area.height < 2 {
        return Body::Blank;
    }
    let current = text::same_str(f.track_id.as_str(), m.track_id().as_str());
    if f.lines.len() == 0 || !current {
        let empty = text::chars_of(f.note.as_str()).len() == 0;
        if is_silent(m) {
            return panel::centered_body("♫", Hue::Dim);
        }
        if !current || empty {
            if m.is_tv() {
                return panel::centered_body("gathering trivia…", Hue::Dim);
            }
            return panel::centered_body("gathering liner notes…", Hue::Dim);
        }
        return panel::centered_body(f.note.as_str(), Hue::Dim);
    }
    let pages = fact_pages(&f.lines, area.width as usize, area.height as usize);
    let hold: u64 = if m.is_tv() {
        FILM_HOLD
    } else {
        SONG_HOLD
    };
    show_page(pages, t, hold)
}

/// The facts card. `area` is the whole card and `t` the time on the wall.
pub fn facts_card(area: Area, f: &MusicFacts, m: &MusicStats, t: u64) -> (r: Card)
    ensures
        panel::bits(r.title@) == panel::plain_title("FACTS"@),
        r.flash is None,
        r.sweep == Sweep::Still,
        panel::body_view(r.body) == facts_inside(panel::inside(area), *f, *m, t),
{
    Card {
        title: panel::title("FACTS"),
        flash: None,
        sweep: Sweep::Still,
        body: facts_body(panel::inner(area), f, m, t),
    }
}

/// Rows one after the other.
pub open spec fn all_rows(pages: Seq<Seq<Seq<Bit>>>) -> Seq<Seq<Bit>>
    decreases pages.len(),
{
    if pages.len() == 0 {
        seq![]
    } else {
        all_rows(pages.drop_last()) + pages.last()
    }
}

proof fn packing_keeps_rows(blocks: Seq<Seq<Seq<Bit>>>, max: int, n: nat)
    requires
        n <= blocks.len(),
    ensures
        all_rows(packed(blocks, max, n).0) + packed(blocks, max, n).1 == all_rows(
            blocks.take(n as int),
        ),
    decreases n,
{
    if n == 0 {
        assert(all_rows(packed(blocks, max, n).0) + packed(blocks, max, n).1 =~= all_rows(
            blocks.take(0),
        ));
    } else {
        packing_keeps_rows(blocks, max, (n - 1) as nat);
        let (pages, open) = packed(blocks, max, (n - 1) as nat);
        let block = blocks[n - 1];
        assert(blocks.take(n as int).drop_last() =~= blocks.take(n - 1));
        assert(pages.push(open).drop_last() =~= pages);
        assert(all_rows(pages) + (open + block) =~= (all_rows(pages) + open) + block);
    }
}

/// Every line of every fact is on some page, in its order, and none is there twice.
pub proof fn pages_keep_every_line(blocks: Seq<Seq<Seq<Bit>>>, max: int)
    ensures
        all_rows(pages_of(blocks, max)) == all_rows(blocks),
{
    packing_keeps_rows(blocks, max, blocks.len());
    let (pages, open) = packed(blocks, max, blocks.len());
    assert(blocks.take(blocks.len() as int) =~= blocks);
    if open.len() > 0 {
        assert(pages.push(open).drop_last() =~= pages);
    } else {
        assert(all_rows(pages) + open =~= all_rows(pages));
    }
}

/// A page is one block that is taller than the card, or it fits.
pub open spec fn page_fits(blocks: Seq<Seq<Seq<Bit>>>, max: int, page: Seq<Seq<Bit>>) -> bool {
    page.len() <= max || exists|i: int| 0 <= i < blocks.len() && #[trigger] blocks[i] == page
}

proof fn packing_fits(blocks: Seq<Seq<Seq<Bit>>>, max: int, n: nat)
    requires
        n <= blocks.len(),
        max >= 0,
    ensures
        forall|k: int|
            0 <= k < packed(blocks, max, n).0.len() ==> page_fits(
                blocks,
                max,
                #[trigger] packed(blocks, max, n).0[k],
            ),
        page_fits(blocks, max, packed(blocks, max, n).1),
    decreases n,
{
    if n > 0 {
        packing_fits(blocks, max, (n - 1) as nat);
        let (pages, open) = packed(blocks, max, (n - 1) as nat);
        let block = blocks[n - 1];
        if open.len() == 0 {
            assert(open + block =~= block);
        } else if block.len() == 0 {
            assert(open + block =~= open);
        }
    }
}

/// A page holds no more lines than the card has, unless a single fact is taller
/// than the card: then it has the page for itself.
pub proof fn pages_fit_the_card(blocks: Seq<Seq<Seq<Bit>>>, max: int, k: int)
    requires
        max >= 0,
        0 <= k < pages_of(blocks, max).len(),
    ensures
        page_fits(blocks, max, pages_of(blocks, max)[k]),
{
    packing_fits(blocks, max, blocks.len());
}

/// A block stands on a page in one piece.
pub open spec fn stands_on(page: Seq<Seq<Bit>>, block: Seq<Seq<Bit>>) -> bool {
    exists|o: int|
        0 <= o && o + block.len() <= page.len() && #[trigger] page.subrange(o, o + block.len())
            == block
}

proof fn packing_splits_none(blocks: Seq<Seq<Seq<Bit>>>, max: int, n: nat, i: int)
    requires
        0 <= i < n <= blocks.len(),
    ensures
        stands_on(packed(blocks, max, n).1, blocks[i]) || exists|k: int|
            0 <= k < packed(blocks, max, n).0.len() && stands_on(
                #[trigger] packed(blocks, max, n).0[k],
                blocks[i],
            ),
    decreases n,
{
    let (pages, open) = packed(blocks, max, (n - 1) as nat);
    let (pages2, open2) = packed(blocks, max, n);
    let block = blocks[n - 1];
    if i == n - 1 {
        if open.len() > 0 && open.len() + block.len() > max {
            assert(open2.subrange(0, 0int + block.len()) =~= block);
        } else {
            let o = open.len() as int;
            assert(open2.subrange(o, o + block.len()) =~= block);
        }
    } else {
        packing_splits_none(blocks, max, (n - 1) as nat, i);
        let b = blocks[i];
        if stands_on(open, b) {
            let o = choose|o: int|
                0 <= o && o + b.len() <= open.len() && #[trigger] open.subrange(o, o + b.len())
                    == b;
            if open.len() > 0 && open.len() + block.len() > max {
                assert(pages2[pages.len() as int] == open);
                assert(stands_on(pages2[pages.len() as int], b));
            } else {
                assert(open2.subrange(o, o + b.len()) =~= open.subrange(o, o + b.len()));
            }
        } else {
            let k = choose|k: int| 0 <= k < pages.len() && stands_on(#[trigger] pages[k], b);
            assert(pages2[k] == pages[k]);
            assert(stands_on(pages2[k], b));
        }
    }
}

/// A fact is never split: all its lines stand on one page, one below the other.
pub proof fn facts_are_never_split(blocks: Seq<Seq<Seq<Bit>>>, max: int, i: int)
    requires
        0 <= i < blocks.len(),
        blocks[i].len() > 0,
    ensures
        exists|k: int|
            0 <= k < pages_of(blocks, max).len() && stands_on(
                #[trigger] pages_of(blocks, max)[k],
                blocks[i],
            ),
{
    packing_splits_none(blocks, max, blocks.len(), i);
    let (pages, open) = packed(blocks, max, blocks.len());
    let b = blocks[i];
    if stands_on(open, b) {
        assert(pages_of(blocks, max)[pages.len() as int] == open);
        assert(stands_on(pages_of(blocks, max)[pages.len() as int], b));
    } else {
        let k = choose|k: int| 0 <= k < pages.len() && stands_on(#[trigger] pages[k], b);
        assert(pages_of(blocks, max)[k] == pages[k]);
        assert(stands_on(pages_of(blocks, max)[k], b));
    }
}

// ---------------------------------------------------------------------------
// The queue.
// ---------------------------------------------------------------------------

/// The hue of a place in the queue.
pub open spec fn place_hue(i: int) -> Hue {
    if i % 3 == 0 {
        Hue::Cyan
    } else if i % 3 == 1 {
        Hue::Pink
    } else {
        Hue::Green
    }
}

fn place_of(i: usize) -> (r: Hue)
    ensures
        r == place_hue(i as int),
{
    let k: usize = i % 3;
    if k == 0 {
        Hue::Cyan
    } else if k == 1 {
        Hue::Pink
    } else {
        Hue::Green
    }
}

/// The first line of a queued track: its place and its name.
pub open spec fn queue_head(i: int, q: QueueTrack, iw: int) -> Seq<Bit> {
    seq![
        panel::bold(digits::dec((i + 1) as nat) + "  "@, place_hue(i)),
        panel::flat(width::truncated(q.track@, panel::minus(iw, 3) as nat), Hue::Text),
    ]
}

/// The second line of a queued track: its artist and its length.
pub open spec fn queue_tail(q: QueueTrack, iw: nat) -> Seq<Bit> {
    let words = if q.duration > 0 {
        "   "@ + q.artist@ + "  ·  "@ + crate::format::clock_text(q.duration as int)
    } else {
        "   "@ + q.artist@
    };
    seq![panel::flat(width::truncated(words, iw), Hue::Dim)]
}

/// The first `n` queued tracks, two lines each.
pub open spec fn queue_rows(items: Seq<QueueTrack>, iw: nat, n: nat) -> Seq<Seq<Bit>>
    decreases n,
{
    if n == 0 {
        seq![]
    } else {
        queue_rows(items, iw, (n - 1) as nat).push(queue_head(n - 1, items[n - 1], iw as int)).push(
            queue_tail(items[n - 1], iw),
        )
    }
}

/// The inside of the queue card.
pub open spec fn queue_inside(area: Area, q: Queue, m: MusicStats) -> Inside {
    if area.width < 6 || area.height < 2 {
        Inside::Blank
    } else if silent(m) {
        Inside::Centered(seq![panel::flat("♫"@, Hue::Dim)])
    } else if q.items@.len() == 0 {
        Inside::Centered(
            seq![
                panel::flat(
                    if q.fresh {
                        "nothing up next"@
                    } else {
                        "…"@
                    },
                    Hue::Dim,
                ),
            ],
        )
    } else {
        Inside::Lines(queue_rows(q.items@, area.width as nat, q.items@.len()))
    }
}

/// The title of the queue card: how many are up next.
pub open spec fn queue_title(q: Queue, m: MusicStats) -> Seq<Bit> {
    seq![panel::bold(" QUEUE  "@, Hue::Accent)] + if !silent(m) && q.items@.len() > 0 {
        seq![
            panel::bold(digits::dec(q.items@.len()), Hue::Cyan),
            panel::flat(" up next "@, Hue::Dim),
        ]
    } else {
        seq![]
    }
}

fn queue_lines(items: &Vec<QueueTrack>, iw: usize) -> (r: Vec<Vec<Piece>>)
    ensures
        panel::rows(r@) == queue_rows(items@, iw as nat, items@.len()),
{
    let mut lines: Vec<Vec<Piece>> = Vec::new();
    let mut i: usize = 0;
    let n: usize = items.len();
    proof {
        assert(panel::rows(lines@) =~= queue_rows(items@, iw as nat, 0));
    }
    while i < n
        invariant
            i <= n == items@.len(),
            panel::rows(lines@) == queue_rows(items@, iw as nat, i as nat),
        decreases n - i,
    {
        let room: usize = if iw > 3 {
            iw - 3
        } else {
            0
        };
        let mut head = panel::line();
        let place = text::concat2(digits::dec_string(i as u64 + 1).as_str(), "  ");
        panel::push_bold(&mut head, place.as_str(), place_of(i));
        panel::push_flat(
            &mut head,
            width::truncate(items[i].track.as_str(), room).as_str(),
            Hue::Text,
        );
        proof {
            assert(panel::bits(head@) =~= queue_head(i as int, items@[i as int], iw as int));
        }
        panel::push_row(&mut lines, head);
        let mut words = text::concat2("   ", items[i].artist.as_str());
        if items[i].duration > 0 {
            words.append("  ·  ");
            words.append(crate::format::fmt_clock(items[i].duration).as_str());
        }
        let tail = panel::flat_line(width::truncate(words.as_str(), iw).as_str(), Hue::Dim);
        panel::push_row(&mut lines, tail);
        i += 1;
    }
    lines
}

/// The queue card. `area` is the whole card.
pub fn queue_card(area: Area, q: &Queue, m: &MusicStats) -> (r: Card)
    ensures
        panel::bits(r.title@) == queue_title(*q, *m),
        r.flash is None,
        r.sweep == Sweep::Still,
        panel::body_view(r.body) == queue_inside(panel::inside(area), *q, *m),
{
    let quiet = is_silent(m);
    let mut title = panel::line();
    panel::push_bold(&mut title, " QUEUE  ", Hue::Accent);
    if !quiet && q.items.len() > 0 {
        panel::push_bold(&mut title, digits::dec_string(q.items.len() as u64).as_str(), Hue::Cyan);
        panel::push_flat(&mut title, " up next ", Hue::Dim);
    }
    proof {
        assert(panel::bits(title@) =~= queue_title(*q, *m));
    }
    let a = panel::inner(area);
    let body = if a.width < 6 || a.height < 2 {
        Body::Blank
    } else if quiet {
        panel::centered_body("♫", Hue::Dim)
    } else if q.items.len() == 0 {
        if q.fresh {
            panel::centered_body("nothing up next", Hue::Dim)
        } else {
            panel::centered_body("…", Hue::Dim)
        }
    } else {
        Body::Lines(queue_lines(&q.items, a.width as usize))
    };
    Card { title, flash: None, sweep: Sweep::Still, body }
}

// ---------------------------------------------------------------------------
// The synopsis of a film.
// ---------------------------------------------------------------------------

/// The synopsis page: wrapped, and cut with an ellipsis where it is too long.
pub open spec fn synopsis_page(s: Seq<char>, iw: nat, h: int) -> Seq<Seq<Bit>> {
    let parts = width::wrapped(s, iw);
    if parts.len() > h {
        Seq::new(
            h as nat,
            |i: int|
                if i == h - 1 {
                    seq![panel::inked(parts[i], Ink::Breath), panel::flat(" …"@, Hue::Dim)]
                } else {
                    seq![panel::inked(parts[i], Ink::Breath)]
                },
        )
    } else {
        Seq::new(parts.len(), |i: int| seq![panel::inked(parts[i], Ink::Breath)])
    }
}

/// A credit: a label, and its value with a hanging indent.
pub open spec fn credit(label: Seq<char>, value: Seq<char>, lead: bool, iw: nat) -> Seq<Seq<Bit>> {
    let room = if iw >= label.len() + 4 {
        (iw - label.len()) as nat
    } else {
        4
    };
    let parts = width::wrapped(value, room);
    Seq::new(
        parts.len(),
        |i: int|
            seq![
                if i == 0 {
                    panel::flat(label, Hue::Dim)
                } else {
                    panel::raw(text::repeated(' ', label.len() as int))
                },
                if lead {
                    panel::bold(parts[i], Hue::Accent)
                } else {
                    panel::flat(parts[i], Hue::Text)
                },
            ],
    )
}

/// The credits: who directed, who stars, who produced.
pub open spec fn credits(w: WatchInfo, iw: nat) -> Seq<Seq<Bit>> {
    (if w.director@.len() > 0 {
        credit("Director   "@, w.director@, true, iw)
    } else {
        seq![]
    }) + (if w.cast@.len() > 0 {
        credit("Starring   "@, text::joined(text::texts(w.cast@), ", "@), false, iw)
    } else {
        seq![]
    }) + (if w.producers@.len() > 0 {
        credit("Producers  "@, text::joined(text::texts(w.producers@), ", "@), false, iw)
    } else {
        seq![]
    })
}

/// The credits page: as much as fits.
pub open spec fn credits_page(w: WatchInfo, iw: nat, h: int) -> Seq<Seq<Bit>> {
    let all = credits(w, iw);
    if all.len() > h {
        all.take(h)
    } else {
        all
    }
}

/// The pages of the synopsis card.
pub open spec fn watch_pages(w: WatchInfo, iw: nat, h: int) -> Seq<Seq<Seq<Bit>>> {
    (if w.synopsis@.len() > 0 {
        seq![synopsis_page(w.synopsis@, iw, h)]
    } else {
        seq![]
    }) + (if credits(w, iw).len() > 0 {
        seq![credits_page(w, iw, h)]
    } else {
        seq![]
    })
}

/// There is something to show of what is being watched.
pub open spec fn watch_ready(w: WatchInfo, m: MusicStats) -> bool {
    w.track_id@ == state::identity(m) && (w.synopsis@.len() > 0 || w.director@.len() > 0
        || w.cast@.len() > 0 || w.producers@.len() > 0)
}

/// The inside of the synopsis card.
pub open spec fn watch_inside(area: Area, w: WatchInfo, m: MusicStats, t: u64) -> Inside {
    if area.width < 6 || area.height < 2 {
        Inside::Blank
    } else if !watch_ready(w, m) {
        Inside::Centered(
            seq![
                panel::flat(
                    if w.note@.len() > 0 {
                        w.note@
                    } else {
                        "gathering synopsis…"@
                    },
                    Hue::Dim,
                ),
            ],
        )
    } else {
        shown_page(watch_pages(w, area.width as nat, area.height as int), t, SYNOPSIS_HOLD)
    }
}

/// The name of what is being watched: of the series, or of the film.
pub open spec fn watch_name(m: MusicStats) -> Seq<char> {
    if m.watch.show@.len() > 0 {
        m.watch.show@
    } else {
        m.track@
    }
}

/// The title of the synopsis card.
pub open spec fn watch_title(m: MusicStats, cells: int) -> Seq<Bit> {
    let room = if cells >= 8 {
        cells - 4
    } else {
        4
    };
    seq![
        panel::raw(" "@),
        panel::bold(width::truncated(watch_name(m), room as nat), Hue::Accent),
        panel::raw(" "@),
    ]
}

fn synopsis_lines(s: &str, iw: usize, h: usize) -> (r: Vec<Vec<Piece>>)
    requires
        h > 0,
    ensures
        panel::rows(r@) == synopsis_page(s@, iw as nat, h as int),
{
    let parts = width::wrap_text(s, iw);
    let ghost want = synopsis_page(s@, iw as nat, h as int);
    proof {
        assert(text::texts(parts@).len() == parts@.len());
    }
    let cut = parts.len() > h;
    let n: usize = if cut {
        h
    } else {
        parts.len()
    };
    let mut lines: Vec<Vec<Piece>> = Vec::new();
    let mut i: usize = 0;
    proof {
        assert(panel::rows(lines@) =~= want.take(0));
    }
    while i < n
        invariant
            i <= n <= parts@.len(),
            n == want.len(),
            cut == (parts@.len() > h),
            cut ==> n == h,
            text::texts(parts@) == width::wrapped(s@, iw as nat),
            want == synopsis_page(s@, iw as nat, h as int),
            panel::rows(lines@) == want.take(i as int),
        decreases n - i,
    {
        let mut l = panel::line();
        panel::push_ink(&mut l, parts[i].clone(), Ink::Breath);
        if cut && i == h - 1 {
            panel::push_flat(&mut l, " …", Hue::Dim);
        }
        proof {
            assert(text::texts(parts@)[i as int] == parts@[i as int]@);
            assert(text::texts(parts@).len() == parts@.len());
            assert(panel::bits(l@) =~= want[i as int]);
            assert(want.take(i + 1) =~= want.take(i as int).push(want[i as int]));
        }
        panel::push_row(&mut lines, l);
        i += 1;
    }
    proof {
        assert(want.take(i as int) =~= want);
    }
    lines
}

fn credit_lines(label: &str, value: &str, lead: bool, iw: usize) -> (r: Vec<Vec<Piece>>)
    ensures
        panel::rows(r@) == credit(label@, value@, lead, iw as nat),
{
    let pad: usize = text::chars_of(label).len();
    let room: usize = if iw >= pad && iw - pad >= 4 {
        iw - pad
    } else {
        4
    };
    let parts = width::wrap_text(value, room);
    let ghost want = credit(label@, value@, lead, iw as nat);
    let mut lines: Vec<Vec<Piece>> = Vec::new();
    let mut i: usize = 0;
    proof {
        assert(text::texts(parts@).len() == parts@.len());
        assert(panel::rows(lines@) =~= want.take(0));
    }
    while i < parts.len()
        invariant
            i <= parts@.len() == want.len(),
            pad == label@.len(),
            room == if iw >= label@.len() + 4 {
                iw - label@.len()
            } else {
                4
            },
            text::texts(parts@) == width::wrapped(value@, room as nat),
            want == credit(label@, value@, lead, iw as nat),
            panel::rows(lines@) == want.take(i as int),
        decreases parts@.len() - i,
    {
        let mut l = panel::line();
        if i == 0 {
            panel::push_flat(&mut l, label, Hue::Dim);
        } else {
            panel::push_raw(&mut l, text::repeat(' ', pad).as_str());
        }
        if lead {
            panel::push_bold(&mut l, parts[i].as_str(), Hue::Accent);
        } else {
            panel::push_flat(&mut l, parts[i].as_str(), Hue::Text);
        }
        proof {
            assert(text::texts(parts@)[i as int] == parts@[i as int]@);
            assert(panel::bits(l@) =~= want[i as int]);
            assert(want.take(i + 1) =~= want.take(i as int).push(want[i as int]));
        }
        panel::push_row(&mut lines, l);
        i += 1;
    }
    proof {
        assert(want.take(i as int) =~= want);
    }
    lines
}

fn credits_lines(w: &WatchInfo, iw: usize) -> (r: Vec<Vec<Piece>>)
    ensures
        panel::rows(r@) == credits(*w, iw as nat),
{
    let mut lines: Vec<Vec<Piece>> = Vec::new();
    proof {
        assert(panel::rows(lines@) =~= seq![]);
    }
    if text::chars_of(w.director.as_str()).len() > 0 {
        panel::push_rows(
            &mut lines,
            credit_lines("Director   ", w.director.as_str(), true, iw),
        );
    }
    if w.cast.len() > 0 {
        let names = text::join_strings(&w.cast, w.cast.len(), ", ");
        proof {
            assert(text::texts(w.cast@).take(w.cast@.len() as int) =~= text::texts(w.cast@));
        }
        panel::push_rows(&mut lines, credit_lines("Starring   ", names.as_str(), false, iw));
    }
    if w.producers.len() > 0 {
        let names = text::join_strings(&w.producers, w.producers.len(), ", ");
        proof {
            assert(text::texts(w.producers@).take(w.producers@.len() as int) =~= text::texts(
                w.producers@,
            ));
        }
        panel::push_rows(&mut lines, credit_lines("Producers  ", names.as_str(), false, iw));
    }
    proof {
        assert(panel::rows(lines@) =~= credits(*w, iw as nat));
    }
    lines
}

fn pages_to_watch(w: &WatchInfo, iw: usize, h: usize) -> (r: Vec<Vec<Vec<Piece>>>)
    requires
        h > 0,
    ensures
        sheets(r@) == watch_pages(*w, iw as nat, h as int),
{
    let mut pages: Vec<Vec<Vec<Piece>>> = Vec::new();
    proof {
        assert(sheets(pages@) =~= seq![]);
    }
    if text::chars_of(w.synopsis.as_str()).len() > 0 {
        push_sheet(&mut pages, synopsis_lines(w.synopsis.as_str(), iw, h));
    }
    let mut all = credits_lines(w, iw);
    let ghost before = panel::rows(all@);
    proof {
        assert(before.len() == all@.len());
    }
    if all.len() > 0 {
        if all.len() > h {
            all.truncate(h);
            proof {
                assert(panel::rows(all@) =~= before.take(h as int));
            }
        }
        push_sheet(&mut pages, all);
    }
    proof {
        assert(sheets(pages@) =~= watch_pages(*w, iw as nat, h as int));
    }
    pages
}

fn watch_body(a: Area, w: &WatchInfo, m: &MusicStats, t: u64) -> (r: Body)
    ensures
        panel::body_view(r) == watch_inside(a, *w, *m, t),
{
    if a.width < 6 || a.height < 2 {
        return Body::Blank;
    }
    let ready = text::same_str(w.track_id.as_str(), m.track_id().as_str()) && (text::chars_of(
        w.synopsis.as_str(),
    ).len() > 0 || text::chars_of(w.director.as_str()).len() > 0 || w.cast.len() > 0
        || w.producers.len() > 0);
    if !ready {
        if text::chars_of(w.note.as_str()).len() > 0 {
            return panel::centered_body(w.note.as_str(), Hue::Dim);
        }
        return panel::centered_body("gathering synopsis…", Hue::Dim);
    }
    show_page(pages_to_watch(w, a.width as usize, a.height as usize), t, SYNOPSIS_HOLD)
}

/// The synopsis card, in place of the lyrics while something is watched. `area` is
/// the whole card and `t` the time on the wall.
pub fn watch_synopsis_card(area: Area, w: &WatchInfo, m: &MusicStats, t: u64) -> (r: Card)
    ensures
        panel::bits(r.title@) == watch_title(*m, area.width as int),
        r.flash is None,
        r.sweep == Sweep::Still,
        panel::body_view(r.body) == watch_inside(panel::inside(area), *w, *m, t),
{
    let room: usize = if area.width >= 8 {
        area.width as usize - 4
    } else {
        4
    };
    let name = if text::chars_of(m.watch.show.as_str()).len() > 0 {
        width::truncate(m.watch.show.as_str(), room)
    } else {
        width::truncate(m.track.as_str(), room)
    };
    let mut title = panel::line();
    panel::push_raw(&mut title, " ");
    panel::push_bold(&mut title, name.as_str(), Hue::Accent);
    panel::push_raw(&mut title, " ");
    proof {
        assert(panel::bits(title@) =~= watch_title(*m, area.width as int));
    }
    let body = watch_body(panel::inner(area), w, m, t);
    Card { title, flash: None, sweep: Sweep::Still, body }
}

/// No page of the synopsis card is taller than the card.
pub proof fn watch_pages_fit(w: WatchInfo, iw: nat, h: int, k: int)
    requires
        h > 0,
        0 <= k < watch_pages(w, iw, h).len(),
    ensures
        watch_pages(w, iw, h)[k].len() <= h,
{
}

// ---------------------------------------------------------------------------
// Laws of the cards beside the player.
// ---------------------------------------------------------------------------

/// Views take turns, each for `hold` and a dissolve. A view is shown whole while it is held; in
/// the first half of the dissolve it goes evenly, and in the second half the next one comes.
pub proof fn views_take_turns(n: nat, round: int, w: int, t: u64, hold: u64, fade: u64)
    requires
        n > 1,
        0 < hold + fade,
        fade >= 200_000,
        0 <= round,
        0 <= w < hold + fade,
        t == round * (hold + fade) + w,
    ensures
        ({
            let (i, num, den) = dissolve(n, t, hold, fade);
            &&& w < hold ==> i == round % n as int && num == den
            &&& w >= hold && 2 * (w - hold) < fade ==> i == round % n as int && den == fade && num
                == fade - 2 * (w - hold)
            &&& w >= hold && 2 * (w - hold) >= fade ==> i == (round + 1) % n as int && den == fade
                && num == 2 * (w - hold) - fade
        }),
{
    let slot = (hold + fade) as int;
    vstd::arithmetic::div_mod::lemma_fundamental_div_mod_converse(t as int, slot, round, w);
    vstd::arithmetic::div_mod::lemma_add_mod_noop(round, 1, n as int);
    assert(1int % n as int == 1) by (nonlinear_arith)
        requires
            n > 1,
    ;
}

/// A page of facts about a song is held for 3.4 seconds, one about a film for 9, a page of the
/// synopsis for 8; each dissolve takes 0.9.
pub proof fn pages_are_held_for_their_time(
    area: Area,
    f: MusicFacts,
    info: WatchInfo,
    m: MusicStats,
    t: u64,
)
    requires
        area.width >= 6,
        area.height >= 2,
    ensures
        f.lines@.len() > 0 && f.track_id@ == state::identity(m) && m.source == MediaSource::Tv
            ==> ({
            let pages = pages_of(
                fact_blocks(text::texts(f.lines@), area.width as nat),
                area.height as int,
            );
            let (i, num, den) = dissolve(pages.len(), t, 9_000_000_000, 900_000_000);
            pages.len() > 0 ==> facts_inside(area, f, m, t) == Inside::Page(
                pages[i],
                Share { num: num as u64, den: den as u64 },
            )
        }),
        f.lines@.len() > 0 && f.track_id@ == state::identity(m) && m.source == MediaSource::Music
            ==> ({
            let pages = pages_of(
                fact_blocks(text::texts(f.lines@), area.width as nat),
                area.height as int,
            );
            let (i, num, den) = dissolve(pages.len(), t, 3_400_000_000, 900_000_000);
            pages.len() > 0 ==> facts_inside(area, f, m, t) == Inside::Page(
                pages[i],
                Share { num: num as u64, den: den as u64 },
            )
        }),
        info.track_id@ == state::identity(m) && info.synopsis@.len() > 0 ==> ({
            let pages = watch_pages(info, area.width as nat, area.height as int);
            let (i, num, den) = dissolve(pages.len(), t, 8_000_000_000, 900_000_000);
            watch_inside(area, info, m, t) == Inside::Page(
                pages[i],
                Share { num: num as u64, den: den as u64 },
            )
        }),
{
}

/// A fact shows its words, wrapped into what the bullet leaves, behind one bullet; the bullets
/// of five facts in a row differ in hue.
pub proof fn facts_stand_behind_bullets(i: int, fact: Seq<char>, iw: nat, j: int)
    requires
        0 <= i,
        iw >= 6,
        0 <= j < width::wrapped(fact, (iw - 2) as nat).len(),
    ensures
        fact_block(i, fact, iw).len() == width::wrapped(fact, (iw - 2) as nat).len(),
        fact_block(i, fact, iw)[j].len() == 2,
        fact_block(i, fact, iw)[j][1].text == width::wrapped(fact, (iw - 2) as nat)[j],
        j == 0 ==> fact_block(i, fact, iw)[j][0].text == "• "@,
        j > 0 ==> fact_block(i, fact, iw)[j][0].text == "  "@,
        bullet_hue(i) == bullet_hue(i + 5),
        bullet_hue(i) != bullet_hue(i + 1),
        bullet_hue(i) != bullet_hue(i + 2),
{
}

/// Facts about another track are never shown; what stands in for them says that they are being
/// gathered.
pub proof fn facts_of_another_track_are_not_shown(
    area: Area,
    f: MusicFacts,
    m: MusicStats,
    t: u64,
)
    requires
        area.width >= 6,
        area.height >= 2,
        f.track_id@ != state::identity(m),
        m.running,
        m.track@.len() > 0,
    ensures
        m.source == MediaSource::Tv ==> facts_inside(area, f, m, t) == Inside::Centered(
            seq![panel::flat("gathering trivia…"@, Hue::Dim)],
        ),
        m.source == MediaSource::Music ==> facts_inside(area, f, m, t) == Inside::Centered(
            seq![panel::flat("gathering liner notes…"@, Hue::Dim)],
        ),
{
}

/// A queued track has two lines: its place, counted from one, with its name, and below its
/// artist with its length, where that is known.
pub proof fn queued_tracks_have_two_lines(items: Seq<QueueTrack>, iw: nat, n: nat, i: int)
    requires
        0 <= i < n <= items.len(),
        iw >= 3,
    ensures
        queue_rows(items, iw, n).len() == 2 * n,
        queue_rows(items, iw, n)[2 * i].len() == 2,
        queue_rows(items, iw, n)[2 * i][0].text == digits::dec((i + 1) as nat) + "  "@,
        queue_rows(items, iw, n)[2 * i][1].text == width::truncated(
            items[i].track@,
            (iw - 3) as nat,
        ),
        queue_rows(items, iw, n)[2 * i + 1].len() == 1,
        items[i].duration > 0 ==> queue_rows(items, iw, n)[2 * i + 1][0].text == width::truncated(
            "   "@ + items[i].artist@ + "  ·  "@ + crate::format::clock_text(
                items[i].duration as int,
            ),
            iw,
        ),
        items[i].duration <= 0 ==> queue_rows(items, iw, n)[2 * i + 1][0].text == width::truncated(
            "   "@ + items[i].artist@,
            iw,
        ),
    decreases n,
{
    queue_has_two_rows_each(items, iw, (n - 1) as nat);
    if i < n - 1 {
        queued_tracks_have_two_lines(items, iw, (n - 1) as nat, i);
    }
}

proof fn queue_has_two_rows_each(items: Seq<QueueTrack>, iw: nat, n: nat)
    ensures
        queue_rows(items, iw, n).len() == 2 * n,
    decreases n,
{
    if n > 0 {
        queue_has_two_rows_each(items, iw, (n - 1) as nat);
    }
}

/// The title of the queue says how many tracks are up next.
pub proof fn queue_counts_its_tracks(q: Queue, m: MusicStats)
    requires
        m.running,
        m.track@.len() > 0,
        q.items@.len() > 0,
    ensures
        queue_title(q, m).len() == 3,
        queue_title(q, m)[1].text == digits::dec(q.items@.len()),
{
}

/// A synopsis that fits is shown whole; one that does not ends with an ellipsis in the last row
/// of the card.
pub proof fn long_synopses_end_with_an_ellipsis(s: Seq<char>, iw: nat, h: int, i: int)
    requires
        h > 0,
        0 <= i < synopsis_page(s, iw, h).len(),
    ensures
        synopsis_page(s, iw, h).len() <= h,
        synopsis_page(s, iw, h)[i][0].text == width::wrapped(s, iw)[i],
        width::wrapped(s, iw).len() <= h ==> synopsis_page(s, iw, h).len() == width::wrapped(
            s,
            iw,
        ).len() && synopsis_page(s, iw, h)[i].len() == 1,
        width::wrapped(s, iw).len() > h ==> synopsis_page(s, iw, h).len() == h && (i == h - 1) == (
        synopsis_page(s, iw, h)[i].len() == 2),
        width::wrapped(s, iw).len() > h && i == h - 1 ==> synopsis_page(s, iw, h)[i][1].text
            == " …"@,
{
}

/// A credit shows its value, wrapped into what the label leaves, behind the label, which stands
/// only in its first row; the rows below are indented as far.
pub proof fn credits_hang_on_their_label(
    label: Seq<char>,
    value: Seq<char>,
    lead: bool,
    iw: nat,
    i: int,
)
    requires
        iw >= label.len() + 4,
        0 <= i < width::wrapped(value, (iw - label.len()) as nat).len(),
    ensures
        credit(label, value, lead, iw).len() == width::wrapped(
            value,
            (iw - label.len()) as nat,
        ).len(),
        credit(label, value, lead, iw)[i].len() == 2,
        credit(label, value, lead, iw)[i][1].text == width::wrapped(
            value,
            (iw - label.len()) as nat,
        )[i],
        i == 0 ==> credit(label, value, lead, iw)[i][0].text == label,
        i > 0 ==> credit(label, value, lead, iw)[i][0].text.len() == label.len(),
        credit(label, value, lead, iw)[i][1].bold == lead,
{
}

/// The director comes first, then who stars, then who produced, each where there is one.
pub proof fn credits_come_in_order(w: WatchInfo, iw: nat)
    ensures
        w.director@.len() > 0 ==> credit("Director   "@, w.director@, true, iw).is_prefix_of(
            credits(w, iw),
        ),
        w.director@.len() == 0 && w.cast@.len() > 0 ==> credit(
            "Starring   "@,
            text::joined(text::texts(w.cast@), ", "@),
            false,
            iw,
        ).is_prefix_of(credits(w, iw)),
        w.producers@.len() > 0 ==> credit(
            "Producers  "@,
            text::joined(text::texts(w.producers@), ", "@),
            false,
            iw,
        ).is_suffix_of(credits(w, iw)),
        w.producers@.len() == 0 && w.cast@.len() > 0 ==> credit(
            "Starring   "@,
            text::joined(text::texts(w.cast@), ", "@),
            false,
            iw,
        ).is_suffix_of(credits(w, iw)),
        w.director@.len() == 0 && w.cast@.len() == 0 && w.producers@.len() == 0 ==> credits(
            w,
            iw,
        ).len() == 0,
{
    let a = if w.director@.len() > 0 {
        credit("Director   "@, w.director@, true, iw)
    } else {
        seq![]
    };
    let b = if w.cast@.len() > 0 {
        credit("Starring   "@, text::joined(text::texts(w.cast@), ", "@), false, iw)
    } else {
        seq![]
    };
    let c = if w.producers@.len() > 0 {
        credit("Producers  "@, text::joined(text::texts(w.producers@), ", "@), false, iw)
    } else {
        seq![]
    };
    assert(credits(w, iw) == a + b + c);
    assert(a =~= (a + b + c).take(a.len() as int));
    assert(c =~= (a + b + c).skip(a.len() + b.len() as int));
    if a.len() == 0 {
        assert(b =~= (a + b + c).take(b.len() as int));
    }
    if c.len() == 0 {
        assert(b =~= (a + b + c).skip(a.len() as int));
    }
}

/// The synopsis is the first page and the credits are the next, each where there is one.
pub proof fn synopsis_comes_before_the_credits(w: WatchInfo, iw: nat, h: int)
    requires
        h > 0,
    ensures
        w.synopsis@.len() > 0 ==> watch_pages(w, iw, h).len() >= 1 && watch_pages(w, iw, h)[0]
            == synopsis_page(w.synopsis@, iw, h),
        credits(w, iw).len() > 0 ==> watch_pages(w, iw, h).len() >= 1 && watch_pages(
            w,
            iw,
            h,
        ).last().is_prefix_of(credits(w, iw)),
        credits(w, iw).len() > 0 && credits(w, iw).len() <= h ==> watch_pages(w, iw, h).last()
            == credits(w, iw),
        w.synopsis@.len() > 0 && credits(w, iw).len() > 0 ==> watch_pages(w, iw, h).len() == 2,
{
    if credits(w, iw).len() > 0 {
        assert(credits_page(w, iw, h).is_prefix_of(credits(w, iw))) by {
            assert(credits_page(w, iw, h) =~= credits(w, iw).take(
                credits_page(w, iw, h).len() as int,
            ));
        }
    }
}

/// The card is named after the series that is watched, or after the film, as far as there is
/// room.
pub proof fn cards_are_named_after_what_is_watched(m: MusicStats, cells: int)
    requires
        cells >= 8,
    ensures
        watch_title(m, cells).len() == 3,
        m.watch.show@.len() > 0 ==> watch_title(m, cells)[1].text == width::truncated(
            m.watch.show@,
            (cells - 4) as nat,
        ),
        m.watch.show@.len() == 0 ==> watch_title(m, cells)[1].text == width::truncated(
            m.track@,
            (cells - 4) as nat,
        ),
{
}

/// What is known of another film is not shown, and neither is a card without anything to say: a
/// note stands in for it.
pub proof fn unknown_films_show_a_note(area: Area, w: WatchInfo, m: MusicStats, t: u64)
    requires
        area.width >= 6,
        area.height >= 2,
        w.track_id@ != state::identity(m) || (w.synopsis@.len() == 0 && w.director@.len() == 0
            && w.cast@.len() == 0 && w.producers@.len() == 0),
    ensures
        w.note@.len() > 0 ==> watch_inside(area, w, m, t) == Inside::Centered(
            seq![panel::flat(w.note@, Hue::Dim)],
        ),
        w.note@.len() == 0 ==> watch_inside(area, w, m, t) == Inside::Centered(
            seq![panel::flat("gathering synopsis…"@, Hue::Dim)],
        ),
{
}

/// The queue card lists what is queued while something plays, and else says what is the matter;
/// three places in a row differ in hue.
pub proof fn queues_are_listed_while_playing(area: Area, q: Queue, m: MusicStats, i: int)
    requires
        area.width >= 6,
        area.height >= 2,
        i >= 0,
    ensures
        m.running && m.track@.len() > 0 && q.items@.len() > 0 ==> queue_inside(area, q, m)
            == Inside::Lines(queue_rows(q.items@, area.width as nat, q.items@.len())),
        m.running && m.track@.len() > 0 && q.items@.len() == 0 && q.fresh ==> queue_inside(
            area,
            q,
            m,
        ) == Inside::Centered(seq![panel::flat("nothing up next"@, Hue::Dim)]),
        m.running && m.track@.len() > 0 && q.items@.len() == 0 && !q.fresh ==> queue_inside(
            area,
            q,
            m,
        ) == Inside::Centered(seq![panel::flat("…"@, Hue::Dim)]),
        !m.running || m.track@.len() == 0 ==> queue_inside(area, q, m) == Inside::Centered(
            seq![panel::flat("♫"@, Hue::Dim)],
        ),
        place_hue(i) == place_hue(i + 3),
        place_hue(i) != place_hue(i + 1),
        place_hue(i) != place_hue(i + 2),
{
}

} // verus!
