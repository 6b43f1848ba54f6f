//! The iMessage and Signal cards.

use vstd::prelude::*;
use vstd::slice::slice_subrange;
use crate::digits;
use crate::inbox;
use crate::inbox::MsgHit;
use crate::lrc::Share;
use crate::panel;
use crate::panel::{Area, Bit, Body, Card, Hue, Ink, Inside, Piece, Sweep};
use crate::state;
use crate::state::{MessageItem, Messages, MsgPhase, MsgUi};
use crate::text;
use crate::width;

verus! {

/// How long the failure flash rises.
pub const FLASH_RISE: u64 = 120_000_000;

/// How long the failure flash falls.
pub const FLASH_FALL: u64 = 240_000_000;

/// How long a read message takes to fade.
pub const READ_FADE: u64 = 220_000_000;

/// How long the reply input takes to open or close.
pub const WIPE_TIME: u64 = 180_000_000;

/// How long a reply takes to leave.
pub const SEND_TIME: u64 = 260_000_000;

/// Nothing of something.
pub open spec fn none_of() -> Share {
    Share { num: 0, den: 1 }
}

/// All of something.
pub open spec fn all_of() -> Share {
    Share { num: 1, den: 1 }
}

// ---------------------------------------------------------------------------
// Titles.
// ---------------------------------------------------------------------------

/// The badge behind a title: how many are unread, or that all are read.
pub open spec fn badge(unread: nat) -> Seq<Bit> {
    if unread > 0 {
        seq![
            panel::bold(" ● "@, Hue::Pink),
            panel::bold(digits::dec(unread), Hue::Pink),
            panel::flat(" unread "@, Hue::Dim),
        ]
    } else {
        seq![panel::bold(" ✓ "@, Hue::Accent), panel::flat("all read "@, Hue::Dim)]
    }
}

fn push_badge(line: &mut Vec<Piece>, unread: u32)
    ensures
        panel::bits(final(line)@) == panel::bits(old(line)@) + badge(unread as nat),
{
    if unread > 0 {
        panel::push_bold(line, " ● ", Hue::Pink);
        panel::push_bold(line, digits::dec_string(unread as u64).as_str(), Hue::Pink);
        panel::push_flat(line, " unread ", Hue::Dim);
    } else {
        panel::push_bold(line, " ✓ ", Hue::Accent);
        panel::push_flat(line, "all read ", Hue::Dim);
    }
    proof {
        assert(panel::bits(line@) =~= panel::bits(old(line)@) + badge(unread as nat));
    }
}

/// The title of a message card.
pub open spec fn message_title(name: Seq<char>, m: Messages) -> Seq<Bit> {
    seq![panel::bold(name, Hue::Accent)] + if m.available && m.fresh {
        badge(m.unread_count as nat)
    } else {
        seq![]
    }
}

fn title_line(name: &str, m: &Messages) -> (r: Vec<Piece>)
    ensures
        panel::bits(r@) == message_title(name@, *m),
{
    let mut line = panel::line();
    panel::push_bold(&mut line, name, Hue::Accent);
    proof {
        assert(panel::bits(line@) =~= seq![panel::bold(name@, Hue::Accent)]);
    }
    if m.available && m.fresh {
        push_badge(&mut line, m.unread_count);
    }
    proof {
        assert(panel::bits(line@) =~= message_title(name@, *m));
    }
    line
}

// ---------------------------------------------------------------------------
// Rows.
// ---------------------------------------------------------------------------

/// The cells that a preview has: what the marker, the sender, the time and the
/// dot leave, six at least.
pub open spec fn preview_width(iw: nat) -> nat {
    if iw >= 33 {
        (iw - 27) as nat
    } else {
        6
    }
}

fn preview_cells(iw: usize) -> (r: usize)
    ensures
        r == preview_width(iw as nat),
{
    if iw >= 33 {
        iw - 27
    } else {
        6
    }
}

/// The preview of a conversation: a picture that is new gets a glint.
pub open spec fn preview_bit(m: MessageItem, i: usize, gone: Share, cells: nat) -> Bit {
    let body = width::padded(m.preview@, cells);
    if m.is_rich && m.unread {
        panel::inked(body, Ink::Sheen(Hue::Pink, Hue::Faint, gone, i))
    } else if m.is_rich {
        panel::slanted(body, Ink::Flat(Hue::Faint))
    } else if m.unread {
        panel::inked(body, Ink::Mix(Hue::Text, Hue::Faint, gone))
    } else {
        panel::flat(body, Hue::Faint)
    }
}

/// The sender of a conversation: bold while it reads as unread.
pub open spec fn sender_bit(m: MessageItem, gone: Share) -> Bit {
    let name = width::padded(m.sender@, 18);
    if !m.unread {
        panel::flat(name, Hue::Dim)
    } else if 2 * gone.num < gone.den {
        panel::strong(name, Ink::Mix(Hue::Text, Hue::Dim, gone))
    } else {
        panel::inked(name, Ink::Mix(Hue::Text, Hue::Dim, gone))
    }
}

/// The focus marker, two cells wide.
pub open spec fn marker_bit(m: MessageItem, focus: bool, gone: Share) -> Bit {
    if !focus {
        panel::raw("  "@)
    } else if m.unread {
        panel::strong("▌ "@, Ink::Mix(Hue::Pink, Hue::Faint, gone))
    } else {
        panel::bold("▌ "@, Hue::Faint)
    }
}

/// The unread dot, two cells wide.
pub open spec fn dot_bit(unread: bool, gone: Share) -> Bit {
    if unread {
        panel::strong(" ●"@, Ink::Mix(Hue::Pink, Hue::Faint, gone))
    } else {
        panel::raw("  "@)
    }
}

/// How long ago a message came, four cells wide.
pub open spec fn rel_bit(rel: Seq<char>) -> Bit {
    panel::flat(width::right_aligned(width::truncated(rel, 4), 4), Hue::Faint)
}

/// One conversation: marker, sender, preview, time, dot.
pub open spec fn message_row(
    m: MessageItem,
    i: usize,
    focus: bool,
    gone: Share,
    cells: nat,
) -> Seq<Bit> {
    seq![
        marker_bit(m, focus, gone),
        sender_bit(m, gone),
        panel::raw(" "@),
        preview_bit(m, i, gone, cells),
        rel_bit(m.rel@),
        dot_bit(m.unread, gone),
    ]
}

fn row_line(m: &MessageItem, i: usize, focus: bool, gone: Share, cells: usize) -> (r: Vec<Piece>)
    requires
        gone.num <= 0x7fff_ffff_ffff_ffff,
    ensures
        panel::bits(r@) == message_row(*m, i, focus, gone, cells as nat),
{
    let mut line = panel::line();
    if !focus {
        panel::push_raw(&mut line, "  ");
    } else if m.unread {
        panel::push_strong(
            &mut line,
            "▌ ".to_string(),
            Ink::Mix(Hue::Pink, Hue::Faint, gone),
        );
    } else {
        panel::push_bold(&mut line, "▌ ", Hue::Faint);
    }
    let name = width::pad_width(m.sender.as_str(), 18);
    if !m.unread {
        panel::push_flat(&mut line, name.as_str(), Hue::Dim);
    } else if 2 * gone.num < gone.den {
        panel::push_strong(&mut line, name, Ink::Mix(Hue::Text, Hue::Dim, gone));
    } else {
        panel::push_ink(&mut line, name, Ink::Mix(Hue::Text, Hue::Dim, gone));
    }
    panel::push_raw(&mut line, " ");
    let body = width::pad_width(m.preview.as_str(), cells);
    if m.is_rich && m.unread {
        panel::push_ink(&mut line, body, Ink::Sheen(Hue::Pink, Hue::Faint, gone, i));
    } else if m.is_rich {
        panel::push_slanted(&mut line, body, Ink::Flat(Hue::Faint));
    } else if m.unread {
        panel::push_ink(&mut line, body, Ink::Mix(Hue::Text, Hue::Faint, gone));
    } else {
        panel::push_flat(&mut line, body.as_str(), Hue::Faint);
    }
    push_rel(&mut line, m.rel.as_str());
    push_dot(&mut line, m.unread, gone);
    proof {
        assert(panel::bits(line@) =~= message_row(*m, i, focus, gone, cells as nat));
    }
    line
}

/// Appends how long ago a message came.
pub fn push_rel(line: &mut Vec<Piece>, rel: &str)
    ensures
        panel::bits(final(line)@) == panel::bits(old(line)@).push(rel_bit(rel@)),
{
    let short = width::truncate(rel, 4);
    panel::push_flat(line, width::align_right(short.as_str(), 4).as_str(), Hue::Faint);
}

/// Appends the unread dot.
pub fn push_dot(line: &mut Vec<Piece>, unread: bool, gone: Share)
    ensures
        panel::bits(final(line)@) == panel::bits(old(line)@).push(dot_bit(unread, gone)),
{
    if unread {
        panel::push_strong(line, " ●".to_string(), Ink::Mix(Hue::Pink, Hue::Faint, gone));
    } else {
        panel::push_raw(line, "  ");
    }
}

// ---------------------------------------------------------------------------
// Signal.
// ---------------------------------------------------------------------------

/// Conversations without a focus, one row each.
pub open spec fn plain_rows(items: Seq<MessageItem>, shown: int, cells: nat) -> Seq<Seq<Bit>> {
    Seq::new(
        shown as nat,
        |i: int| message_row(items[i], i as usize, false, none_of(), cells),
    )
}

/// The lesser of two numbers.
pub open spec fn lesser(a: int, b: int) -> int {
    if a < b {
        a
    } else {
        b
    }
}

/// The inside of the Signal card.
pub open spec fn signal_inside(area: Area, m: Messages) -> Inside {
    if area.height < 2 || area.width < 10 {
        Inside::Blank
    } else if !m.fresh {
        Inside::Lines(seq![seq![panel::flat("reading Signal…"@, Hue::Dim)]])
    } else if !m.available {
        Inside::Lines(
            seq![
                seq![panel::flat("✉  Signal locked"@, Hue::Dim)],
                seq![panel::flat("needs Keychain access + sqlcipher"@, Hue::Faint)],
            ],
        )
    } else if m.items@.len() == 0 {
        Inside::Centered(seq![panel::flat("✉  inbox clear"@, Hue::Faint)])
    } else {
        Inside::Lines(
            plain_rows(
                m.items@,
                lesser(area.height as int, m.items@.len() as int),
                preview_width(area.width as nat),
            ),
        )
    }
}

/// An unread message makes the border of its card move.
pub open spec fn unread_sweep(m: Messages) -> Sweep {
    if m.available && m.unread_count > 0 {
        Sweep::Calm
    } else {
        Sweep::Still
    }
}

fn signal_body(area: Area, m: &Messages) -> (r: Body)
    ensures
        panel::body_view(r) == signal_inside(area, *m),
{
    if area.height < 2 || area.width < 10 {
        return Body::Blank;
    }
    if !m.fresh {
        return panel::note_body("reading Signal…", Hue::Dim);
    }
    if !m.available {
        return panel::hint_body("✉  Signal locked", "needs Keychain access + sqlcipher");
    }
    if m.items.len() == 0 {
        return panel::centered_body("✉  inbox clear", Hue::Faint);
    }
    let cells: usize = preview_cells(area.width as usize);
    let shown: usize = if (area.height as usize) < m.items.len() {
        area.height as usize
    } else {
        m.items.len()
    };
    let ghost want = plain_rows(m.items@, shown as int, cells as nat);
    let mut lines: Vec<Vec<Piece>> = Vec::new();
    let mut i: usize = 0;
    proof {
        assert(panel::rows(lines@) =~= want.take(0));
    }
    while i < shown
        invariant
            i <= shown <= m.items@.len(),
            want == plain_rows(m.items@, shown as int, cells as nat),
            panel::rows(lines@) == want.take(i as int),
        decreases shown - i,
    {
        let l = row_line(&m.items[i], i, false, Share { num: 0, den: 1 }, cells);
        panel::push_row(&mut lines, l);
        proof {
            assert(want.take(i + 1) =~= want.take(i as int).push(want[i as int]));
        }
        i += 1;
    }
    proof {
        assert(want.take(i as int) =~= want);
    }
    Body::Lines(lines)
}

/// The Signal card, read-only. `area` is the whole card.
pub fn signal_card(area: Area, m: &Messages) -> (r: Card)
    ensures
        panel::bits(r.title@) == message_title(" SIGNAL "@, *m),
        r.flash is None,
        r.sweep == unread_sweep(*m),
        panel::body_view(r.body) == signal_inside(panel::inside(area), *m),
{
    let title = title_line(" SIGNAL ", m);
    let sweep = if m.available && m.unread_count > 0 {
        Sweep::Calm
    } else {
        Sweep::Still
    };
    Card { title, flash: None, sweep, body: signal_body(panel::inner(area), m) }
}

// ---------------------------------------------------------------------------
// iMessage.
// ---------------------------------------------------------------------------

/// How far the border flashes, `gone` after a failure: up, then down.
pub open spec fn flash_share(gone: int) -> Share {
    if gone < FLASH_RISE {
        Share { num: gone as u64, den: FLASH_RISE }
    } else if gone < FLASH_RISE + FLASH_FALL {
        Share { num: (FLASH_RISE + FLASH_FALL - gone) as u64, den: FLASH_FALL }
    } else {
        Share { num: 0, den: FLASH_FALL }
    }
}

fn flash_of(gone: u64) -> (r: Share)
    ensures
        r == flash_share(gone as int),
{
    if gone < FLASH_RISE {
        Share { num: gone, den: FLASH_RISE }
    } else if gone < FLASH_RISE + FLASH_FALL {
        Share { num: FLASH_RISE + FLASH_FALL - gone, den: FLASH_FALL }
    } else {
        Share { num: 0, den: FLASH_FALL }
    }
}

/// The border moves for unread messages, but not while it flashes.
pub open spec fn message_sweep(m: Messages, u: MsgUi, now: u64) -> Sweep {
    let flashing = u.send_failed_at matches Some(t) && state::since(t, now) < FLASH_RISE
        + FLASH_FALL;
    if m.available && m.unread_count > 0 && !flashing {
        Sweep::Calm
    } else {
        Sweep::Still
    }
}

/// How far the running transition has come over `length`; all of it when none runs.
pub open spec fn come(u: MsgUi, now: u64, length: u64) -> Share {
    match u.anim_start {
        Some(t) => {
            let p = state::share_passed(t, now, length);
            Share { num: p.0 as u64, den: p.1 as u64 }
        },
        None => all_of(),
    }
}

fn come_of(u: &MsgUi, now: u64, length: u64) -> (r: Share)
    requires
        0 < length,
    ensures
        r == come(*u, now, length),
        r.num <= r.den,
        r.den <= length || r.den == 1,
{
    match u.progress(length, now) {
        Some(s) => s,
        None => Share { num: 1, den: 1 },
    }
}

/// The reply input is open or opening.
pub open spec fn input_open(u: MsgUi) -> bool {
    u.composing || u.phase == MsgPhase::Opening
}

/// How far the reply input is open.
pub open spec fn openness(u: MsgUi, now: u64) -> Share {
    match u.phase {
        MsgPhase::Opening => come(u, now, WIPE_TIME),
        MsgPhase::Closing => {
            let c = come(u, now, WIPE_TIME);
            Share { num: (c.den - c.num) as u64, den: c.den }
        },
        _ => all_of(),
    }
}

fn openness_of(u: &MsgUi, now: u64) -> (r: Share)
    ensures
        r == openness(*u, now),
{
    match u.phase {
        MsgPhase::Opening => come_of(u, now, WIPE_TIME),
        MsgPhase::Closing => {
            let c = come_of(u, now, WIPE_TIME);
            Share { num: c.den - c.num, den: c.den }
        },
        _ => Share { num: 1, den: 1 },
    }
}

/// The end of a draft that is too long to show, so that the caret stays visible.
pub open spec fn draft_tail(draft: Seq<char>, cells: int) -> Seq<char> {
    if draft.len() > cells {
        draft.skip(draft.len() - cells)
    } else {
        draft
    }
}

/// The cells for a draft: what the connector and the caret leave, four at least.
pub open spec fn draft_cells(iw: int) -> int {
    if iw >= 9 {
        iw - 5
    } else {
        4
    }
}

/// The reply input, nested under its conversation.
pub open spec fn input_row(u: MsgUi, sender: Seq<char>, iw: int, now: u64) -> Seq<Bit> {
    let p = openness(u, now);
    let lead = panel::strong("╰▸ "@, Ink::Smooth(Hue::Bg, Hue::Pink, p));
    if u.phase == MsgPhase::Sending {
        seq![lead, panel::inked(u.draft@, Ink::Whoosh(come(u, now, SEND_TIME)))]
    } else if u.draft@.len() == 0 {
        seq![
            lead,
            panel::slanted(
                "reply to "@ + sender + "…"@,
                Ink::Smooth(Hue::Bg, Hue::Faint, p),
            ),
            panel::inked("▏"@, Ink::Caret),
        ]
    } else {
        seq![
            lead,
            panel::inked(
                draft_tail(u.draft@, draft_cells(iw)),
                Ink::Smooth(Hue::Bg, Hue::Text, p),
            ),
            panel::inked("▏"@, Ink::Caret),
        ]
    }
}

fn input_line(u: &MsgUi, sender: &str, iw: usize, now: u64) -> (r: Vec<Piece>)
    ensures
        panel::bits(r@) == input_row(*u, sender@, iw as int, now),
{
    let p = openness_of(u, now);
    let mut line = panel::line();
    panel::push_strong(&mut line, "╰▸ ".to_string(), Ink::Smooth(Hue::Bg, Hue::Pink, p));
    let sending = match u.phase {
        MsgPhase::Sending => true,
        _ => false,
    };
    let draft = text::chars_of(u.draft.as_str());
    if sending {
        let c = come_of(u, now, SEND_TIME);
        panel::push_ink(&mut line, u.draft.clone(), Ink::Whoosh(c));
    } else if draft.len() == 0 {
        panel::push_slanted(
            &mut line,
            text::concat3("reply to ", sender, "…"),
            Ink::Smooth(Hue::Bg, Hue::Faint, p),
        );
        panel::push_ink(&mut line, "▏".to_string(), Ink::Caret);
    } else {
        let cells: usize = if iw >= 9 {
            iw - 5
        } else {
            4
        };
        let n: usize = draft.len();
        let from: usize = if n > cells {
            n - cells
        } else {
            0
        };
        let shown = text::string_of(slice_subrange(draft.as_slice(), from, n));
        proof {
            assert(shown@ =~= draft_tail(u.draft@, draft_cells(iw as int)));
        }
        panel::push_ink(&mut line, shown, Ink::Smooth(Hue::Bg, Hue::Text, p));
        panel::push_ink(&mut line, "▏".to_string(), Ink::Caret);
    }
    proof {
        assert(panel::bits(line@) =~= input_row(*u, sender@, iw as int, now));
    }
    line
}

/// Where the focused conversation stands, if it is in the list.
pub open spec fn focus_index(m: Messages, u: MsgUi) -> Option<int> {
    match u.focus_chat_id {
        None => None,
        Some(id) => {
            let k = inbox::chat_from(m.items@, id, 0);
            if k < m.items@.len() {
                Some(k)
            } else {
                None
            }
        },
    }
}

/// The name that the reply input addresses.
pub open spec fn addressee(m: Messages, u: MsgUi) -> Seq<char> {
    match focus_index(m, u) {
        Some(k) => m.items@[k].sender@,
        None => "message"@,
    }
}

/// How far the focused conversation has faded to read.
pub open spec fn fading(u: MsgUi, focus: bool, now: u64) -> Share {
    if focus && u.phase == MsgPhase::Advancing {
        come(u, now, READ_FADE)
    } else {
        none_of()
    }
}

/// The keys are explained below the list: only while focused and with room.
pub open spec fn footer_shown(ih: int, m: Messages, u: MsgUi) -> bool {
    u.active && ih > m.items@.len() + (if input_open(u) {
        1int
    } else {
        0
    }) + 1
}

/// How many conversations are shown.
pub open spec fn shown_rows(ih: int, m: Messages, u: MsgUi) -> int {
    let room = panel::minus(
        panel::minus(ih, if input_open(u) {
            1
        } else {
            0
        }),
        if footer_shown(ih, m, u) {
            2
        } else {
            0
        },
    );
    lesser(room, m.items@.len() as int)
}

/// The first `n` conversations, with the reply input under the focused one.
pub open spec fn threaded(m: Messages, u: MsgUi, iw: int, now: u64, n: nat) -> Seq<Seq<Bit>>
    decreases n,
{
    if n == 0 {
        seq![]
    } else {
        let i = n - 1;
        let focus = focus_index(m, u) == Some(i);
        let row = message_row(
            m.items@[i],
            i as usize,
            focus,
            fading(u, focus, now),
            preview_width(iw as nat),
        );
        threaded(m, u, iw, now, i as nat) + seq![row] + if focus && input_open(u) {
            seq![input_row(u, addressee(m, u), iw, now)]
        } else {
            seq![]
        }
    }
}

/// The reply input below the list, where its conversation is not shown.
pub open spec fn stray_input(m: Messages, u: MsgUi, iw: int, now: u64, shown: int) -> Seq<
    Seq<Bit>,
> {
    if input_open(u) && !(focus_index(m, u) matches Some(k) && k < shown) {
        seq![input_row(u, addressee(m, u), iw, now)]
    } else {
        seq![]
    }
}

/// The explanation of the keys.
pub open spec fn key_hint(iw: int) -> Seq<Seq<Bit>> {
    seq![
        seq![panel::flat(text::repeated('─', iw), Hue::Faint)],
        seq![panel::flat("  click: focus · dbl-click: reply · esc: close"@, Hue::Faint)],
    ]
}

/// The lines of the list with everything around it.
pub open spec fn list_lines(area: Area, m: Messages, u: MsgUi, now: u64) -> Seq<Seq<Bit>> {
    let iw = area.width as int;
    let ih = area.height as int;
    let shown = shown_rows(ih, m, u);
    threaded(m, u, iw, now, shown as nat) + stray_input(m, u, iw, now, shown) + if footer_shown(
        ih,
        m,
        u,
    ) {
        key_hint(iw)
    } else {
        seq![]
    }
}

/// The list is shown, not a status.
pub open spec fn list_visible(area: Area, m: Messages) -> bool {
    area.height >= 2 && area.width >= 10 && m.fresh && m.available && m.items@.len() > 0
}

/// The inside of the iMessage card.
pub open spec fn message_inside(area: Area, m: Messages, u: MsgUi, now: u64) -> Inside {
    if area.height < 2 || area.width < 10 {
        Inside::Blank
    } else if !m.fresh {
        Inside::Lines(seq![seq![panel::flat("reading messages…"@, Hue::Dim)]])
    } else if !m.available {
        Inside::Lines(
            seq![
                seq![panel::flat("✉  can't read Messages"@, Hue::Dim)],
                seq![panel::flat("grant Full Disk Access to overseer"@, Hue::Faint)],
            ],
        )
    } else if m.items@.len() == 0 {
        Inside::Centered(seq![panel::flat("✉  inbox clear"@, Hue::Faint)])
    } else {
        Inside::Lines(list_lines(area, m, u, now))
    }
}

/// On which line of the card a conversation stands: the reply input above it
/// pushes it down.
pub open spec fn line_of(m: Messages, u: MsgUi, i: int) -> int {
    i + if input_open(u) && (focus_index(m, u) matches Some(k) && k < i) {
        1int
    } else {
        0
    }
}

/// The clickable rows: where each conversation that is shown stands.
pub open spec fn hit_rows(area: Area, m: Messages, u: MsgUi) -> Seq<(u16, i64)> {
    if list_visible(area, m) {
        Seq::new(
            shown_rows(area.height as int, m, u) as nat,
            |i: int| ((area.y + line_of(m, u, i)) as u16, m.items@[i].chat_id),
        )
    } else {
        seq![]
    }
}

fn list_body(area: Area, m: &Messages, u: &MsgUi, now: u64, hit: &mut MsgHit) -> (r: Body)
    requires
        list_visible(area, *m),
        area.y + area.height <= u16::MAX,
        old(hit).rows@.len() == 0,
    ensures
        panel::body_view(r) == Inside::Lines(list_lines(area, *m, *u, now)),
        final(hit).rows@ == hit_rows(area, *m, *u),
        final(hit).x0 == area.x,
        final(hit).x1 == lesser(area.x + area.width - 1, u16::MAX as int),
{
    let iw: usize = area.width as usize;
    let ih: usize = area.height as usize;
    let opening = match u.phase {
        MsgPhase::Opening => true,
        _ => false,
    };
    let advancing = match u.phase {
        MsgPhase::Advancing => true,
        _ => false,
    };
    let open = u.composing || opening;
    let input: usize = if open {
        1
    } else {
        0
    };
    let footer = u.active && ih > input + 1 && ih - input - 1 > m.items.len();
    let room: usize = if ih > input {
        ih - input
    } else {
        0
    };
    let below: usize = if footer {
        2
    } else {
        0
    };
    let list_room: usize = if room > below {
        room - below
    } else {
        0
    };
    let shown: usize = if list_room < m.items.len() {
        list_room
    } else {
        m.items.len()
    };
    proof {
        assert(footer == footer_shown(ih as int, *m, *u));
        assert(shown == shown_rows(ih as int, *m, *u));
        assert(open ==> shown + 1 <= ih);
    }
    let far: u32 = area.x as u32 + area.width as u32 - 1;
    hit.x0 = area.x;
    hit.x1 = if far < 0xffff {
        far as u16
    } else {
        0xffff
    };
    let focus: Option<usize> = match u.focus_chat_id {
        None => None,
        Some(id) => {
            let k: usize = inbox::find_chat(&m.items, id);
            if k < m.items.len() {
                Some(k)
            } else {
                None
            }
        },
    };
    proof {
        assert(match focus {
            Some(k) => focus_index(*m, *u) == Some(k as int),
            None => focus_index(*m, *u) is None,
        });
    }
    let cells: usize = preview_cells(iw);
    let sender: String = match focus {
        Some(k) => m.items[k].sender.clone(),
        None => "message".to_string(),
    };
    let input_row_line = input_line(u, sender.as_str(), iw, now);
    let mut lines: Vec<Vec<Piece>> = Vec::new();
    let mut placed = !open;
    let mut drawn: usize = 0;
    let mut i: usize = 0;
    let ghost want_hits = hit_rows(area, *m, *u);
    proof {
        assert(panel::rows(lines@) =~= threaded(*m, *u, iw as int, now, 0));
        assert(hit.rows@ =~= want_hits.take(0));
    }
    while i < shown
        invariant
            i <= shown <= m.items@.len(),
            shown <= ih,
            open ==> shown + 1 <= ih,
            area.y + ih <= u16::MAX,
            iw == area.width,
            ih == area.height,
            list_visible(area, *m),
            cells == preview_width(iw as nat),
            open == input_open(*u),
            advancing == (u.phase == MsgPhase::Advancing),
            shown == shown_rows(ih as int, *m, *u),
            match focus {
                Some(k) => focus_index(*m, *u) == Some(k as int),
                None => focus_index(*m, *u) is None,
            },
            panel::bits(input_row_line@) == input_row(*u, addressee(*m, *u), iw as int, now),
            panel::rows(lines@) == threaded(*m, *u, iw as int, now, i as nat),
            placed == (!open || (focus matches Some(k) && k < i)),
            drawn == line_of(*m, *u, i as int),
            drawn <= i + 1,
            !open ==> drawn == i,
            want_hits == hit_rows(area, *m, *u),
            hit.rows@ == want_hits.take(i as int),
            hit.x0 == area.x,
            hit.x1 == lesser(area.x + area.width - 1, u16::MAX as int),
        decreases shown - i,
    {
        let here = match focus {
            Some(k) => k == i,
            None => false,
        };
        let gone: Share = if here && advancing {
            come_of(u, now, READ_FADE)
        } else {
            Share { num: 0, den: 1 }
        };
        let ghost before = panel::rows(lines@);
        let row = row_line(&m.items[i], i, here, gone, cells);
        let y: u16 = (area.y as u32 + drawn as u32) as u16;
        hit.rows.push((y, m.items[i].chat_id));
        proof {
            assert(want_hits.take(i + 1) =~= want_hits.take(i as int).push(want_hits[i as int]));
        }
        panel::push_row(&mut lines, row);
        drawn += 1;
        if here && !placed {
            panel::push_row(&mut lines, panel::copy_line(&input_row_line));
            drawn += 1;
            placed = true;
        }
        i += 1;
        proof {
            assert(panel::rows(lines@) =~= threaded(*m, *u, iw as int, now, i as nat));
        }
    }
    proof {
        assert(want_hits.take(i as int) =~= want_hits);
    }
    let ghost above = panel::rows(lines@);
    if !placed {
        panel::push_row(&mut lines, input_row_line);
    }
    proof {
        assert(panel::rows(lines@) =~= above + stray_input(*m, *u, iw as int, now, shown as int));
    }
    let ghost so_far = panel::rows(lines@);
    if footer {
        let rule = text::repeat('─', iw);
        panel::push_row(&mut lines, panel::flat_line(rule.as_str(), Hue::Faint));
        panel::push_row(
            &mut lines,
            panel::flat_line("  click: focus · dbl-click: reply · esc: close", Hue::Faint),
        );
        proof {
            assert(panel::rows(lines@) =~= so_far + key_hint(iw as int));
        }
    }
    proof {
        assert(panel::rows(lines@) =~= list_lines(area, *m, *u, now));
    }
    Body::Lines(lines)
}

/// The iMessage card, and where its conversations can be clicked. `area` is the
/// whole card.
pub fn messages_card(area: Area, m: &Messages, u: &MsgUi, now: u64) -> (r: (Card, MsgHit))
    requires
        area.wf(),
    ensures
        panel::bits(r.0.title@) == message_title(" iMESSAGE "@, *m),
        r.0.flash == match u.send_failed_at {
            Some(t) => Some(flash_share(state::since(t, now))),
            None => None,
        },
        r.0.sweep == message_sweep(*m, *u, now),
        panel::body_view(r.0.body) == message_inside(panel::inside(area), *m, *u, now),
        r.1.rows@ == hit_rows(panel::inside(area), *m, *u),
        list_visible(panel::inside(area), *m) ==> r.1.x0 == panel::inside(area).x && r.1.x1
            == panel::inside(area).x + panel::inside(area).width - 1,
{
    let title = title_line(" iMESSAGE ", m);
    let gone: Option<u64> = match u.send_failed_at {
        Some(t) => Some(state::elapsed(t, now)),
        None => None,
    };
    let flash = match gone {
        Some(g) => Some(flash_of(g)),
        None => None,
    };
    let flashing = match gone {
        Some(g) => g < FLASH_RISE + FLASH_FALL,
        None => false,
    };
    let sweep = if m.available && m.unread_count > 0 && !flashing {
        Sweep::Calm
    } else {
        Sweep::Still
    };
    let a = panel::inner(area);
    let mut hit = MsgHit::new();
    let body = if a.height < 2 || a.width < 10 {
        Body::Blank
    } else if !m.fresh {
        panel::note_body("reading messages…", Hue::Dim)
    } else if !m.available {
        panel::hint_body("✉  can't read Messages", "grant Full Disk Access to overseer")
    } else if m.items.len() == 0 {
        panel::centered_body("✉  inbox clear", Hue::Faint)
    } else {
        list_body(a, m, u, now, &mut hit)
    };
    proof {
        assert(hit.rows@ =~= hit_rows(a, *m, *u));
    }
    (Card { title, flash, sweep, body }, hit)
}

// ---------------------------------------------------------------------------
// Laws of the cards.
// ---------------------------------------------------------------------------

proof fn threaded_stands(m: Messages, u: MsgUi, iw: int, now: u64, n: nat, i: int)
    requires
        0 <= i < n,
    ensures
        line_of(m, u, i) < threaded(m, u, iw, now, n).len(),
        threaded(m, u, iw, now, n)[line_of(m, u, i)] == message_row(
            m.items@[i],
            i as usize,
            focus_index(m, u) == Some(i),
            fading(u, focus_index(m, u) == Some(i), now),
            preview_width(iw as nat),
        ),
    decreases n,
{
    threaded_len(m, u, iw, now, (n - 1) as nat);
    if i < n - 1 {
        threaded_stands(m, u, iw, now, (n - 1) as nat, i);
        let front = threaded(m, u, iw, now, (n - 1) as nat);
        assert(threaded(m, u, iw, now, n)[line_of(m, u, i)] == front[line_of(m, u, i)]);
    }
}

proof fn threaded_len(m: Messages, u: MsgUi, iw: int, now: u64, n: nat)
    ensures
        threaded(m, u, iw, now, n).len() == line_of(m, u, n as int),
    decreases n,
{
    if let Some(id) = u.focus_chat_id {
        inbox::chat_from_is_first(m.items@, id, 0);
    }
    if n > 0 {
        threaded_len(m, u, iw, now, (n - 1) as nat);
    }
}

/// A click lands on what it shows: the line of the card at a clickable row is the
/// row of that conversation.
pub proof fn clicks_land_on_what_they_show(area: Area, m: Messages, u: MsgUi, now: u64, i: int)
    requires
        list_visible(area, m),
        area.y + area.height <= u16::MAX,
        0 <= i < shown_rows(area.height as int, m, u),
    ensures
        ({
            let hit = hit_rows(area, m, u)[i];
            let row = hit.0 - area.y;
            &&& 0 <= row < area.height
            &&& row < list_lines(area, m, u, now).len()
            &&& list_lines(area, m, u, now)[row] == message_row(
                m.items@[i],
                i as usize,
                focus_index(m, u) == Some(i),
                fading(u, focus_index(m, u) == Some(i), now),
                preview_width(area.width as nat),
            )
            &&& hit.1 == m.items@[i].chat_id
        }),
{
    let shown = shown_rows(area.height as int, m, u);
    threaded_stands(m, u, area.width as int, now, shown as nat, i);
    let top = threaded(m, u, area.width as int, now, shown as nat);
    assert(list_lines(area, m, u, now)[line_of(m, u, i)] == top[line_of(m, u, i)]);
}

/// The list never overflows the card: conversations, reply input and key hint
/// together take no more lines than there are.
pub proof fn list_fits_the_card(area: Area, m: Messages, u: MsgUi, now: u64)
    requires
        list_visible(area, m),
    ensures
        list_lines(area, m, u, now).len() <= area.height,
{
    let shown = shown_rows(area.height as int, m, u);
    threaded_len(m, u, area.width as int, now, shown as nat);
}

/// The badge counts what is unread, or says that all is read.
pub proof fn badge_counts_the_unread(name: Seq<char>, m: Messages)
    ensures
        m.available && m.fresh && m.unread_count > 0 ==> message_title(name, m).len() == 4
            && message_title(name, m)[2].text == digits::dec(m.unread_count as nat)
            && message_title(name, m)[3].text == " unread "@,
        m.available && m.fresh && m.unread_count == 0 ==> message_title(name, m).len() == 3
            && message_title(name, m)[2].text == "all read "@,
        !m.available || !m.fresh ==> message_title(name, m).len() == 1,
        message_title(name, m)[0].text == name,
{
}

/// A conversation shows its marker, who wrote, what, how long ago, and its dot, in this order and
/// each in its own width; the preview has what the others leave.
pub proof fn rows_tell_who_and_what(
    m: MessageItem,
    i: usize,
    focus: bool,
    gone: Share,
    iw: nat,
)
    requires
        iw >= 33,
    ensures
        ({
            let r = message_row(m, i, focus, gone, preview_width(iw));
            &&& r.len() == 6
            &&& focus ==> r[0].text == "▌ "@
            &&& !focus ==> r[0].text == "  "@
            &&& r[1].text == width::padded(m.sender@, 18)
            &&& r[3].text == width::padded(m.preview@, (iw - 27) as nat)
            &&& r[4].text == width::right_aligned(width::truncated(m.rel@, 4), 4)
            &&& m.unread ==> r[5].text == " ●"@
            &&& !m.unread ==> r[5].text == "  "@
        }),
{
}

/// What is unread stands out: its sender is bold until it has faded by half, and a read one is
/// dim. A picture is slanted once it is read.
pub proof fn unread_rows_stand_out(m: MessageItem, i: usize, gone: Share, cells: nat)
    ensures
        m.unread ==> sender_bit(m, gone).bold == (2 * gone.num < gone.den) && sender_bit(
            m,
            gone,
        ).ink == Ink::Mix(Hue::Text, Hue::Dim, gone),
        !m.unread ==> !sender_bit(m, gone).bold && sender_bit(m, gone).ink == Ink::Flat(Hue::Dim),
        preview_bit(m, i, gone, cells).italic == (m.is_rich && !m.unread),
        m.unread && !m.is_rich ==> preview_bit(m, i, gone, cells).ink == Ink::Mix(
            Hue::Text,
            Hue::Faint,
            gone,
        ),
        m.unread && m.is_rich ==> preview_bit(m, i, gone, cells).ink == Ink::Sheen(
            Hue::Pink,
            Hue::Faint,
            gone,
            i,
        ),
        !m.unread ==> preview_bit(m, i, gone, cells).ink == Ink::Flat(Hue::Faint),
{
}

/// After a failure the border flashes: evenly up for 120 milliseconds, then evenly down for 240.
pub proof fn failures_flash_up_and_down(gone: int)
    requires
        0 <= gone,
    ensures
        gone < 120_000_000 ==> flash_share(gone).num * 120_000_000 == gone * flash_share(gone).den,
        120_000_000 <= gone < 360_000_000 ==> flash_share(gone).num * 240_000_000 == (360_000_000
            - gone) * flash_share(gone).den,
        gone >= 360_000_000 ==> flash_share(gone).num == 0,
        flash_share(gone).den > 0,
        flash_share(gone).num <= flash_share(gone).den,
{
}

/// The border moves exactly for unread messages, and not while it flashes.
pub proof fn border_moves_for_the_unread(m: Messages, u: MsgUi, now: u64)
    ensures
        unread_sweep(m) == Sweep::Calm <==> m.available && m.unread_count > 0,
        u.send_failed_at is None ==> message_sweep(m, u, now) == unread_sweep(m),
        (u.send_failed_at matches Some(t) && now < t + 360_000_000) ==> message_sweep(m, u, now)
            == Sweep::Still,
        (u.send_failed_at matches Some(t) && now >= t + 360_000_000) ==> message_sweep(m, u, now)
            == unread_sweep(m),
        unread_sweep(m) != Sweep::Talking,
{
}

/// The input opens evenly within 180 milliseconds and closes as evenly; otherwise it is open.
pub proof fn input_opens_and_closes_evenly(u: MsgUi, t: u64, now: u64)
    requires
        u.anim_start == Some(t),
        t <= now,
    ensures
        u.phase == MsgPhase::Opening && now < t + 180_000_000 ==> openness(u, now) == (Share {
            num: (now - t) as u64,
            den: 180_000_000,
        }),
        u.phase == MsgPhase::Opening && now >= t + 180_000_000 ==> openness(u, now).num == openness(
            u,
            now,
        ).den,
        u.phase == MsgPhase::Closing && now < t + 180_000_000 ==> openness(u, now) == (Share {
            num: (180_000_000 - (now - t)) as u64,
            den: 180_000_000,
        }),
        u.phase == MsgPhase::Closing && now >= t + 180_000_000 ==> openness(u, now).num == 0,
        u.phase != MsgPhase::Opening && u.phase != MsgPhase::Closing ==> openness(u, now).num
            == openness(u, now).den,
        u.phase == MsgPhase::Advancing && now < t + 220_000_000 ==> fading(u, true, now) == (Share {
            num: (now - t) as u64,
            den: 220_000_000,
        }),
        fading(u, false, now).num == 0,
{
}

/// The end of a draft is always in sight: a draft that fits is shown whole, of a longer one the
/// last characters are.
pub proof fn drafts_show_their_end(draft: Seq<char>, iw: int, i: int)
    requires
        iw >= 9,
        0 < i <= draft.len(),
        i <= iw - 5,
    ensures
        draft.len() <= iw - 5 ==> draft_tail(draft, draft_cells(iw)) == draft,
        draft.len() > iw - 5 ==> draft_tail(draft, draft_cells(iw)).len() == iw - 5,
        draft_tail(draft, draft_cells(iw))[draft_tail(draft, draft_cells(iw)).len() - i]
            == draft[draft.len() - i],
{
}

/// An empty input says to whom it replies; a draft is shown before the caret; while it is sent it
/// leaves over 260 milliseconds.
pub proof fn inputs_show_the_reply(u: MsgUi, sender: Seq<char>, iw: int, now: u64)
    ensures
        u.phase != MsgPhase::Sending && u.draft@.len() == 0 ==> input_row(u, sender, iw, now).len()
            == 3 && input_row(u, sender, iw, now)[1].text == "reply to "@ + sender + "…"@,
        u.phase != MsgPhase::Sending && u.draft@.len() > 0 ==> input_row(u, sender, iw, now).len()
            == 3 && input_row(u, sender, iw, now)[1].text == draft_tail(u.draft@, draft_cells(iw))
            && input_row(u, sender, iw, now)[2].ink == Ink::Caret,
        u.phase == MsgPhase::Sending ==> input_row(u, sender, iw, now).len() == 2 && input_row(
            u,
            sender,
            iw,
            now,
        )[1].text == u.draft@,
        (u.phase == MsgPhase::Sending && (u.anim_start matches Some(t) && t <= now < t
            + 260_000_000)) ==> input_row(u, sender, iw, now)[1].ink == Ink::Whoosh(
            Share { num: (now - u.anim_start->0) as u64, den: 260_000_000 },
        ),
        input_row(u, sender, iw, now)[0].text == "╰▸ "@,
{
}

/// The focused conversation is the first of its number, and the reply is addressed to whoever
/// wrote there.
pub proof fn focus_finds_its_conversation(m: Messages, u: MsgUi, id: i64, k: int)
    requires
        u.focus_chat_id == Some(id),
        0 <= k <= m.items@.len(),
        forall|j: int| 0 <= j < k ==> (#[trigger] m.items@[j]).chat_id != id,
    ensures
        k < m.items@.len() && m.items@[k].chat_id == id ==> focus_index(m, u) == Some(k)
            && addressee(m, u) == m.items@[k].sender@,
        k == m.items@.len() ==> focus_index(m, u) is None && addressee(m, u) == "message"@,
{
    if k == m.items@.len() || m.items@[k].chat_id == id {
        chat_is(m.items@, id, 0, k);
    }
}

proof fn chat_is(items: Seq<MessageItem>, id: i64, from: int, k: int)
    requires
        0 <= from <= k <= items.len(),
        forall|j: int| 0 <= j < k ==> (#[trigger] items[j]).chat_id != id,
        k < items.len() ==> items[k].chat_id == id,
    ensures
        inbox::chat_from(items, id, from) == k,
    decreases k - from,
{
    if from < k {
        chat_is(items, id, from + 1, k);
    }
}

/// Conversations are shown from the first on, as many as the input and the key hint leave room
/// for; the hint stands only where the card is in use and everything fits above it.
pub proof fn conversations_fill_the_card(ih: int, m: Messages, u: MsgUi)
    requires
        ih >= 2,
    ensures
        ({
            let n = m.items@.len() as int;
            let input = if u.composing || u.phase == MsgPhase::Opening {
                1int
            } else {
                0
            };
            &&& footer_shown(ih, m, u) == (u.active && n + input + 2 <= ih)
            &&& n + input <= ih ==> shown_rows(ih, m, u) == n
            &&& n + input > ih ==> shown_rows(ih, m, u) == ih - input
        }),
{
}

/// While the input is open it stands right below its conversation.
pub proof fn input_stands_below_its_conversation(
    m: Messages,
    u: MsgUi,
    iw: int,
    now: u64,
    n: nat,
    k: int,
)
    requires
        0 <= k < n,
        u.composing || u.phase == MsgPhase::Opening,
        focus_index(m, u) == Some(k),
    ensures
        k + 1 < threaded(m, u, iw, now, n).len(),
        threaded(m, u, iw, now, n)[k + 1] == input_row(u, m.items@[k].sender@, iw, now),
    decreases n,
{
    threaded_len(m, u, iw, now, (n - 1) as nat);
    if k < n - 1 {
        input_stands_below_its_conversation(m, u, iw, now, (n - 1) as nat, k);
    }
}

/// The Signal card shows its conversations from the first on, as many as there are rows.
pub proof fn signal_shows_its_conversations(area: Area, m: Messages, i: int)
    requires
        area.height >= 2,
        area.width >= 33,
        m.fresh,
        m.available,
        0 <= i < m.items@.len(),
        i < area.height,
    ensures
        signal_inside(area, m) matches Inside::Lines(l) && ({
            &&& i < l.len()
            &&& l.len() <= area.height
            &&& l.len() <= m.items@.len()
            &&& l[i][1].text == width::padded(m.items@[i].sender@, 18)
            &&& l[i][3].text == width::padded(m.items@[i].preview@, (area.width - 27) as nat)
        }),
{
}

} // verus!
