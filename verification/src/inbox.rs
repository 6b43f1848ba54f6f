//! The message card's state machine: what keys, clicks and the clock do to it.

use vstd::prelude::*;
use vstd::slice::slice_subrange;
use crate::state;
use crate::state::{MessageItem, Messages, MsgPhase, MsgUi, MusicStats, Queue};
use crate::text;

verus! {

/// After this long a transition is over.
pub const MSG_ANIM_MAX: u64 = 300_000_000;

/// Two presses within this time are a double press.
pub const MSG_DOUBLE: u64 = 400_000_000;

/// After this long the failure flash is over.
pub const FLASH: u64 = 360_000_000;

/// A key that was pressed.
#[derive(Clone, Copy, Debug, PartialEq, Eq, Structural)]
pub enum Key {
    Char(char),
    Enter,
    Esc,
    Backspace,
    Other,
}

/// What a key asks of the world.
#[derive(Debug)]
pub enum Effect {
    /// Nothing.
    Stay,
    /// Leave the program.
    Quit,
    /// Send this text to this conversation.
    Send(String, String),
    /// Mark this conversation read for good.
    MarkRead(i64),
}

/// What a key asks of the world, as mathematical values.
pub enum Deed {
    Stay,
    Quit,
    Send(Seq<char>, Seq<char>),
    MarkRead(int),
}

/// An effect as a mathematical value.
pub open spec fn deed(e: Effect) -> Deed {
    match e {
        Effect::Stay => Deed::Stay,
        Effect::Quit => Deed::Quit,
        Effect::Send(guid, body) => Deed::Send(guid@, body@),
        Effect::MarkRead(id) => Deed::MarkRead(id as int),
    }
}

/// The card's state as mathematical values.
#[verifier::ext_equal]
pub struct Ui {
    pub active: bool,
    pub focus: Option<i64>,
    pub last_key: Option<u64>,
    pub last_click: Option<u64>,
    pub last_click_chat: Option<i64>,
    pub composing: bool,
    pub draft: Seq<char>,
    pub phase: MsgPhase,
    pub anim: Option<u64>,
    pub failed: Option<u64>,
}

/// The card's state as mathematical values.
pub open spec fn ui(m: MsgUi) -> Ui {
    Ui {
        active: m.active,
        focus: m.focus_chat_id,
        last_key: m.last_key_at,
        last_click: m.last_click_at,
        last_click_chat: m.last_click_chat,
        composing: m.composing,
        draft: m.draft@,
        phase: m.phase,
        anim: m.anim_start,
        failed: m.send_failed_at,
    }
}

/// A point in time lies no further back than a double press allows.
pub open spec fn recent(then: Option<u64>, now: u64) -> bool {
    then matches Some(t) && state::since(t, now) <= MSG_DOUBLE
}

fn is_recent(then: Option<u64>, now: u64) -> (r: bool)
    ensures
        r == recent(then, now),
{
    match then {
        Some(t) => state::elapsed(t, now) <= MSG_DOUBLE,
        None => false,
    }
}

// ---------------------------------------------------------------------------
// Focus.
// ---------------------------------------------------------------------------

/// Where a conversation stands from `i` on, or the length.
pub open spec fn chat_from(items: Seq<MessageItem>, id: i64, i: int) -> int
    decreases items.len() - i,
{
    if i < 0 || i >= items.len() {
        items.len() as int
    } else if items[i].chat_id == id {
        i
    } else {
        chat_from(items, id, i + 1)
    }
}

/// Finds a conversation, or the length.
pub fn find_chat(items: &Vec<MessageItem>, id: i64) -> (r: usize)
    ensures
        r == chat_from(items@, id, 0),
        r <= items@.len(),
        r < items@.len() ==> items@[r as int].chat_id == id,
{
    let mut i: usize = 0;
    while i < items.len()
        invariant
            i <= items@.len(),
            chat_from(items@, id, 0) == chat_from(items@, id, i as int),
        decreases items@.len() - i,
    {
        if items[i].chat_id == id {
            return i;
        }
        i += 1;
    }
    i
}

/// A found conversation is the first with its number; none before it has it.
pub proof fn chat_from_is_first(items: Seq<MessageItem>, id: i64, i: int)
    requires
        0 <= i <= items.len(),
    ensures
        i <= chat_from(items, id, i) <= items.len(),
        chat_from(items, id, i) < items.len() ==> items[chat_from(items, id, i)].chat_id == id,
        forall|j: int| i <= j < chat_from(items, id, i) ==> (#[trigger] items[j]).chat_id != id,
    decreases items.len() - i,
{
    if i < items.len() && items[i].chat_id != id {
        chat_from_is_first(items, id, i + 1);
    }
}

/// The first unread conversation from `i` on, or the length.
pub open spec fn unread_from(items: Seq<MessageItem>, i: int) -> int
    decreases items.len() - i,
{
    if i < 0 || i >= items.len() {
        items.len() as int
    } else if items[i].unread {
        i
    } else {
        unread_from(items, i + 1)
    }
}

/// The most relevant conversation: the first unread one, or the newest.
pub open spec fn relevant(items: Seq<MessageItem>) -> Option<i64> {
    let k = unread_from(items, 0);
    if k < items.len() {
        Some(items[k].chat_id)
    } else if items.len() > 0 {
        Some(items[0].chat_id)
    } else {
        None
    }
}

/// The conversation to focus when the card is first activated: the first unread
/// one, or the newest if everything is read.
pub fn default_focus(items: &Vec<MessageItem>) -> (r: Option<i64>)
    ensures
        r == relevant(items@),
{
    let mut i: usize = 0;
    while i < items.len()
        invariant
            i <= items@.len(),
            unread_from(items@, 0) == unread_from(items@, i as int),
        decreases items@.len() - i,
    {
        if items[i].unread {
            return Some(items[i].chat_id);
        }
        i += 1;
    }
    if items.len() > 0 {
        Some(items[0].chat_id)
    } else {
        None
    }
}

/// Where a reply in the focused conversation goes.
pub open spec fn target(items: Seq<MessageItem>, focus: Option<i64>) -> Option<Seq<char>> {
    match focus {
        None => None,
        Some(id) => {
            let k = chat_from(items, id, 0);
            if k < items.len() && items[k].guid@.len() > 0 {
                Some(items[k].guid@)
            } else {
                None
            }
        },
    }
}

/// The reply target of the focused conversation; `None` when nothing is focused,
/// it is gone, or nothing can be sent to it.
pub fn focused_guid(items: &Vec<MessageItem>, focus: Option<i64>) -> (r: Option<String>)
    ensures
        match r {
            Some(g) => target(items@, focus) == Some(g@),
            None => target(items@, focus) is None,
        },
{
    match focus {
        None => None,
        Some(id) => {
            let k: usize = find_chat(items, id);
            if k < items.len() {
                let g = text::chars_of(items[k].guid.as_str());
                if g.len() > 0 {
                    return Some(items[k].guid.clone());
                }
            }
            None
        },
    }
}

// ---------------------------------------------------------------------------
// Advancing.
// ---------------------------------------------------------------------------

/// A conversation that was read.
pub open spec fn read(m: MessageItem) -> MessageItem {
    MessageItem { unread: false, ..m }
}

/// The list with one conversation read.
pub open spec fn with_read(items: Seq<MessageItem>, id: i64) -> Seq<MessageItem> {
    Seq::new(
        items.len(),
        |i: int|
            if items[i].chat_id == id {
                read(items[i])
            } else {
                items[i]
            },
    )
}

/// The focused conversation is in the list.
pub open spec fn focused(items: Seq<MessageItem>, focus: Option<i64>) -> bool {
    focus matches Some(id) && chat_from(items, id, 0) < items.len()
}

/// The unread count after the focused conversation was read: one less if it was
/// unread and counts at all.
pub open spec fn count_after(count: int, m: MessageItem) -> int {
    if m.unread && !m.is_shortcode && count > 0 {
        count - 1
    } else {
        count
    }
}

/// The focus after advancing: the next conversation, or the last one again.
pub open spec fn focus_after(items: Seq<MessageItem>, focus: Option<i64>) -> Option<i64> {
    match focus {
        None => None,
        Some(id) => {
            let k = chat_from(items, id, 0);
            if k + 1 < items.len() {
                Some(items[k + 1].chat_id)
            } else {
                focus
            }
        },
    }
}

/// Marks the focused conversation read and moves the focus on. The result is the
/// conversation to mark read for good, if there is one.
pub fn advance_queue(msgs: &mut Messages, focus: Option<i64>) -> (r: (Option<i64>, Option<i64>))
    ensures
        ({
            let items = old(msgs).items@;
            let k = chat_from(items, focus->0, 0);
            if focused(items, focus) {
                &&& final(msgs).items@ == with_read(items, focus->0)
                &&& final(msgs).unread_count == count_after(
                    old(msgs).unread_count as int,
                    items[k],
                )
                &&& final(msgs).fresh == old(msgs).fresh
                &&& final(msgs).available == old(msgs).available
                &&& r == (focus, focus_after(items, focus))
            } else {
                *final(msgs) == *old(msgs) && r == (None::<i64>, focus)
            }
        }),
{
    let id: i64 = match focus {
        Some(x) => x,
        None => {
            return (None, None);
        },
    };
    let k: usize = find_chat(&msgs.items, id);
    if k == msgs.items.len() {
        return (None, focus);
    }
    let counts = msgs.items[k].unread && !msgs.items[k].is_shortcode;
    let ghost before = msgs.items@;
    let n: usize = msgs.items.len();
    let next: Option<i64> = if k + 1 < n {
        Some(msgs.items[k + 1].chat_id)
    } else {
        focus
    };
    let mut i: usize = 0;
    while i < n
        invariant
            i <= n == before.len(),
            msgs.items@.len() == n,
            msgs.unread_count == old(msgs).unread_count,
            msgs.fresh == old(msgs).fresh,
            msgs.available == old(msgs).available,
            forall|j: int| 0 <= j < i ==> msgs.items@[j] == #[trigger] with_read(before, id)[j],
            forall|j: int| i <= j < n ==> msgs.items@[j] == #[trigger] before[j],
        decreases n - i,
    {
        if msgs.items[i].chat_id == id {
            msgs.items[i].unread = false;
        }
        i += 1;
    }
    proof {
        assert(msgs.items@ =~= with_read(before, id));
    }
    if counts && msgs.unread_count > 0 {
        msgs.unread_count = msgs.unread_count - 1;
    }
    (Some(id), next)
}

// ---------------------------------------------------------------------------
// Keys.
// ---------------------------------------------------------------------------

/// The draft without its last character.
pub open spec fn shorter(draft: Seq<char>) -> Seq<char> {
    if draft.len() > 0 {
        draft.drop_last()
    } else {
        draft
    }
}

/// What a key does to the open reply input, and what it asks of the world.
pub open spec fn composing_key(items: Seq<MessageItem>, u: Ui, key: Key, ctrl: bool, now: u64) -> (
    Ui,
    Deed,
) {
    match key {
        Key::Enter => {
            let body = text::trimmed(u.draft);
            if body.len() == 0 {
                (u, Deed::Stay)
            } else {
                match target(items, u.focus) {
                    Some(guid) => (
                        Ui { phase: MsgPhase::Sending, anim: Some(now), ..u },
                        Deed::Send(guid, body),
                    ),
                    None => (Ui { failed: Some(now), ..u }, Deed::Stay),
                }
            }
        },
        Key::Esc => (Ui { phase: MsgPhase::Closing, anim: Some(now), ..u }, Deed::Stay),
        Key::Backspace => (Ui { draft: shorter(u.draft), ..u }, Deed::Stay),
        Key::Char(c) => if ctrl {
            (u, Deed::Stay)
        } else {
            (Ui { draft: u.draft.push(c), ..u }, Deed::Stay)
        },
        Key::Other => (u, Deed::Stay),
    }
}

/// What the message key does to the card, and what it asks of the world.
pub open spec fn message_key(items: Seq<MessageItem>, u: Ui, now: u64) -> (Ui, Deed) {
    let pressed = Ui { last_key: Some(now), ..u };
    if !u.active {
        (
            Ui { active: true, focus: relevant(items), phase: MsgPhase::Idle, ..pressed },
            Deed::Stay,
        )
    } else if recent(u.last_key, now) {
        (
            Ui {
                focus: if u.focus is None {
                    relevant(items)
                } else {
                    u.focus
                },
                composing: true,
                draft: seq![],
                phase: MsgPhase::Opening,
                anim: Some(now),
                ..pressed
            },
            Deed::Stay,
        )
    } else if focused(items, u.focus) {
        (
            Ui {
                focus: focus_after(items, u.focus),
                phase: MsgPhase::Advancing,
                anim: Some(now),
                ..pressed
            },
            Deed::MarkRead(u.focus->0 as int),
        )
    } else {
        (Ui { phase: MsgPhase::Advancing, anim: Some(now), ..pressed }, Deed::Stay)
    }
}

/// What a key does to the card, and what it asks of the world.
pub open spec fn pressed(items: Seq<MessageItem>, u: Ui, key: Key, ctrl: bool, now: u64) -> (
    Ui,
    Deed,
) {
    if key == Key::Char('c') && ctrl {
        (u, Deed::Quit)
    } else if u.composing {
        composing_key(items, u, key, ctrl, now)
    } else if key == Key::Char('q') {
        (u, Deed::Quit)
    } else if key == Key::Esc {
        if u.active {
            (Ui { active: false, focus: None, ..u }, Deed::Stay)
        } else {
            (u, Deed::Quit)
        }
    } else if key == Key::Char('m') {
        message_key(items, u, now)
    } else {
        (u, Deed::Stay)
    }
}

/// The list after a key: it changes only when a conversation is marked read.
pub open spec fn list_after(msgs: Messages, d: Deed) -> (Seq<MessageItem>, int) {
    match d {
        Deed::MarkRead(id) => (
            with_read(msgs.items@, id as i64),
            count_after(
                msgs.unread_count as int,
                msgs.items@[chat_from(msgs.items@, id as i64, 0)],
            ),
        ),
        _ => (msgs.items@, msgs.unread_count as int),
    }
}

fn compose_key(items: &Vec<MessageItem>, m: &mut MsgUi, key: Key, ctrl: bool, now: u64) -> (r: Effect)
    ensures
        (ui(*final(m)), deed(r)) == composing_key(items@, ui(*old(m)), key, ctrl, now),
{
    match key {
        Key::Enter => {
            let body = text::trim_str(m.draft.as_str());
            let v = text::chars_of(body.as_str());
            if v.len() == 0 {
                return Effect::Stay;
            }
            match focused_guid(items, m.focus_chat_id) {
                Some(guid) => {
                    m.phase = MsgPhase::Sending;
                    m.anim_start = Some(now);
                    Effect::Send(guid, body)
                },
                None => {
                    m.send_failed_at = Some(now);
                    Effect::Stay
                },
            }
        },
        Key::Esc => {
            m.phase = MsgPhase::Closing;
            m.anim_start = Some(now);
            Effect::Stay
        },
        Key::Backspace => {
            let v = text::chars_of(m.draft.as_str());
            if v.len() > 0 {
                let n: usize = v.len() - 1;
                m.draft = text::string_of(slice_subrange(v.as_slice(), 0, n));
                proof {
                    assert(m.draft@ =~= old(m).draft@.drop_last());
                }
            }
            Effect::Stay
        },
        Key::Char(c) => {
            if !ctrl {
                m.draft.push(c);
            }
            Effect::Stay
        },
        Key::Other => Effect::Stay,
    }
}

fn press_message_key(msgs: &mut Messages, m: &mut MsgUi, now: u64) -> (r: Effect)
    ensures
        (ui(*final(m)), deed(r)) == message_key(old(msgs).items@, ui(*old(m)), now),
        (final(msgs).items@, final(msgs).unread_count as int) == list_after(*old(msgs), deed(r)),
        final(msgs).fresh == old(msgs).fresh,
        final(msgs).available == old(msgs).available,
{
    let double = is_recent(m.last_key_at, now);
    m.last_key_at = Some(now);
    if !m.active {
        m.active = true;
        m.focus_chat_id = default_focus(&msgs.items);
        m.phase = MsgPhase::Idle;
        Effect::Stay
    } else if double {
        if m.focus_chat_id.is_none() {
            m.focus_chat_id = default_focus(&msgs.items);
        }
        m.composing = true;
        m.draft = String::new();
        m.phase = MsgPhase::Opening;
        m.anim_start = Some(now);
        proof {
            assert(ui(*m).draft =~= seq![]);
        }
        Effect::Stay
    } else {
        let (mark, next) = advance_queue(msgs, m.focus_chat_id);
        m.focus_chat_id = next;
        m.phase = MsgPhase::Advancing;
        m.anim_start = Some(now);
        match mark {
            Some(id) => Effect::MarkRead(id),
            None => Effect::Stay,
        }
    }
}

/// Routes a key through the card.
pub fn handle_key(msgs: &mut Messages, m: &mut MsgUi, key: Key, ctrl: bool, now: u64) -> (r: Effect)
    ensures
        (ui(*final(m)), deed(r)) == pressed(old(msgs).items@, ui(*old(m)), key, ctrl, now),
        (final(msgs).items@, final(msgs).unread_count as int) == list_after(*old(msgs), deed(r)),
        final(msgs).fresh == old(msgs).fresh,
        final(msgs).available == old(msgs).available,
{
    match key {
        Key::Char(c) => {
            if c == 'c' && ctrl {
                return Effect::Quit;
            }
        },
        _ => {},
    }
    if m.composing {
        return compose_key(&msgs.items, m, key, ctrl, now);
    }
    match key {
        Key::Char(c) => {
            if c == 'q' {
                Effect::Quit
            } else if c == 'm' {
                press_message_key(msgs, m, now)
            } else {
                Effect::Stay
            }
        },
        Key::Esc => {
            if m.active {
                m.active = false;
                m.focus_chat_id = None;
                Effect::Stay
            } else {
                Effect::Quit
            }
        },
        _ => Effect::Stay,
    }
}

// ---------------------------------------------------------------------------
// Clicks.
// ---------------------------------------------------------------------------

/// The conversation rows of the last frame, for finding what a click hit.
#[derive(Debug)]
pub struct MsgHit {
    /// Screen row and conversation of each row drawn.
    pub rows: Vec<(u16, i64)>,
    /// The columns of the card, both included.
    pub x0: u16,
    pub x1: u16,
}

/// The conversation drawn first on a screen row.
pub open spec fn on_row(rows: Seq<(u16, i64)>, y: u16, i: int) -> Option<i64>
    decreases rows.len() - i,
{
    if i < 0 || i >= rows.len() {
        None
    } else if rows[i].0 == y {
        Some(rows[i].1)
    } else {
        on_row(rows, y, i + 1)
    }
}

/// The conversation under a click.
pub open spec fn under(hit: MsgHit, col: u16, row: u16) -> Option<i64> {
    if hit.x0 <= col <= hit.x1 {
        on_row(hit.rows@, row, 0)
    } else {
        None
    }
}

impl MsgHit {
    /// A frame without rows.
    pub fn new() -> (r: MsgHit)
        ensures
            r.rows@.len() == 0,
            r.x0 == 0 && r.x1 == 0,
    {
        MsgHit { rows: Vec::new(), x0: 0, x1: 0 }
    }

    /// Forgets the last frame.
    pub fn clear(&mut self)
        ensures
            final(self).rows@.len() == 0,
            final(self).x0 == 0 && final(self).x1 == 0,
    {
        self.rows.clear();
        self.x0 = 0;
        self.x1 = 0;
    }

    /// The conversation at a click position, if it lands on a conversation row.
    pub fn chat_at(&self, col: u16, row: u16) -> (r: Option<i64>)
        ensures
            r == under(*self, col, row),
    {
        if col < self.x0 || col > self.x1 {
            return None;
        }
        let mut i: usize = 0;
        while i < self.rows.len()
            invariant
                i <= self.rows@.len(),
                self.x0 <= col <= self.x1,
                on_row(self.rows@, row, 0) == on_row(self.rows@, row, i as int),
            decreases self.rows@.len() - i,
        {
            if self.rows[i].0 == row {
                return Some(self.rows[i].1);
            }
            i += 1;
        }
        None
    }
}

/// What a click on a conversation does to the card.
pub open spec fn clicked(u: Ui, id: i64, now: u64) -> Ui {
    let at = Ui { last_click: Some(now), last_click_chat: Some(id), ..u };
    if u.last_click_chat == Some(id) && recent(u.last_click, now) {
        Ui {
            active: true,
            focus: Some(id),
            composing: true,
            draft: seq![],
            phase: MsgPhase::Opening,
            anim: Some(now),
            ..at
        }
    } else if u.composing {
        at
    } else {
        Ui { active: true, focus: Some(id), phase: MsgPhase::Idle, ..at }
    }
}

/// Routes a left click through the card. A click focuses the conversation under
/// it; a double click opens the reply input for it.
pub fn handle_mouse(m: &mut MsgUi, hit: &MsgHit, col: u16, row: u16, now: u64)
    ensures
        ui(*final(m)) == match under(*hit, col, row) {
            Some(id) => clicked(ui(*old(m)), id, now),
            None => ui(*old(m)),
        },
{
    let id: i64 = match hit.chat_at(col, row) {
        Some(x) => x,
        None => {
            return;
        },
    };
    let same = match m.last_click_chat {
        Some(x) => x == id,
        None => false,
    };
    let double = same && is_recent(m.last_click_at, now);
    m.last_click_at = Some(now);
    m.last_click_chat = Some(id);
    if double {
        m.active = true;
        m.focus_chat_id = Some(id);
        m.composing = true;
        m.draft = String::new();
        m.phase = MsgPhase::Opening;
        m.anim_start = Some(now);
        proof {
            assert(ui(*m).draft =~= seq![]);
        }
    } else if !m.composing {
        m.active = true;
        m.focus_chat_id = Some(id);
        m.phase = MsgPhase::Idle;
    }
}

// ---------------------------------------------------------------------------
// A refused reply.
// ---------------------------------------------------------------------------

/// The card when a reply comes back unsent: the input opens again with it, and the border
/// flashes.
pub open spec fn reopened(u: Ui, body: Seq<char>, now: u64) -> Ui {
    Ui {
        composing: true,
        draft: body,
        phase: MsgPhase::Opening,
        anim: Some(now),
        failed: Some(now),
        ..u
    }
}

/// Takes back a reply that could not be sent.
pub fn reply_refused(m: &mut MsgUi, body: String, now: u64)
    ensures
        ui(*final(m)) == reopened(ui(*old(m)), body@, now),
{
    m.composing = true;
    m.draft = body;
    m.phase = MsgPhase::Opening;
    m.anim_start = Some(now);
    m.send_failed_at = Some(now);
}

// ---------------------------------------------------------------------------
// The clock.
// ---------------------------------------------------------------------------

/// A moment at or after which something that began is over.
pub open spec fn over(then: Option<u64>, now: u64, length: u64) -> bool {
    then matches Some(t) && state::since(t, now) >= length
}

/// The card with its finished transition folded back.
pub open spec fn folded(u: Ui, now: u64) -> Ui {
    if !over(u.anim, now, MSG_ANIM_MAX) {
        u
    } else {
        match u.phase {
            MsgPhase::Opening => u,
            MsgPhase::Sending | MsgPhase::Closing => Ui {
                composing: false,
                draft: seq![],
                phase: MsgPhase::Idle,
                anim: None,
                ..u
            },
            _ => Ui { phase: MsgPhase::Idle, anim: None, ..u },
        }
    }
}

/// The card with everything that is over folded back.
pub open spec fn settled(u: Ui, now: u64) -> Ui {
    let f = folded(u, now);
    if over(f.failed, now, FLASH) {
        Ui { failed: None, ..f }
    } else {
        f
    }
}

/// Folds a finished transition back: sending and closing also close the input,
/// an open input stays open.
pub fn settle_msg_anim(m: &mut MsgUi, now: u64)
    ensures
        ui(*final(m)) == settled(ui(*old(m)), now),
{
    match m.anim_start {
        Some(t) => {
            if state::elapsed(t, now) >= MSG_ANIM_MAX {
                match m.phase {
                    MsgPhase::Opening => {},
                    MsgPhase::Sending | MsgPhase::Closing => {
                        m.composing = false;
                        m.draft = String::new();
                        m.phase = MsgPhase::Idle;
                        m.anim_start = None;
                        proof {
                            assert(ui(*m).draft =~= seq![]);
                        }
                    },
                    _ => {
                        m.phase = MsgPhase::Idle;
                        m.anim_start = None;
                    },
                }
            }
        },
        None => {},
    }
    match m.send_failed_at {
        Some(t) => {
            if state::elapsed(t, now) >= FLASH {
                m.send_failed_at = None;
            }
        },
        None => {},
    }
}

/// The queue card has something to show.
pub open spec fn queue_wanted(music: MusicStats, queue: Queue) -> bool {
    music.running && music.track@.len() > 0 && queue.items@.len() > 0
}

/// Whether the queue card is open and when that last changed.
pub fn settle_queue_anim(
    music: &MusicStats,
    queue: &Queue,
    open: bool,
    toggled_at: u64,
    now: u64,
) -> (r: (bool, u64))
    ensures
        r.0 == queue_wanted(*music, *queue),
        r.1 == if queue_wanted(*music, *queue) == open {
            toggled_at
        } else {
            now
        },
{
    let v = text::chars_of(music.track.as_str());
    let want = music.running && v.len() > 0 && queue.items.len() > 0;
    if want != open {
        (want, now)
    } else {
        (open, toggled_at)
    }
}

// ---------------------------------------------------------------------------
// Laws of the card.
// ---------------------------------------------------------------------------

/// Ctrl-C always quits, even while a reply is being written.
pub proof fn control_c_always_quits(items: Seq<MessageItem>, u: Ui, now: u64)
    ensures
        pressed(items, u, Key::Char('c'), true, now) == (u, Deed::Quit),
{
}

/// While a reply is being written no other key quits.
pub proof fn writing_never_quits(items: Seq<MessageItem>, u: Ui, key: Key, ctrl: bool, now: u64)
    requires
        u.composing,
        !(key == Key::Char('c') && ctrl),
    ensures
        pressed(items, u, key, ctrl, now).1 != Deed::Quit,
{
}

/// While no reply is being written, the quit key quits at once.
pub proof fn quit_key_quits(items: Seq<MessageItem>, u: Ui, ctrl: bool, now: u64)
    requires
        !u.composing,
    ensures
        pressed(items, u, Key::Char('q'), ctrl, now).1 == Deed::Quit,
{
}

/// Pressing the message key focuses the card first; pressed again at once, it opens a reply
/// to the conversation that the first press focused.
pub proof fn double_press_opens_a_reply(items: Seq<MessageItem>, u: Ui, t: u64, now: u64)
    requires
        !u.composing,
        !u.active,
        state::since(t, now) <= MSG_DOUBLE,
    ensures
        ({
            let first = pressed(items, u, Key::Char('m'), false, t);
            let second = pressed(items, first.0, Key::Char('m'), false, now);
            &&& first.0.active && !first.0.composing && first.1 == Deed::Stay
            &&& first.0.focus == relevant(items)
            &&& second.0.composing && second.0.draft.len() == 0
            &&& second.0.focus == relevant(items) && second.1 == Deed::Stay
        }),
{
}

/// Only pressing Enter in the open input sends, and only to the focused
/// conversation, and never an empty text.
pub proof fn only_enter_sends(items: Seq<MessageItem>, u: Ui, key: Key, ctrl: bool, now: u64)
    ensures
        pressed(items, u, key, ctrl, now).1 matches Deed::Send(guid, body) ==> {
            &&& u.composing
            &&& key == Key::Enter
            &&& target(items, u.focus) == Some(guid)
            &&& body == text::trimmed(u.draft)
            &&& body.len() > 0
        },
{
}

/// A reply that cannot be sent keeps its draft and leaves the input open.
pub proof fn failed_reply_keeps_its_draft(items: Seq<MessageItem>, u: Ui, ctrl: bool, now: u64)
    requires
        u.composing,
        target(items, u.focus) is None,
    ensures
        ({
            let after = pressed(items, u, Key::Enter, ctrl, now).0;
            after.composing && after.draft == u.draft
        }),
{
}

/// A reply that was sent and comes back unsent is in the input again, whether or not the
/// input has closed meanwhile: its text, for the same conversation, with nothing lost but the
/// white space around it. Pressing Enter sends it again.
pub proof fn refused_reply_comes_back(
    items: Seq<MessageItem>,
    u: Ui,
    ctrl: bool,
    sent: u64,
    settled_at: u64,
    refused: u64,
    again: u64,
)
    requires
        u.composing,
        pressed(items, u, Key::Enter, ctrl, sent).1 is Send,
    ensures
        ({
            let body = pressed(items, u, Key::Enter, ctrl, sent).1->Send_1;
            let closing = settled(pressed(items, u, Key::Enter, ctrl, sent).0, settled_at);
            let back = reopened(closing, body, refused);
            &&& back.composing
            &&& back.draft == text::trimmed(u.draft)
            &&& back.focus == u.focus
            &&& back.failed == Some(refused)
            &&& pressed(items, back, Key::Enter, ctrl, again).1 == pressed(
                items,
                u,
                Key::Enter,
                ctrl,
                sent,
            ).1
        }),
{
    text::trimmed_ends_visible(u.draft);
    text::trimmed_fixed(text::trimmed(u.draft));
}

/// Writing a character and taking it back leaves the draft as it was.
pub proof fn backspace_takes_back(items: Seq<MessageItem>, u: Ui, c: char, now: u64, later: u64)
    requires
        u.composing,
    ensures
        pressed(
            items,
            pressed(items, u, Key::Char(c), false, now).0,
            Key::Backspace,
            false,
            later,
        ).0 == u,
{
    let after = pressed(items, u, Key::Char(c), false, now).0;
    assert(after.draft.drop_last() =~= u.draft);
    assert(pressed(items, after, Key::Backspace, false, later).0 =~= u);
}

/// Escape leaves the focused card first, and quits only from there.
pub proof fn escape_unfocuses_before_it_quits(
    items: Seq<MessageItem>,
    u: Ui,
    now: u64,
    later: u64,
)
    requires
        u.active,
        !u.composing,
    ensures
        pressed(items, u, Key::Esc, false, now).1 == Deed::Stay,
        pressed(
            items,
            pressed(items, u, Key::Esc, false, now).0,
            Key::Esc,
            false,
            later,
        ).1 == Deed::Quit,
{
}

/// A single click leaves an open reply input alone.
pub proof fn single_click_leaves_the_reply_alone(u: Ui, id: i64, now: u64)
    requires
        u.composing,
        !(u.last_click_chat == Some(id) && recent(u.last_click, now)),
    ensures
        ({
            let after = clicked(u, id, now);
            &&& after.composing
            &&& after.draft == u.draft
            &&& after.focus == u.focus
            &&& after.phase == u.phase
        }),
{
}

/// Two clicks on the same conversation in quick succession open a reply to it,
/// whatever was going on before; on two different ones they do not.
pub proof fn double_click_opens_a_reply(u: Ui, first: i64, second: i64, t: u64, now: u64)
    requires
        state::since(t, now) <= MSG_DOUBLE,
        !u.composing,
        !(u.last_click_chat == Some(first) && recent(u.last_click, t)),
    ensures
        ({
            let after = clicked(clicked(u, first, t), second, now);
            &&& after.focus == Some(second)
            &&& after.active
            &&& after.composing == (first == second)
        }),
{
}

/// The unread count never grows by a key, and the number of conversations stays.
pub proof fn keys_never_add_unread(msgs: Messages, d: Deed)
    ensures
        list_after(msgs, d).1 <= msgs.unread_count,
        list_after(msgs, d).0.len() == msgs.items@.len(),
        forall|i: int|
            0 <= i < msgs.items@.len() && (#[trigger] list_after(msgs, d).0[i]).unread
                ==> msgs.items@[i].unread,
{
}

/// A conversation that was marked read is read.
pub proof fn marked_conversation_is_read(items: Seq<MessageItem>, id: i64)
    ensures
        forall|i: int|
            0 <= i < items.len() && items[i].chat_id == id ==> !(#[trigger] with_read(
                items,
                id,
            )[i]).unread,
{
}

/// Settling twice at the same moment is settling once.
pub proof fn settling_settles(u: Ui, now: u64)
    ensures
        settled(settled(u, now), now) == settled(u, now),
{
}

/// Once their time is over, sending and closing leave a closed, empty input.
pub proof fn input_closes_in_time(u: Ui, now: u64)
    requires
        u.phase == MsgPhase::Sending || u.phase == MsgPhase::Closing,
        over(u.anim, now, MSG_ANIM_MAX),
    ensures
        !settled(u, now).composing,
        settled(u, now).draft.len() == 0,
        settled(u, now).phase == MsgPhase::Idle,
{
}

// ---------------------------------------------------------------------------
// What keys, clicks and time do, in numbers.
// ---------------------------------------------------------------------------

/// The message key in the focused card: within four tenths of a second of the last press it opens
/// an empty reply; later it marks the focused conversation read and moves the focus to the next
/// one, or leaves it on the last.
pub proof fn message_key_replies_or_moves_on(items: Seq<MessageItem>, u: Ui, t: u64, now: u64, k: int)
    requires
        !u.composing,
        u.active,
        u.last_key == Some(t),
        t <= now,
        0 <= k < items.len(),
        u.focus == Some(items[k].chat_id),
        forall|j: int| 0 <= j < k ==> (#[trigger] items[j]).chat_id != items[k].chat_id,
    ensures
        ({
            let (after, d) = pressed(items, u, Key::Char('m'), false, now);
            &&& now - t <= 400_000_000 ==> d == Deed::Stay && after.composing && after.draft.len()
                == 0 && after.focus == u.focus && after.phase == MsgPhase::Opening
            &&& now - t > 400_000_000 ==> d == Deed::MarkRead(items[k].chat_id as int)
                && !after.composing && after.phase == MsgPhase::Advancing && after.focus == (if k + 1
                < items.len() {
                Some(items[k + 1].chat_id)
            } else {
                u.focus
            })
            &&& after.last_key == Some(now)
        }),
{
    place_is(items, items[k].chat_id, k, 0);
}

proof fn place_is(items: Seq<MessageItem>, id: i64, k: int, i: int)
    requires
        0 <= i <= k < items.len(),
        items[k].chat_id == id,
        forall|j: int| 0 <= j < k ==> (#[trigger] items[j]).chat_id != id,
    ensures
        chat_from(items, id, i) == k,
    decreases k - i,
{
    if i < k {
        assert(items[i].chat_id != id);
        place_is(items, id, k, i + 1);
    }
}

/// A card that is focused by the message key shows the first unread conversation, or the newest
/// where all are read.
pub proof fn first_press_focuses_what_is_unread(items: Seq<MessageItem>, u: Ui, now: u64, k: int)
    requires
        !u.composing,
        !u.active,
        0 <= k < items.len(),
        items[k].unread || k == 0,
        forall|j: int| 0 <= j < k ==> !(#[trigger] items[j]).unread,
        !items[k].unread ==> forall|j: int| 0 <= j < items.len() ==> !(#[trigger] items[j]).unread,
    ensures
        ({
            let (after, d) = pressed(items, u, Key::Char('m'), false, now);
            after.active && after.focus == Some(items[k].chat_id) && !after.composing && d
                == Deed::Stay
        }),
{
    unread_stands(items, 0);
}

proof fn unread_stands(items: Seq<MessageItem>, i: int)
    requires
        0 <= i <= items.len(),
    ensures
        i <= unread_from(items, i) <= items.len(),
        unread_from(items, i) < items.len() ==> items[unread_from(items, i)].unread,
        forall|j: int| i <= j < unread_from(items, i) ==> !(#[trigger] items[j]).unread,
    decreases items.len() - i,
{
    if i < items.len() && !items[i].unread {
        unread_stands(items, i + 1);
    }
}

/// Enter in the reply input sends what was written, without white space around it, to the focused
/// conversation; where that has no address, the failure is shown and nothing is lost; and a blank
/// draft does nothing.
pub proof fn enter_sends_the_draft(items: Seq<MessageItem>, u: Ui, now: u64, k: int)
    requires
        u.composing,
        0 <= k < items.len(),
        u.focus == Some(items[k].chat_id),
        forall|j: int| 0 <= j < k ==> (#[trigger] items[j]).chat_id != items[k].chat_id,
    ensures
        ({
            let (after, d) = pressed(items, u, Key::Enter, false, now);
            let body = text::trimmed(u.draft);
            &&& body.len() == 0 ==> after == u && d == Deed::Stay
            &&& body.len() > 0 && items[k].guid@.len() > 0 ==> d == Deed::Send(items[k].guid@, body)
                && after.phase == MsgPhase::Sending && after.anim == Some(now)
            &&& body.len() > 0 && items[k].guid@.len() == 0 ==> d == Deed::Stay && after.failed
                == Some(now) && after.draft == u.draft && after.composing
        }),
{
    place_is(items, items[k].chat_id, k, 0);
}

/// Keys write into the open input: a character is put at the end, Backspace takes the last one,
/// and Escape begins to close the input; none of them asks anything of the world.
pub proof fn keys_write_the_draft(items: Seq<MessageItem>, u: Ui, c: char, now: u64)
    requires
        u.composing,
    ensures
        pressed(items, u, Key::Char(c), false, now) == ((Ui { draft: u.draft.push(c), ..u }), Deed::Stay),
        u.draft.len() > 0 ==> pressed(items, u, Key::Backspace, false, now) == (
            (Ui { draft: u.draft.take(u.draft.len() - 1), ..u }),
            Deed::Stay,
        ),
        u.draft.len() == 0 ==> pressed(items, u, Key::Backspace, false, now) == (u, Deed::Stay),
        pressed(items, u, Key::Esc, false, now) == (
            (Ui { phase: MsgPhase::Closing, anim: Some(now), ..u }),
            Deed::Stay,
        ),
{
    if u.draft.len() > 0 {
        assert(u.draft.drop_last() =~= u.draft.take(u.draft.len() - 1));
    }
}

/// Marking a conversation read touches that conversation alone, and takes one from the count
/// exactly where it was unread and counts.
pub proof fn reading_takes_one_from_the_count(msgs: Messages, k: int)
    requires
        0 <= k < msgs.items@.len(),
        forall|j: int|
            0 <= j < k ==> (#[trigger] msgs.items@[j]).chat_id != msgs.items@[k].chat_id,
    ensures
        ({
            let m = msgs.items@[k];
            let (items, count) = list_after(msgs, Deed::MarkRead(m.chat_id as int));
            &&& items.len() == msgs.items@.len()
            &&& forall|i: int|
                0 <= i < items.len() ==> #[trigger] items[i] == (MessageItem {
                    unread: msgs.items@[i].unread && msgs.items@[i].chat_id != m.chat_id,
                    ..msgs.items@[i]
                })
            &&& m.unread && !m.is_shortcode && msgs.unread_count > 0 ==> count
                == msgs.unread_count - 1
            &&& !m.unread || m.is_shortcode || msgs.unread_count == 0 ==> count
                == msgs.unread_count
        }),
{
    place_is(msgs.items@, msgs.items@[k].chat_id, k, 0);
}

/// A click focuses the conversation whose row and columns it hits; a second one on the same
/// conversation within four tenths of a second opens a reply to it.
pub proof fn clicks_focus_what_they_hit(hit: MsgHit, u: Ui, k: int, col: u16, now: u64)
    requires
        0 <= k < hit.rows@.len(),
        hit.x0 <= col <= hit.x1,
        forall|j: int| 0 <= j < k ==> (#[trigger] hit.rows@[j]).0 != hit.rows@[k].0,
    ensures
        under(hit, col, hit.rows@[k].0) == Some(hit.rows@[k].1),
        forall|c: u16, y: u16|
            c < hit.x0 || c > hit.x1 ==> #[trigger] under(hit, c, y) is None,
        ({
            let id = hit.rows@[k].1;
            let after = clicked(u, id, now);
            let again = u.last_click_chat == Some(id) && (u.last_click matches Some(t) && t <= now
                && now - t <= 400_000_000);
            &&& again ==> after.composing && after.draft.len() == 0 && after.focus == Some(id)
                && after.active
            &&& u.last_click_chat != Some(id) && !u.composing ==> after.focus == Some(id)
                && after.active && !after.composing
            &&& (u.last_click matches Some(t) && now - t > 400_000_000) && !u.composing
                ==> after.focus == Some(id) && !after.composing
            &&& after.last_click == Some(now) && after.last_click_chat == Some(id)
        }),
{
    row_is(hit.rows@, k, 0);
}

proof fn row_is(rows: Seq<(u16, i64)>, k: int, i: int)
    requires
        0 <= i <= k < rows.len(),
        forall|j: int| 0 <= j < k ==> (#[trigger] rows[j]).0 != rows[k].0,
    ensures
        on_row(rows, rows[k].0, i) == Some(rows[k].1),
    decreases k - i,
{
    if i < k {
        assert(rows[i].0 != rows[k].0);
        row_is(rows, k, i + 1);
    }
}

/// A transition is over three tenths of a second after it began, the failure flash after
/// thirty-six hundredths; before that nothing settles. What was being sent or closed leaves an
/// empty, closed input; an input that has opened stays open with its draft.
pub proof fn transitions_settle_in_time(u: Ui, began: u64, flashed: u64, now: u64)
    requires
        u.anim == Some(began),
        u.failed == Some(flashed),
        began <= now,
        flashed <= now,
    ensures
        ({
            let s = settled(u, now);
            let done = now - began >= 300_000_000;
            &&& !done ==> s.phase == u.phase && s.anim == u.anim && s.composing == u.composing
                && s.draft == u.draft
            &&& done && (u.phase == MsgPhase::Sending || u.phase == MsgPhase::Closing)
                ==> !s.composing && s.draft.len() == 0 && s.phase == MsgPhase::Idle
            &&& done && u.phase == MsgPhase::Opening ==> s.composing == u.composing && s.draft
                == u.draft && s.phase == MsgPhase::Opening
            &&& done && u.phase == MsgPhase::Advancing ==> s.phase == MsgPhase::Idle && s.anim
                is None && s.draft == u.draft && s.composing == u.composing
            &&& (s.failed is None <==> now - flashed >= 360_000_000)
            &&& s.focus == u.focus && s.active == u.active
        }),
{
}

/// The queue card has something to show exactly while a track is there and another is queued.
pub proof fn queue_shows_what_is_queued(music: MusicStats, queue: Queue)
    ensures
        queue.items@.len() == 0 ==> !queue_wanted(music, queue),
        !music.running || music.track@.len() == 0 ==> !queue_wanted(music, queue),
        music.running && music.track@.len() > 0 && queue.items@.len() > 0 ==> queue_wanted(
            music,
            queue,
        ),
{
}

} // verus!
