//! The keys, the clicks and the times of the inbox.

use overseer::inbox::{
    advance_queue, default_focus, find_chat, focused_guid, handle_key, handle_mouse,
    reply_refused, settle_msg_anim, settle_queue_anim, Effect, Key, MsgHit, FLASH, MSG_ANIM_MAX, MSG_DOUBLE,
};
use overseer::state::{
    elapsed, passed_share, MediaSource, MessageItem, Messages, MsgPhase, MsgUi, MusicStats, Queue,
    QueueTrack,
};

fn message(chat_id: i64, unread: bool) -> MessageItem {
    MessageItem {
        chat_id,
        rowid: chat_id,
        sender: "S".to_string(),
        handle: String::new(),
        guid: format!("guid-{chat_id}"),
        preview: String::new(),
        full_text: String::new(),
        ts_unix: 0,
        rel: String::new(),
        is_rich: false,
        unread,
        from_me: false,
        is_shortcode: false,
    }
}

fn messages() -> Messages {
    Messages {
        fresh: true,
        available: true,
        unread_count: 2,
        items: vec![message(1, false), message(2, true), message(3, true)],
    }
}

fn ui() -> MsgUi {
    MsgUi {
        active: false,
        focus_chat_id: None,
        last_key_at: None,
        last_click_at: None,
        last_click_chat: None,
        composing: false,
        draft: String::new(),
        phase: MsgPhase::Idle,
        anim_start: None,
        send_failed_at: None,
    }
}

fn composing(draft: &str) -> MsgUi {
    let mut u = ui();
    u.active = true;
    u.focus_chat_id = Some(2);
    u.composing = true;
    u.draft = draft.to_string();
    u
}

#[test]
fn the_first_unread_conversation_is_focused() {
    assert_eq!(default_focus(&messages().items), Some(2));
    assert_eq!(default_focus(&vec![message(7, false)]), Some(7));
    assert_eq!(default_focus(&vec![]), None);
    assert_eq!(find_chat(&messages().items, 3), 2);
    assert_eq!(find_chat(&messages().items, 9), 3);
    assert_eq!(focused_guid(&messages().items, Some(3)), Some("guid-3".to_string()));
    assert_eq!(focused_guid(&messages().items, Some(9)), None);
    assert_eq!(focused_guid(&messages().items, None), None);
    let mut dumb = message(4, false);
    dumb.guid.clear();
    assert_eq!(focused_guid(&vec![dumb], Some(4)), None);
}

#[test]
fn quitting_keys() {
    let (mut m, mut u) = (messages(), composing("x"));
    assert!(matches!(handle_key(&mut m, &mut u, Key::Char('c'), true, 0), Effect::Quit));
    assert!(matches!(handle_key(&mut m, &mut u, Key::Char('q'), false, 0), Effect::Stay));
    assert_eq!(u.draft, "xq");
    let mut idle = ui();
    assert!(matches!(handle_key(&mut m, &mut idle, Key::Char('q'), false, 0), Effect::Quit));
    assert!(matches!(handle_key(&mut m, &mut idle, Key::Esc, false, 0), Effect::Quit));
    idle.active = true;
    idle.focus_chat_id = Some(2);
    assert!(matches!(handle_key(&mut m, &mut idle, Key::Esc, false, 0), Effect::Stay));
    assert_eq!((idle.active, idle.focus_chat_id), (false, None));
}

#[test]
fn m_focuses_then_reads_on_then_replies() {
    let (mut m, mut u) = (messages(), ui());
    handle_key(&mut m, &mut u, Key::Char('m'), false, 0);
    assert_eq!((u.active, u.focus_chat_id, u.phase), (true, Some(2), MsgPhase::Idle));
    // Later, a single press reads the conversation and goes on.
    let later = MSG_DOUBLE + 1;
    assert!(matches!(handle_key(&mut m, &mut u, Key::Char('m'), false, later), Effect::MarkRead(2)));
    assert_eq!((u.focus_chat_id, u.phase, m.unread_count), (Some(3), MsgPhase::Advancing, 1));
    assert!(!m.items[1].unread);
    // At once, a second press opens the reply.
    handle_key(&mut m, &mut u, Key::Char('m'), false, later + MSG_DOUBLE);
    assert_eq!((u.composing, u.phase), (true, MsgPhase::Opening));
    assert_eq!(u.anim_start, Some(later + MSG_DOUBLE));
}

#[test]
fn reading_on_stays_at_the_last_conversation() {
    let mut m = messages();
    assert_eq!(advance_queue(&mut m, Some(3)), (Some(3), Some(3)));
    assert_eq!(m.unread_count, 1);
    assert_eq!(advance_queue(&mut m, Some(1)), (Some(1), Some(2)));
    assert_eq!(m.unread_count, 1);
    assert_eq!(advance_queue(&mut m, Some(99)), (None, Some(99)));
    assert_eq!(advance_queue(&mut m, None), (None, None));
    let mut short = messages();
    short.items[1].is_shortcode = true;
    advance_queue(&mut short, Some(2));
    assert_eq!((short.unread_count, short.items[1].unread), (2, false));
}

#[test]
fn a_reply_is_typed_and_sent() {
    let (mut m, mut u) = (messages(), composing(""));
    for c in [' ', 'h', 'i', 'x'] {
        handle_key(&mut m, &mut u, Key::Char(c), false, 0);
    }
    handle_key(&mut m, &mut u, Key::Backspace, false, 0);
    handle_key(&mut m, &mut u, Key::Char('z'), true, 0);
    assert_eq!(u.draft, " hi");
    match handle_key(&mut m, &mut u, Key::Enter, false, 5) {
        Effect::Send(guid, body) => assert_eq!((guid.as_str(), body.as_str()), ("guid-2", "hi")),
        _ => panic!("the reply is sent"),
    }
    assert_eq!((u.phase, u.anim_start), (MsgPhase::Sending, Some(5)));
    let mut empty = composing("  ");
    assert!(matches!(handle_key(&mut m, &mut empty, Key::Enter, false, 5), Effect::Stay));
    assert_eq!(empty.phase, MsgPhase::Idle);
    let mut lost = composing("hi");
    lost.focus_chat_id = Some(99);
    assert!(matches!(handle_key(&mut m, &mut lost, Key::Enter, false, 5), Effect::Stay));
    assert_eq!((lost.send_failed_at, lost.draft.as_str()), (Some(5), "hi"));
    let mut closing = composing("hi");
    handle_key(&mut m, &mut closing, Key::Esc, false, 7);
    assert_eq!((closing.phase, closing.anim_start), (MsgPhase::Closing, Some(7)));
    handle_key(&mut m, &mut closing, Key::Other, false, 7);
    assert_eq!(closing.draft, "hi");
}

#[test]
fn clicks_focus_and_double_clicks_reply() {
    let mut hit = MsgHit::new();
    assert_eq!(hit.chat_at(0, 0), None);
    hit.rows = vec![(1, 2), (2, 3)];
    hit.x0 = 2;
    hit.x1 = 9;
    let mut u = ui();
    handle_mouse(&mut u, &hit, 5, 9, 0);
    assert!(!u.active);
    handle_mouse(&mut u, &hit, 5, 1, 10);
    assert_eq!((u.active, u.focus_chat_id, u.composing), (true, Some(2), false));
    // Another row is no double click.
    handle_mouse(&mut u, &hit, 5, 2, 20);
    assert_eq!((u.focus_chat_id, u.composing), (Some(3), false));
    handle_mouse(&mut u, &hit, 5, 2, 20 + MSG_DOUBLE);
    assert_eq!((u.focus_chat_id, u.composing, u.phase), (Some(3), true, MsgPhase::Opening));
    // An open reply is not disturbed by a single click elsewhere.
    handle_mouse(&mut u, &hit, 5, 1, 30 + 3 * MSG_DOUBLE);
    assert_eq!((u.focus_chat_id, u.composing), (Some(3), true));
    hit.clear();
    assert!(hit.rows.is_empty());
}

#[test]
fn transitions_settle() {
    let mut u = composing("hi");
    u.phase = MsgPhase::Sending;
    u.anim_start = Some(0);
    settle_msg_anim(&mut u, MSG_ANIM_MAX - 1);
    assert!(u.composing);
    settle_msg_anim(&mut u, MSG_ANIM_MAX);
    assert_eq!((u.composing, u.draft.as_str(), u.phase, u.anim_start), (false, "", MsgPhase::Idle, None));
    let mut open = composing("hi");
    open.phase = MsgPhase::Opening;
    open.anim_start = Some(0);
    settle_msg_anim(&mut open, 10 * MSG_ANIM_MAX);
    assert_eq!((open.composing, open.phase), (true, MsgPhase::Opening));
    let mut next = ui();
    next.phase = MsgPhase::Advancing;
    next.anim_start = Some(0);
    next.send_failed_at = Some(0);
    settle_msg_anim(&mut next, FLASH - 1);
    assert_eq!((next.phase, next.send_failed_at), (MsgPhase::Idle, Some(0)));
    settle_msg_anim(&mut next, FLASH);
    assert_eq!(next.send_failed_at, None);
}

#[test]
fn the_queue_opens_with_a_track_and_closes_without() {
    let mut m = MusicStats::new(0);
    let mut q = Queue { fresh: true, source_track_id: String::new(), items: vec![] };
    assert_eq!(settle_queue_anim(&m, &q, false, 3, 9), (false, 3));
    m.running = true;
    m.track = "T".to_string();
    q.items.push(QueueTrack { track: "N".to_string(), artist: String::new(), duration: 0 });
    assert_eq!(settle_queue_anim(&m, &q, false, 3, 9), (true, 9));
    assert_eq!(settle_queue_anim(&m, &q, true, 3, 9), (true, 3));
    m.running = false;
    assert_eq!(settle_queue_anim(&m, &q, true, 3, 9), (false, 9));
}

#[test]
fn the_clock_runs_while_the_player_plays() {
    let mut m = MusicStats::new(100);
    m.running = true;
    m.playing = true;
    m.artist = "A".to_string();
    m.track = "T".to_string();
    m.album = "L".to_string();
    m.duration = 1_000;
    m.base_pos = 10;
    assert_eq!(m.position(150), 60);
    assert_eq!(m.position(50), 10);
    assert_eq!(m.position(10_000), 1_000);
    m.playing = false;
    assert_eq!(m.position(150), 10);
    assert_eq!(m.track_id(), "A|T|L");
    assert!(!m.is_tv());
    m.source = MediaSource::Tv;
    assert!(m.is_tv());
    assert_eq!((elapsed(5, 9), elapsed(9, 5)), (4, 0));
    let s = passed_share(0, 30, 60);
    assert_eq!(s.num * 2, s.den);
    let over = passed_share(0, 90, 60);
    assert_eq!(over.num, over.den);
}

#[test]
fn progress_of_a_transition() {
    let mut u = ui();
    assert!(u.progress(100, 5).is_none());
    assert!(!u.animating());
    u.anim_start = Some(0);
    u.phase = MsgPhase::Sending;
    assert!(u.animating());
    let half = u.progress(100, 50).unwrap();
    assert_eq!(half.num * 2, half.den);
    let done = u.progress(100, 500).unwrap();
    assert_eq!(done.num, done.den);
}

#[test]
fn a_refused_reply_comes_back() {
    let mut u = ui();
    u.active = true;
    u.focus_chat_id = Some(3);
    u.phase = MsgPhase::Sending;
    u.anim_start = Some(0);
    u.composing = true;
    u.draft = " on my way ".to_string();
    settle_msg_anim(&mut u, MSG_ANIM_MAX);
    assert!(!u.composing);
    assert_eq!(u.draft, "");
    let now = MSG_ANIM_MAX + 5;
    reply_refused(&mut u, "on my way".to_string(), now);
    assert!(u.composing);
    assert_eq!(u.draft, "on my way");
    assert_eq!(u.focus_chat_id, Some(3));
    assert_eq!(u.phase, MsgPhase::Opening);
    assert_eq!((u.anim_start, u.send_failed_at), (Some(now), Some(now)));
    settle_msg_anim(&mut u, now + FLASH);
    assert!(u.composing);
    assert_eq!(u.send_failed_at, None);
}

#[test]
fn identities_tell_tracks_apart() {
    let mut song = MusicStats::new(0);
    song.artist = "tv".to_string();
    song.track = "Show".to_string();
    song.album = "S1E2".to_string();
    let mut film = MusicStats::new(0);
    film.source = MediaSource::Tv;
    film.watch.show = "Show".to_string();
    film.watch.season = 1;
    film.watch.episode = 2;
    assert_ne!(song.track_id(), film.track_id());
    let mut next = film.clone();
    next.watch.episode = 12;
    assert_ne!(next.track_id(), film.track_id());
    next.watch.episode = 2;
    assert_eq!(next.track_id(), film.track_id());
}
