//! The cards as they are drawn.

use overseer::art::{art_cells, art_of, AlbumArt};
use overseer::discord::{alike, discord_card, discord_height, fake_voice, sort_names};
use overseer::keybinds_card::{
    keybinds_card, keybinds_columns, keybinds_height, keybinds_ncols, KbItem,
};
use overseer::lrc::{LyricLine, Lyrics, Share, UNTIMED};
use overseer::lyrics_card::{below_player, lyrics_card, BelowPlayer, LyricsBody};
use overseer::media_cards::{
    dissolve_phase, facts_card, is_silent, queue_card, watch_synopsis_card, FADE, SYNOPSIS_HOLD,
};
use overseer::message_cards::{messages_card, signal_card};
use overseer::panel::{inner, is_box_glyph, Area, Body, Card, Hue, Ink, Piece, Sweep};
use overseer::player::{
    glyphs_of, marquee_phase, marquee_window, now_playing, progress_bar, spectrum_column, REST,
};
use overseer::processes::{header, proc_columns, proc_rows};
use overseer::robots::{doctor_alert, kind_glyph, live_feed, robots_card, session_line};
use overseer::state::{
    ActionKind, Discord, Doctor, GitStats, KeyGroup, Keybinds, LiveSession, LiveSessions,
    MediaSource, MessageItem, Messages, MsgPhase, MsgUi, MusicFacts, MusicStats, Queue, QueueTrack,
    TextChannel, VoiceChannel, WatchInfo, Weather,
};
use overseer::usage::UsageStats;
use overseer::weather_card::{jazz_spark_rows, night_icon, weather_card};

fn area(width: u16, height: u16) -> Area {
    Area { x: 0, y: 0, width, height }
}

fn text(l: &[Piece]) -> String {
    l.iter().map(|p| p.text.as_str()).collect()
}

fn texts(l: &[Vec<Piece>]) -> Vec<String> {
    l.iter().map(|r| text(r)).collect()
}

/// What a card shows inside its border.
fn rows(c: &Card) -> Vec<String> {
    match &c.body {
        Body::Blank => vec![],
        Body::Lines(l) => texts(l),
        Body::Centered(l) => vec![text(l)],
        Body::Page(l, _) => texts(l),
    }
}

fn message(chat_id: i64, sender: &str, preview: &str, unread: bool) -> MessageItem {
    MessageItem {
        chat_id,
        rowid: chat_id,
        sender: sender.to_string(),
        handle: String::new(),
        guid: format!("guid-{chat_id}"),
        preview: preview.to_string(),
        full_text: preview.to_string(),
        ts_unix: 0,
        rel: "2m".to_string(),
        is_rich: false,
        unread,
        from_me: false,
        is_shortcode: false,
    }
}

fn messages() -> Messages {
    Messages {
        fresh: true,
        available: true,
        unread_count: 1,
        items: vec![message(1, "Ann", "hello there", true), message(2, "Bob", "older", false)],
    }
}

fn unread_yet() -> Messages {
    Messages { fresh: false, available: false, unread_count: 0, items: vec![] }
}

fn ui() -> MsgUi {
    MsgUi {
        active: false,
        focus_chat_id: None,
        last_key_at: None,
        last_click_at: None,
        last_click_chat: None,
        composing: false,
        draft: String::new(),
        phase: MsgPhase::Idle,
        anim_start: None,
        send_failed_at: None,
    }
}

fn music() -> MusicStats {
    let mut m = MusicStats::new(0);
    m.running = true;
    m.playing = true;
    m.polled = true;
    m.track = "Song".to_string();
    m.artist = "Artist".to_string();
    m.album = "Album".to_string();
    m.duration = 200_000_000_000;
    m.base_pos = 50_000_000_000;
    m
}

fn nothing_playing() -> MusicStats {
    MusicStats::new(0)
}

#[test]
fn insides_leave_room_for_border_and_padding() {
    assert_eq!(inner(area(40, 8)), Area { x: 2, y: 1, width: 36, height: 6 });
    assert_eq!(inner(area(2, 1)).width, 0);
    assert!(is_box_glyph("╭") && is_box_glyph("─") && !is_box_glyph("a"));
}

#[test]
fn messages_stand_in_a_list_that_can_be_clicked() {
    let (c, hit) = messages_card(area(40, 8), &messages(), &ui(), 0);
    assert_eq!(text(&c.title), " iMESSAGE  ● 1 unread ");
    assert_eq!(
        rows(&c),
        vec!["  Ann                hello th…  2m ●", "  Bob                older      2m  "]
    );
    assert_eq!(c.sweep, Sweep::Calm);
    assert_eq!((hit.x0, hit.x1, hit.rows.clone()), (2, 37, vec![(1, 1), (2, 2)]));
    assert_eq!(hit.chat_at(2, 1), Some(1));
    assert_eq!(hit.chat_at(37, 2), Some(2));
    assert_eq!(hit.chat_at(38, 2), None);
    assert_eq!(hit.chat_at(5, 3), None);
}

#[test]
fn the_reply_opens_below_its_message() {
    let mut u = ui();
    u.active = true;
    u.focus_chat_id = Some(1);
    u.composing = true;
    u.draft = "on my way".to_string();
    let (c, hit) = messages_card(area(40, 8), &messages(), &u, 0);
    let got = rows(&c);
    assert_eq!(got[0], "▌ Ann                hello th…  2m ●");
    assert_eq!(got[1], "╰▸ on my way▏");
    assert_eq!(got[2], "  Bob                older      2m  ");
    assert_eq!(hit.rows, vec![(1, 1), (3, 2)]);
    assert!(got.len() <= 6);
}

#[test]
fn a_failed_send_flashes() {
    let mut u = ui();
    u.send_failed_at = Some(0);
    let (c, _) = messages_card(area(40, 8), &messages(), &u, 60_000_000);
    assert_eq!(c.flash.map(|s| s.num * 2 / s.den), Some(1));
    let (later, _) = messages_card(area(40, 8), &messages(), &u, 400_000_000);
    assert!(later.flash.map(|s| s.num).unwrap_or(0) == 0);
}

#[test]
fn cards_say_what_they_wait_for() {
    let (c, hit) = messages_card(area(40, 8), &unread_yet(), &ui(), 0);
    assert_eq!(rows(&c), vec!["reading messages…"]);
    assert!(hit.rows.is_empty());
    assert_eq!(rows(&signal_card(area(40, 8), &unread_yet())), vec!["reading Signal…"]);
    assert_eq!(text(&signal_card(area(40, 8), &messages()).title), " SIGNAL  ● 1 unread ");
}

fn discord() -> Discord {
    Discord {
        fresh: true,
        available: true,
        voice: vec![VoiceChannel {
            name: "lounge".to_string(),
            members: vec!["zoe".to_string(), "ann".to_string()],
        }],
        text: vec![TextChannel {
            name: "general".to_string(),
            author: "Bob".to_string(),
            preview: "gm".to_string(),
            rel: "5m".to_string(),
            unread: true,
        }],
        voice_join_at: None,
        voice_speaking: false,
        voice_speaking_tap: false,
        voice_e2ee_blocked: false,
    }
}

#[test]
fn voice_stands_above_text() {
    let c = discord_card(area(44, 8), &discord(), "", "", 0);
    assert_eq!(text(&c.title), " DISCORD  2 in voice ");
    assert_eq!(
        rows(&c),
        vec!["  lounge             zoe, ann", "  #general           Bob: gm        5m ●"]
    );
    assert_eq!(discord_height(&discord(), ""), 4);
    let mut talking = discord();
    talking.voice_speaking_tap = true;
    assert_eq!(discord_card(area(44, 8), &talking, "", "", 0).sweep, Sweep::Talking);
    let mut gone = discord();
    gone.available = false;
    assert_eq!(discord_height(&gone, ""), 4);
}

#[test]
fn a_preview_adds_one_person() {
    let joined = fake_voice(&discord().voice, "LOUNGE: bea ");
    assert_eq!(joined.len(), 1);
    assert_eq!(joined[0].members, vec!["ann", "bea", "zoe"]);
    let opened = fake_voice(&discord().voice, " Ghosty ");
    assert_eq!((opened.len(), opened[1].name.as_str(), opened[1].members[0].as_str()), (2, "200 club", "Ghosty"));
    assert_eq!(fake_voice(&discord().voice, "  ").len(), 1);
    let c = discord_card(area(44, 8), &discord(), "Ghosty", "1", 0);
    assert_eq!(text(&c.title), " DISCORD  3 in voice ");
    assert_eq!((c.sweep, discord_height(&discord(), "Ghosty")), (Sweep::Talking, 5));
    assert!(alike("200 Club", "200 cLUB") && !alike("É", "é"));
    let names: Vec<String> = ["b", "a", "ab"].iter().map(|s| s.to_string()).collect();
    assert_eq!(sort_names(&names), vec!["a", "ab", "b"]);
}

#[test]
fn facts_are_bulleted_and_paged() {
    let f = MusicFacts {
        track_id: "Artist|Song|Album".to_string(),
        lines: vec!["A first fact that is long enough to wrap.".to_string(), "Second.".to_string()],
        note: String::new(),
        source: String::new(),
    };
    let c = facts_card(area(30, 8), &f, &music(), 0);
    assert_eq!(rows(&c), vec!["• A first fact that is", "  long enough to wrap.", "• Second."]);
    // Two facts that do not fit together come one after the other.
    let first = facts_card(area(30, 4), &f, &music(), 0);
    assert_eq!(rows(&first), vec!["• A first fact that is", "  long enough to wrap."]);
    assert!(is_silent(&nothing_playing()) && !is_silent(&music()));
}

#[test]
fn the_queue_names_what_comes_next() {
    let q = Queue {
        fresh: true,
        source_track_id: "Artist|Song|Album".to_string(),
        items: vec![QueueTrack {
            track: "Next".to_string(),
            artist: "Who".to_string(),
            duration: 61_000_000_000,
        }],
    };
    let c = queue_card(area(40, 8), &q, &music());
    assert_eq!(text(&c.title), " QUEUE  1 up next ");
    assert_eq!(rows(&c), vec!["1  Next", "   Who  ·  1:01"]);
}

fn film() -> WatchInfo {
    WatchInfo {
        track_id: "Artist|Song|Album".to_string(),
        synopsis: "A heist goes wrong in the rain.".to_string(),
        director: "D".to_string(),
        cast: vec!["X".to_string()],
        producers: vec![],
        note: String::new(),
    }
}

#[test]
fn a_film_has_a_synopsis() {
    let c = watch_synopsis_card(area(30, 9), &film(), &music(), 0);
    assert_eq!(text(&c.title), " Song ");
    assert_eq!(rows(&c), vec!["A heist goes wrong in the", "rain."]);
}

#[test]
fn views_change_while_they_are_unseen() {
    assert_eq!(dissolve_phase(0, 5, SYNOPSIS_HOLD, FADE).0, 0);
    let (first, clear) = dissolve_phase(2, SYNOPSIS_HOLD / 2, SYNOPSIS_HOLD, FADE);
    assert_eq!((first, clear.num), (0, clear.den));
    let (second, _) = dissolve_phase(2, SYNOPSIS_HOLD + FADE + SYNOPSIS_HOLD / 2, SYNOPSIS_HOLD, FADE);
    assert_eq!(second, 1);
    let (again, _) = dissolve_phase(2, 2 * (SYNOPSIS_HOLD + FADE) + SYNOPSIS_HOLD / 2, SYNOPSIS_HOLD, FADE);
    assert_eq!(again, 0);
    let (_, dark) = dissolve_phase(2, SYNOPSIS_HOLD + FADE / 2, SYNOPSIS_HOLD, FADE);
    assert_eq!(dark.num, 0);
}

fn song() -> Lyrics {
    let line = |t: i64, s: &str| LyricLine { t, text: s.to_string() };
    Lyrics {
        lines: vec![line(48_000_000_000, "now line"), line(52_000_000_000, "next line")],
        synced: true,
        track_id: "Artist|Song|Album".to_string(),
        note: String::new(),
    }
}

#[test]
fn the_line_being_sung_stands_in_the_middle() {
    let c = lyrics_card(area(30, 9), &song(), &music(), 0);
    match c.body {
        LyricsBody::Band { lines, at } => {
            assert_eq!(at, Area { x: 2, y: 2, width: 26, height: 5 });
            assert_eq!(texts(&lines), vec!["", "", "now line", "next line", ""]);
            // Half of the line is sung.
            let lit = lines[2].iter().filter(|p| matches!(p.ink, Ink::Wiped(_))).count();
            let dark = lines[2].iter().filter(|p| p.ink == Ink::Pending).count();
            assert_eq!((lines[2].len(), lit, dark), (8, 4, 3));
            assert_eq!(lines[3][0].ink, Ink::Flat(Hue::Dim));
        }
        _ => panic!("synced lyrics are sung"),
    }
}

#[test]
fn without_lyrics_the_card_says_so() {
    let mut ly = song();
    ly.lines.clear();
    ly.synced = false;
    ly.note = "no lyrics found".to_string();
    match lyrics_card(area(30, 9), &ly, &music(), 0).body {
        LyricsBody::Band { .. } => panic!("there is nothing to sing"),
        LyricsBody::Note(l) => assert!(text(&l).contains("no lyrics found")),
        LyricsBody::Quiet { caption, .. } => assert!(text(&caption).contains("no lyrics found")),
    }
    let mut plain = song();
    plain.synced = false;
    for l in plain.lines.iter_mut() {
        l.t = UNTIMED;
    }
    assert!(matches!(lyrics_card(area(30, 9), &plain, &music(), 0).body, LyricsBody::Band { .. }));
}

#[test]
fn below_a_film_stands_its_synopsis() {
    let mut m = music();
    assert!(matches!(below_player(area(30, 9), &song(), &film(), &m, 0, 0), BelowPlayer::Lyrics(_)));
    m.source = MediaSource::Tv;
    assert!(matches!(below_player(area(30, 9), &song(), &film(), &m, 0, 0), BelowPlayer::Watch(_)));
}

fn cover() -> AlbumArt {
    AlbumArt { track_id: String::new(), w: 0, h: 0, px: vec![] }
}

#[test]
fn the_player_shows_the_track_and_its_progress() {
    let (title, p) = now_playing(area(70, 13), &music(), &cover(), 0);
    assert_eq!(text(&title), " NOW PLAYING ");
    let p = p.unwrap();
    assert_eq!((text(&p.first), text(&p.second)), ("Artist - Song".to_string(), "Album".to_string()));
    assert_eq!((p.elapsed.as_str(), p.total.as_str()), ("0:50 ", " 3:20"));
    assert_eq!((p.bar.full, p.bar.part, p.bar.rail), (8, Some('▊'), 26));
    assert_eq!(p.art, Area { x: 3, y: 2, width: 18, height: 9 });
    assert_eq!(p.eq, Some(Area { x: 23, y: 9, width: 45, height: 2 }));
    assert!(!p.current);
    let mut film = music();
    film.source = MediaSource::Tv;
    let (title, p) = now_playing(area(70, 13), &film, &cover(), 0);
    assert_eq!(text(&title), " NOW WATCHING ");
    assert!(p.unwrap().eq.is_none());
    assert!(now_playing(area(70, 13), &nothing_playing(), &cover(), 0).1.is_none());
}

#[test]
fn bars_have_two_ends() {
    let s = |num: u64, den: u64| Share { num, den };
    let b = progress_bar(s(1, 3), 10);
    assert_eq!((b.full, b.part, b.rail), (3, Some('▍'), 6));
    assert_eq!(progress_bar(s(0, 1), 10).full, 0);
    assert_eq!(progress_bar(s(1, 1), 10).full, 10);
    assert_eq!(spectrum_column(13, 3), vec![' ', '▅', '█']);
    assert_eq!(spectrum_column(0, 2), vec![' ', ' ']);
    assert_eq!(spectrum_column(99, 2), vec!['█', '█']);
}

#[test]
fn long_titles_rest_before_they_glide() {
    assert_eq!(marquee_phase(10, 20, 5), None);
    let at = |t: u64| marquee_phase(40, 20, t).unwrap();
    assert_eq!(at(0).num, 0);
    assert_eq!(at(REST).num, 0);
    assert!(at(REST + 5_000_000_000).num > 0);
    let line = vec![
        Piece { text: "abc".to_string(), ink: Ink::Raw, bold: true, italic: false },
        Piece { text: "de".to_string(), ink: Ink::Flat(Hue::Dim), bold: false, italic: false },
    ];
    assert_eq!(glyphs_of(&line).len(), 5);
    let seen: String = marquee_window(&line, 1, 3).iter().map(|g| g.ch).collect();
    assert_eq!(seen, "bcd");
}

#[test]
fn covers_are_drawn_in_half_cells() {
    let art = art_of("id", Some(vec![[10, 20, 30]; 4096]));
    let cells = art_cells(&art, 4, 2, true).unwrap();
    assert_eq!((cells.len(), cells[0].len()), (2, 4));
    assert!(art_cells(&cover(), 4, 2, true).is_none());
    assert!(art_cells(&art, 4, 2, false).is_none());
}

fn usage() -> UsageStats {
    UsageStats {
        fresh: true,
        today_input: 1_000,
        today_output: 500,
        today_cache_read: 0,
        today_cache_write: 0,
        today_cost: 0,
        today_messages: 1,
        top_model: "Opus".to_string(),
        sessions_today: 1,
        tokens_7d: 2_500_000,
        tokens_30d: 3_000_000_000,
        sessions_30d: 7,
        hourly: vec![0; 24],
    }
}

fn git() -> GitStats {
    GitStats {
        fresh: true,
        ok: true,
        branch: "feature/long-name".to_string(),
        dirty: 1,
        untracked: 0,
        staged: 0,
        ahead: 0,
        behind: 0,
        last_hash: "abc123".to_string(),
        last_msg: "Fix it".to_string(),
        last_rel: "2 hours ago".to_string(),
        commits_today: 3,
        pr_count: 4,
        repo: "station".to_string(),
        loc_added: 10,
        loc_removed: 2,
        branch_commits: 5,
        merges_main: 0,
    }
}

fn session() -> LiveSession {
    LiveSession {
        session_id: "s".to_string(),
        project: "overseer".to_string(),
        branch: "main".to_string(),
        model: "Opus".to_string(),
        action: "Editing ui.rs".to_string(),
        kind: ActionKind::Edit,
        age: 3_000_000_000,
    }
}

fn doctor() -> Doctor {
    Doctor {
        available: true,
        running: true,
        step: "triage".to_string(),
        trigger: String::new(),
        last_title: String::new(),
        last_outcome: String::new(),
        last_severity: String::new(),
        last_model: String::new(),
        last_actions: vec![],
        last_rel: String::new(),
        today_cost: 0,
        incidents_total: 0,
    }
}

#[test]
fn robots_work_beside_their_branch() {
    let live = LiveSessions { fresh: true, sessions: vec![session()] };
    let b = robots_card(area(70, 12), &usage(), &git(), &live, &doctor(), "~/logs").unwrap();
    assert_eq!(
        texts(&b.feed.lines),
        vec!["✚ mac-doctor triage     now", "✎ overseer Editing ui.rs 3s"]
    );
    assert_eq!(texts(&b.totals.lines), vec!["today 1.5K  wk 2.5M", "month 3.0B  sess 7"]);
    assert_eq!((b.feed.at.width, b.rule), (27, 30));
    assert_eq!(
        texts(&b.branch.unwrap().lines),
        vec![
            "station/feature/long-name",
            "abc123 Fix it",
            "2 hours ago",
            "",
            "+10 -2 loc today",
            "3 commits today",
            "4 PRs",
            "0 merges today",
        ]
    );
    assert!(robots_card(area(27, 12), &usage(), &git(), &live, &doctor(), "").is_none());
    let mut waiting = usage();
    waiting.fresh = false;
    let w = robots_card(area(70, 12), &waiting, &git(), &live, &doctor(), "~/logs").unwrap();
    assert_eq!(texts(&w.totals.lines), vec!["scanning ~/logs…"]);
}

#[test]
fn the_feed_never_overflows() {
    let live = LiveSessions { fresh: true, sessions: vec![session(); 9] };
    assert_eq!(live_feed(3, 40, &live, &doctor()).len(), 3);
    assert_eq!(live_feed(20, 40, &live, &doctor()).len(), 6);
    assert_eq!(text(&session_line(&session(), 40, 0)), "✎ overseer Editing ui.rs ·Opus        3s");
    assert_eq!(kind_glyph(ActionKind::Edit).0, "✎");
    let mut idle = doctor();
    idle.running = false;
    assert!(doctor_alert(&doctor()) && !doctor_alert(&idle));
    assert_eq!(live_feed(20, 40, &live, &idle).len(), 5);
}

fn weather() -> Weather {
    Weather {
        fresh: true,
        location: "Fond du Lac, WI".to_string(),
        temp_f: 71,
        feels_f: 69,
        desc: "Sunny".to_string(),
        icon: "☀".to_string(),
        hi_f: 80,
        lo_f: 60,
        humidity: 40,
        wind_mph: 5,
        wind_dir: "N".to_string(),
        precip_chance: 10,
        uv: 3,
        pressure_mb: 1015,
        sunrise: "06:21".to_string(),
        sunset: "20:14".to_string(),
        temp_strip: vec![60, 65, 70, 75, 80, 70],
    }
}

#[test]
fn the_weather_fills_its_card() {
    let c = weather_card(area(50, 9), &weather(), 12 * 60);
    let got = rows(&c);
    assert_eq!(got[0], "☀ 71°F  Sunny  feels 69°      ☀ 06:21  ☾ 20:14");
    assert_eq!(got[1], "↑80° ↓60°   hum 40%   UV 3");
    assert_eq!(got[2], "💨 N 5 mph   ☔ rain 10%   1015 mb");
    assert_eq!(got.len(), 7);
    assert_eq!(got[6], "█".repeat(46));
    let blank = jazz_spark_rows(&vec![], 3, 2);
    assert_eq!(blank.iter().map(|r| r[0].text.as_str()).collect::<Vec<_>>(), ["   ", "   "]);
    assert_eq!(jazz_spark_rows(&vec![1, 2], 4, 0).len(), 1);
    assert_eq!(jazz_spark_rows(&vec![1, 2], 0, 2)[1][0].text, "");
    let strip = jazz_spark_rows(&vec![1, 2], 4, 1);
    assert_eq!((strip.len(), text(&strip[0]).chars().count()), (1, 4));
}

#[test]
fn only_the_sun_sets() {
    assert_eq!(night_icon(&weather(), 12 * 60), "☀");
    assert_eq!(night_icon(&weather(), 23 * 60), "🌙");
    assert_eq!(night_icon(&weather(), 5 * 60), "🌙");
    let mut rain = weather();
    rain.icon = "🌧".to_string();
    assert_eq!(night_icon(&rain, 23 * 60), "🌧");
}

fn keys() -> Keybinds {
    let bind = |k: &str, d: &str| (k.to_string(), d.to_string());
    Keybinds {
        available: true,
        hyper: "caps lock".to_string(),
        groups: vec![
            KeyGroup { name: "Windows".to_string(), binds: vec![bind("H", "left"), bind("L", "right")] },
            KeyGroup { name: "Apps".to_string(), binds: vec![bind("T", "terminal")] },
        ],
    }
}

#[test]
fn groups_of_keys_are_never_split() {
    assert_eq!((keybinds_ncols(20), keybinds_ncols(62), keybinds_ncols(500)), (1, 2, 3));
    assert_eq!(keybinds_height(&keys(), 80), 5);
    let item = |k: &str, d: &str| KbItem::Bind(k.to_string(), d.to_string());
    let head = |s: &str| KbItem::Header(s.to_string());
    assert_eq!(
        keybinds_columns(&keys(), 2),
        vec![
            vec![head("Windows"), item("H", "left"), item("L", "right")],
            vec![head("Apps"), item("T", "terminal")],
        ]
    );
    assert_eq!(keybinds_columns(&keys(), 1)[0].len(), 6);
    let (_, placed) = keybinds_card(area(80, 8), &keys());
    assert_eq!(placed.len(), 2);
    assert!(text(&placed[0].lines[1]).contains("left"));
}

#[test]
fn processes_stand_in_columns() {
    assert_eq!(header(), "  cpu%     mem   uptime  process");
    assert_eq!(
        proc_columns(1 << 30, 3_661, "sh", 60),
        ("    1.0G".to_string(), "     1h1m".to_string(), "  sh".to_string())
    );
    assert_eq!(proc_rows(area(60, 8), 20), Some(5));
    assert_eq!(proc_rows(area(60, 8), 2), Some(2));
    assert_eq!(proc_rows(area(60, 2), 20), None);
}
