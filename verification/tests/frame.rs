//! The frame: options, areas, glides, delayed playback and the demo scene.

use overseer::art::{glowing, sample_album_art, AlbumArt};
use overseer::demo::{demo_anonymize, Scene};
use overseer::layout::{
    card_height, column_rules, columns_of, frame_columns, frame_rules, keybinds_rows, left_areas,
    left_card_heights, length_rules, lyrics_row, now_playing_row, player_and_facts, player_rules,
    right_areas, right_column, right_rules, show_lyrics, Rule, KEYS_GLIDE, QUEUE_GLIDE,
};
use overseer::lrc::{Lyrics, Share};
use overseer::options::{
    cell_line, frame_budget, frame_size, has, keys_preview, loop_track, mode, queue_preview,
    time_preview, value_of, Mode, CALM_FRAME, FAST_FRAME,
};
use overseer::panel::Area;
use overseer::playback::{border_share, bracket, slide};
use overseer::sample::{pose, sample_data, wish, Watch};
use overseer::state::{
    Discord, Doctor, GitStats, KeyGroup, Keybinds, LiveSessions, Messages, MsgPhase, MsgUi,
    MusicFacts, MusicStats, Queue, Weather,
};
use overseer::theme::{
    dress, theme_from_art, DynamicTheme, ACCENT_BASE, CYAN_BASE, PINK_BASE, SETTLED,
};

fn area(width: u16, height: u16) -> Area {
    Area { x: 0, y: 0, width, height }
}

fn args(list: &[&str]) -> Vec<String> {
    list.iter().map(|s| s.to_string()).collect()
}

fn no_messages() -> Messages {
    Messages { fresh: true, available: true, unread_count: 0, items: vec![] }
}

fn no_discord() -> Discord {
    Discord {
        fresh: true,
        available: true,
        voice: vec![],
        text: vec![],
        voice_join_at: None,
        voice_speaking: false,
        voice_speaking_tap: false,
        voice_e2ee_blocked: false,
    }
}

fn ui() -> MsgUi {
    MsgUi {
        active: false,
        focus_chat_id: None,
        last_key_at: None,
        last_click_at: None,
        last_click_chat: None,
        composing: false,
        draft: String::new(),
        phase: MsgPhase::Idle,
        anim_start: None,
        send_failed_at: None,
    }
}

#[test]
fn flags_choose_what_to_do() {
    assert_eq!(mode(&args(&["overseer"]), true), Mode::Run);
    assert_eq!(mode(&args(&["overseer", "--cells", "--demo"]), true), Mode::Demo);
    for (flag, want) in [
        ("--snapshot", Mode::Snapshot),
        ("--diag", Mode::Diag),
        ("--diag-msg", Mode::DiagMessages),
        ("--diag-signal", Mode::DiagSignal),
        ("--diag-live", Mode::DiagLive),
        ("--diag-tv", Mode::DiagTv),
        ("--diag-np", Mode::DiagNowPlaying),
        ("--diag-audio", Mode::DiagAudio),
        ("--diag-discord-audio", Mode::DiagDiscordAudio),
        ("--diag-voice", Mode::DiagVoice),
        ("--facts", Mode::Facts),
        ("--clear-cache", Mode::ClearCache),
        ("--cells", Mode::Cells),
    ] {
        assert_eq!(mode(&args(&["overseer", flag]), true), want);
    }
    assert_eq!(mode(&args(&["overseer", "--diag-audio"]), false), Mode::Run);
    assert!(has(&args(&["a", "b"]), "b") && !has(&args(&["a", "b"]), "c"));
}

#[test]
fn previews_are_asked_for_by_name() {
    assert_eq!(frame_size(&args(&["prog", "--snapshot", "200x60"])), (200, 60));
    assert_eq!(frame_size(&args(&["prog"])), (140, 44));
    assert_eq!(frame_size(&args(&["wxh"])), (140, 44));
    assert_eq!(frame_size(&args(&["70000x60"])), (140, 44));
    assert_eq!(value_of(&args(&["a", "t=1", "t=2"]), "t="), Some("1".to_string()));
    assert_eq!(keys_preview(&args(&["kbhide=mid"])), Some(170_000_000));
    assert_eq!(keys_preview(&args(&["kbhide=1"])), Some(1_000_000_000));
    assert_eq!(keys_preview(&args(&[])), None);
    assert_eq!(queue_preview(&args(&["qopen=mid"])), Some((true, 170_000_000, false)));
    assert_eq!(queue_preview(&args(&["qopen=0"])), Some((false, 1_000_000_000, true)));
    assert_eq!(queue_preview(&args(&["qopen=1"])), Some((true, 1_000_000_000, false)));
    assert_eq!(time_preview(&args(&["t=2.5"])), 2_500_000_000);
}

#[test]
fn cells_are_dumped_one_a_line() {
    assert_eq!(cell_line(3, 4, Some((1, 2, 3)), Some((4, 5, 6)), "█"), "3\t4\t1\t2\t3\t4\t5\t6\t█");
}

#[test]
fn frames_are_fast_while_something_moves() {
    let mut m = MusicStats::new(0);
    let far = 100_000_000_000;
    assert_eq!(frame_budget(&m, &ui(), 0, 0, far), CALM_FRAME);
    m.playing = true;
    assert_eq!(frame_budget(&m, &ui(), 0, 0, far), FAST_FRAME);
    m.playing = false;
    assert_eq!(frame_budget(&m, &ui(), far, 0, far), FAST_FRAME);
    let mut u = ui();
    u.anim_start = Some(0);
    u.phase = MsgPhase::Sending;
    assert_eq!(frame_budget(&m, &u, 0, 0, far), FAST_FRAME);
}

#[test]
fn a_demo_track_starts_over() {
    let mut m = MusicStats::new(0);
    m.playing = true;
    m.duration = 10_000_000_000;
    loop_track(&mut m, 5_000_000_000);
    assert_eq!(m.sampled_at, 0);
    loop_track(&mut m, 9_800_000_000);
    assert_eq!((m.base_pos, m.sampled_at), (0, 9_800_000_000));
}

#[test]
fn a_frame_has_a_footer_and_two_columns() {
    let c = frame_columns(area(200, 60));
    assert_eq!(c.footer, Area { x: 0, y: 59, width: 200, height: 1 });
    assert_eq!(c.left, Area { x: 0, y: 0, width: 84, height: 59 });
    assert_eq!(c.right, Area { x: 84, y: 0, width: 116, height: 59 });
}

#[test]
fn the_right_column_holds_player_lyrics_and_keys() {
    let r = right_areas(area(100, 60), true, 10);
    assert_eq!((r.player.height, r.lyrics.unwrap().y, r.keys.unwrap().height), (13, 13, 10));
    let silent = right_areas(area(100, 60), false, 10);
    assert!(silent.lyrics.is_none());
    assert_eq!(silent.keys.unwrap().y, 13);
    assert!(right_areas(area(100, 60), true, 2).keys.is_none());
    let v = vec![area(1, 1), area(2, 2), area(3, 3)];
    assert_eq!(right_column(false, &v).keys, None);
    assert_eq!(right_column(true, &v).keys, Some(area(3, 3)));
    assert_eq!(now_playing_row(area(100, 13)).1.unwrap().x, 65);
    assert_eq!(now_playing_row(area(63, 13)), (area(63, 13), None));
}

#[test]
fn the_left_column_is_filled_exactly() {
    for avail in [44u16, 60, 80, 120] {
        let h = left_card_heights(avail, &no_messages(), false, &no_messages(), &no_discord(), "");
        assert_eq!(h.len(), 8);
        assert_eq!(h.iter().map(|x| *x as u32).sum::<u32>(), avail as u32, "{}", avail);
        let areas = left_areas(area(80, avail), &h);
        assert_eq!(areas.iter().map(|a| a.height).collect::<Vec<_>>(), h);
    }
    assert!(card_height(&no_messages(), true) >= card_height(&no_messages(), false));
}

#[test]
fn the_queue_and_the_keys_glide() {
    let (lyrics, queue) = lyrics_row(area(100, 9), QUEUE_GLIDE, true);
    assert_eq!((lyrics.width, queue.unwrap().width), (65, 35));
    let (whole, none) = lyrics_row(area(100, 9), QUEUE_GLIDE, false);
    assert_eq!((whole.width, none), (100, None));
    let (half, part) = lyrics_row(area(100, 9), QUEUE_GLIDE / 2, true);
    assert_eq!(half.width + part.unwrap().width, 100);
    let kb = Keybinds {
        available: true,
        hyper: String::new(),
        groups: vec![KeyGroup {
            name: "G".to_string(),
            binds: vec![("k".to_string(), "d".to_string())],
        }],
    };
    assert_eq!(keybinds_rows(&kb, 80, KEYS_GLIDE, true), 4);
    assert_eq!(keybinds_rows(&kb, 80, KEYS_GLIDE, false), 0);
}

#[test]
fn lyrics_are_shown_until_the_player_is_known_to_be_silent() {
    let mut m = MusicStats::new(0);
    assert!(show_lyrics(&m));
    m.polled = true;
    assert!(!show_lyrics(&m));
    m.playing = true;
    m.track = "T".to_string();
    assert!(show_lyrics(&m));
}

#[test]
fn moments_lie_between_samples() {
    let times = vec![0, 1_000_000_000, 3_000_000_000];
    let (i, s) = bracket(&times, 1_500_000_000);
    assert_eq!((i, s.num * 4, s.den), (1, s.den, 2_000_000_000));
    assert_eq!(bracket(&times, 9_000_000_000).0, 2);
    assert_eq!(bracket(&times, 0).0, 0);
    assert_eq!(bracket(&vec![5], 9).1.num, 0);
}

#[test]
fn rows_slide_to_their_places() {
    let from = args(&["a", "b"]);
    let to = args(&["b", "a", "c"]);
    let end = slide(&from, &to, Share { num: 1, den: 1 });
    assert_eq!(end.iter().map(|s| s.index).collect::<Vec<_>>(), vec![0, 1, 2]);
    let start = slide(&from, &to, Share { num: 0, den: 1 });
    assert_eq!(start.iter().map(|s| s.index).collect::<Vec<_>>(), vec![1, 0, 2]);
    assert_eq!(start[2].fade.num, 0);
    assert_eq!(start[0].fade.num, start[0].fade.den);
}

#[test]
fn the_border_is_walked_once() {
    let a = area(5, 4);
    let mut seen: Vec<u64> = Vec::new();
    for y in 0..4 {
        for x in 0..5 {
            match border_share(a, x, y) {
                Some(s) => {
                    assert_eq!(s.den, 14);
                    seen.push(s.num);
                }
                None => assert!(x > 0 && x < 4 && y > 0 && y < 3),
            }
        }
    }
    seen.sort();
    assert_eq!(seen, (0..14).collect::<Vec<u64>>());
}

fn scene() -> Scene {
    Scene {
        music: MusicStats::new(0),
        cover: AlbumArt { track_id: "secret".to_string(), w: 1, h: 1, px: vec![[1, 2, 3]] },
        theme: DynamicTheme::new(0),
        lyrics: Lyrics::empty(),
        queue: Queue { fresh: false, source_track_id: String::new(), items: vec![] },
        facts: MusicFacts {
            track_id: String::new(),
            lines: vec![],
            note: String::new(),
            source: String::new(),
        },
        messages: no_messages(),
        msg_ui: ui(),
        signal: no_messages(),
        discord: no_discord(),
        live: LiveSessions { fresh: false, sessions: vec![] },
        doctor: Doctor {
            available: true,
            running: true,
            step: "secret".to_string(),
            trigger: String::new(),
            last_title: "secret".to_string(),
            last_outcome: String::new(),
            last_severity: String::new(),
            last_model: String::new(),
            last_actions: vec![],
            last_rel: String::new(),
            today_cost: 0,
            incidents_total: 0,
        },
        git: GitStats {
            fresh: true,
            ok: true,
            branch: "secret".to_string(),
            dirty: 0,
            untracked: 0,
            staged: 0,
            ahead: 0,
            behind: 0,
            last_hash: String::new(),
            last_msg: "secret".to_string(),
            last_rel: String::new(),
            commits_today: 0,
            pr_count: 0,
            repo: "secret".to_string(),
            loc_added: 0,
            loc_removed: 0,
            branch_commits: 0,
            merges_main: 0,
        },
        weather: Weather {
            fresh: true,
            location: "Secret".to_string(),
            temp_f: 0,
            feels_f: 0,
            desc: String::new(),
            icon: String::new(),
            hi_f: 0,
            lo_f: 0,
            humidity: 0,
            wind_mph: 0,
            wind_dir: String::new(),
            precip_chance: 0,
            uv: 0,
            pressure_mb: 0,
            sunrise: String::new(),
            sunset: String::new(),
            temp_strip: vec![],
        },
    }
}

#[test]
fn the_demo_shows_nothing_real() {
    let mut s = scene();
    demo_anonymize(&mut s, 5);
    assert!(s.music.playing && !s.music.track.is_empty());
    assert!(!s.git.branch.contains("secret") && !s.git.repo.contains("secret"));
    assert_ne!(s.weather.location, "Secret");
    assert_eq!(s.lyrics.track_id, s.music.track_id());
    assert!(s.lyrics.synced && !s.lyrics.lines.is_empty());
    assert!(!s.messages.items.is_empty() && !s.signal.items.is_empty());
    assert!(!s.discord.voice.is_empty() && !s.live.sessions.is_empty());
    assert!(!s.queue.items.is_empty() && !s.facts.lines.is_empty());
}

#[test]
fn the_demo_is_about_one_track() {
    let now = 60_000_000_000u64;
    let mut s = scene();
    demo_anonymize(&mut s, now);
    let id = s.music.track_id();
    assert_eq!(id, "The Vapor Lines|Midnight Vector|Neon Horizons");
    assert!(s.cover.track_id == id && s.theme.source_track_id == id);
    assert!(s.lyrics.track_id == id && s.facts.track_id == id && s.queue.source_track_id == id);
    assert_eq!(s.cover.px, glowing("").px);
    let (accent, cyan, pink) = theme_from_art(&s.cover.px);
    assert_eq!(s.theme.target, [accent, cyan, pink]);
    assert_eq!(s.theme.eased(now), s.theme.target);
    assert_eq!(s.theme.current, [ACCENT_BASE, CYAN_BASE, PINK_BASE]);
    assert_eq!(s.theme.blend_start, now - SETTLED);
    assert_eq!(s.signal.unread_count as usize, s.signal.items.iter().filter(|m| m.unread).count());
    assert_eq!(s.messages.unread_count as usize, s.messages.items.iter().filter(|m| m.unread).count());
}

#[test]
fn a_theme_leaves_what_it_shows() {
    let mut t = DynamicTheme::new(0);
    t.retarget("a".to_string(), [(0, 0, 0), (10, 20, 30), (40, 50, 60)], 0);
    let shown = t.eased(100_000_000);
    let bare = AlbumArt { track_id: "b".to_string(), w: 0, h: 0, px: vec![] };
    dress(&mut t, &bare, 100_000_000);
    assert_eq!((t.current, t.source_track_id.as_str(), t.blend_start), (shown, "b", 0));
    assert_eq!(t.target, [ACCENT_BASE, CYAN_BASE, PINK_BASE]);
    assert_eq!(t.eased(450_000_000), t.target);
}

#[test]
fn a_sample_follows_its_cover() {
    let kept: Vec<[u8; 3]> = (0..4096u32).map(|i| [(i % 251) as u8, 90, (i / 64) as u8]).collect();
    let s = sample_data(wish(false, None, None, None), "someone", kept.clone(), 3 * SETTLED).scene;
    assert_eq!((s.cover.w, s.cover.h, s.cover.track_id.clone()), (64, 64, s.music.track_id()));
    assert_eq!(s.cover.px, kept);
    assert_eq!(s.theme.source_track_id, s.music.track_id());
    let (accent, cyan, pink) = theme_from_art(&kept);
    assert_eq!(s.theme.eased(3 * SETTLED), [accent, cyan, pink]);
    assert_eq!(s.theme.current, [ACCENT_BASE, CYAN_BASE, PINK_BASE]);
    assert_eq!(s.facts.source, "someone");
    assert_eq!(s.doctor.today_cost, 34_000_000);
    let without = sample_data(wish(false, None, None, None), "someone", vec![], 0).scene;
    assert_eq!(without.cover.px, glowing("").px);
}

#[test]
fn the_glow_falls_to_its_rim() {
    let art = glowing("id");
    assert_eq!((art.w, art.h, art.px.len(), art.track_id.as_str()), (64, 64, 4096, "id"));
    assert_eq!(art.px[0], [40, 30, 120]);
    assert_eq!(art.px[32 * 64 + 32], [255, 110, 199]);
    // Thirty-one half pixels from the middle, across and down by one.
    assert_eq!(art.px[32 * 64 + 47], [255 - (215 * 962) / 4096, 110 - (80 * 962) / 4096, 199 - (79 * 962) / 4096].map(|v: u32| v as u8));
    assert_eq!(sample_album_art("id", art.px.clone()).px, art.px);
    assert_eq!(sample_album_art("id", vec![[1, 2, 3]]).px, art.px);
}

#[test]
fn a_sample_plays_its_song() {
    let s = sample_data(wish(false, None, None, None), "someone", vec![], 7);
    assert_eq!(s.scene.music.track_id(), "Drake|Started From the Bottom|Nothing Was the Same (Deluxe)");
    assert_eq!(s.scene.lyrics.track_id, s.scene.music.track_id());
    assert_eq!(s.scene.queue.source_track_id, s.scene.music.track_id());
    assert_eq!(s.scene.lyrics.active(s.scene.music.position(7)).map(|a| a.0), Some(2));
    assert_eq!(s.scene.queue.items[1].track, "BagBak");
    assert_eq!(s.watch_info.synopsis, "");
    assert!(!s.scene.msg_ui.composing);
    assert!(s.scene.msg_ui.active);
    assert!(!s.scene.doctor.running);
    assert_eq!(s.scene.doctor.last_model, "qwen2.5:14b");
    assert!(!s.scene.discord.voice_speaking);
    assert_eq!(s.usage.today_cost, 410_000_000);
    assert_eq!(s.usage.hourly.len(), 24);
}

#[test]
fn sampled_previews_are_one_line() {
    let s = sample_data(wish(true, None, None, None), "someone", vec![], 7);
    let items = &s.scene.messages.items;
    assert_eq!(items.len(), 5);
    assert_eq!(items[0].preview.chars().count(), 96);
    assert!(items[0].preview.ends_with('…'));
    assert_eq!(items[4].preview, "You: ok 👍");
    assert_eq!(items.iter().filter(|m| m.unread).count() as u64, s.scene.messages.unread_count as u64);
    assert_eq!(s.scene.msg_ui.focus_chat_id, Some(0));
    assert_eq!(s.scene.msg_ui.draft, "on my way");
    assert_eq!(s.scene.msg_ui.phase, MsgPhase::Opening);
    assert_eq!(s.scene.msg_ui.anim_start, Some(7));
    assert_eq!(s.scene.signal.items[0].preview, "Elijah: [photo]");
}

#[test]
fn a_sample_can_watch_instead() {
    let words = |s: &str| Some(s.to_string());
    let s = sample_data(wish(false, words("show"), words("running"), words("x")), "someone", vec![], 9);
    assert_eq!(s.scene.music.track_id(), "tv|Severance|Cold Harbor|S2E10");
    assert_eq!(s.scene.lyrics.note, "▶ now watching");
    assert!(s.scene.lyrics.lines.is_empty());
    assert!(s.scene.queue.items.is_empty());
    assert_eq!(s.watch_info.cast.len(), 7);
    assert_eq!(s.scene.doctor.step, "local triage (qwen2.5:14b)…");
    assert!(s.scene.discord.voice_speaking);
    let m = wish(false, words("movie"), words("idle"), words("  "));
    assert_eq!(m.watch, Watch::Movie);
    assert!(!m.triage);
    assert!(!m.speaking);
    assert_eq!(sample_data(m, "someone", vec![], 9).scene.music.track, "Dune: Part Two");
    assert_eq!(sample_data(m, "someone", vec![], 9).keybinds.groups[6].binds[2].1, "¯\\_(ツ)_/¯");
}

#[test]
fn a_sample_is_posed() {
    let base = || sample_data(wish(false, None, None, None), "someone", vec![], 7).scene;
    let mut s = base();
    pose(&mut s, &args(&["overseer", "--cells", "t=2.5"]), 9);
    assert_eq!(s.music.base_pos, 13_500_000_000);
    assert_eq!(s.music.sampled_at, 9);
    assert_eq!(s.lyrics.lines.len(), 6);
    assert_eq!(s.queue.items.len(), 3);
    let mut s = base();
    pose(&mut s, &args(&["--idle", "--nolyrics", "qopen=0"]), 9);
    assert!(!s.music.playing);
    assert_eq!(s.music.base_pos, 11_000_000_000);
    assert_eq!(s.music.sampled_at, 7);
    assert_eq!(s.lyrics.note, "no lyrics found");
    assert_eq!(s.lyrics.track_id, s.music.track_id());
    assert!(s.lyrics.lines.is_empty());
    assert!(s.queue.items.is_empty());
    let mut s = base();
    pose(&mut s, &args(&["qopen=mid"]), 9);
    assert_eq!(s.queue.items.len(), 3);
    assert_eq!(s.music.base_pos, 12_300_000_000);
}

#[test]
fn every_frame_is_split_the_same_way() {
    for w in 0u16..260 {
        for (x, y, h) in [(0u16, 0u16, 40u16), (3, 7, 1), (11, 2, 0)] {
            let c = frame_columns(Area { x, y, width: w, height: h });
            let foot = h.min(1);
            let left = ((42 * w as u32 + 50) / 100) as u16;
            assert_eq!(c.footer, Area { x, y: y + h - foot, width: w, height: foot });
            assert_eq!(c.left, Area { x, y, width: left, height: h - foot });
            assert_eq!(c.right, Area { x: x + left, y, width: w - left, height: h - foot });
        }
        let row = Area { x: 5, y: 1, width: w, height: 13 };
        let (player, facts) = now_playing_row(row);
        if w < 64 {
            assert_eq!((player, facts), (row, None));
        } else {
            let p = ((65 * w as u32 + 50) / 100) as u16;
            assert_eq!(player, Area { width: p, ..row });
            assert_eq!(facts, Some(Area { x: 5 + p, width: w - p, ..row }));
        }
    }
}

#[test]
fn every_right_column_is_filled_from_the_top() {
    for height in 0u16..70 {
        for keys in 0u16..40 {
            let column = Area { x: 9, y: 4, width: 30, height };
            for lyrics in [true, false] {
                let r = right_areas(column, lyrics, keys);
                let media: u16 = if lyrics { 22 } else { 13 };
                assert_eq!((r.player.x, r.player.y, r.player.width), (9, 4, 30));
                if height >= media {
                    assert_eq!(r.player.height, 13);
                    let k = keys.min(height - media);
                    let want = Area { y: 4 + media, height: k, ..column };
                    assert_eq!(r.keys, if k >= 3 { Some(want) } else { None });
                } else {
                    assert!(r.player.height <= 13);
                    assert_eq!(r.keys, None);
                }
                if let Some(a) = r.lyrics {
                    assert_eq!(a.y, 4 + r.player.height);
                    assert_eq!(a.height, (height - r.player.height).min(9));
                } else if height < media {
                    assert_eq!(r.player.height, height);
                }
            }
        }
    }
}

#[test]
fn left_slots_adjoin() {
    for seed in 0u32..400 {
        let mut s = seed.wrapping_mul(2_654_435_761);
        let h: Vec<u16> = (0..8)
            .map(|_| {
                s = s.wrapping_mul(1_103_515_245).wrapping_add(12_345);
                (s >> 16) as u16 % 17
            })
            .collect();
        let asked: u16 = h.iter().sum();
        let column = Area { x: 2, y: 3, width: 20, height: (seed % 90) as u16 };
        let r = left_areas(column, &h);
        assert_eq!(r.len(), 8);
        let mut y = 3;
        for (a, n) in r.iter().zip(&h) {
            assert_eq!((a.x, a.y, a.width), (2, y, 20));
            assert!(a.height <= *n);
            if asked <= column.height {
                assert_eq!(a.height, *n);
            }
            y += a.height;
        }
        if asked > column.height {
            assert_eq!(y, 3 + column.height);
        }
    }
}

#[test]
fn rules_are_handed_over_as_they_are() {
    assert_eq!(frame_rules(), vec![Rule::Min(0), Rule::Length(1)]);
    assert_eq!(column_rules(), vec![Rule::Percent(42), Rule::Percent(58)]);
    assert_eq!(player_rules(), vec![Rule::Percent(65), Rule::Percent(35)]);
    assert_eq!(length_rules(&vec![4, 2]), vec![Rule::Length(4), Rule::Length(2)]);
    assert_eq!(right_rules(false, 5), vec![Rule::Length(13), Rule::Max(5), Rule::Min(0)]);
    assert_eq!(right_rules(true, 5)[1], Rule::Length(9));
    let v = vec![area(1, 1), area(2, 2)];
    let c = columns_of(&v, &vec![area(3, 3), area(4, 4)]);
    assert_eq!((c.footer, c.left, c.right), (area(2, 2), area(3, 3), area(4, 4)));
    assert_eq!(player_and_facts(&v), (area(1, 1), Some(area(2, 2))));
}

#[test]
fn more_room_takes_no_rows() {
    let rows = |avail: u16| {
        left_card_heights(avail, &no_messages(), true, &no_messages(), &no_discord(), "")
    };
    for avail in 0u16..90 {
        let (less, more) = (rows(avail), rows(avail + 1));
        assert!(less.iter().zip(&more).all(|(a, b)| a <= b), "{}", avail);
    }
}
