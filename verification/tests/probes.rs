//! What the probes of the machine print and how it is read.

use overseer::art::{art_of, decode_art, ART_THUMB};
use overseer::digits::TIME_LIMIT;
use overseer::format::SECOND;
use overseer::git::{
    base_name, beyond, can_count, gh_pr_count, is_base, loc_counts, no_repo, printed, read_branch, read_count, scan_git,
    tree_counts, Printed,
};
use overseer::imessage::{
    applescript_escape, decode_attributed_body, find_subseq, is_denied, longest_printable_run,
    pretty_handle, printable_run, read_messages, read_rows, send_imessage, smart_preview, summarize,
    summary_prompt, unread_count, wants_summary,
};
use overseer::json::Json;
use overseer::lrc::Share;
use overseer::music::{
    artwork_script, follow, get, loading_lyrics, new_track, no_art, probe_music, read_answer,
    read_now_playing, read_time, script_ok, Answer, Poll,
};
use overseer::processes::busiest;
use overseer::silicon::{read_line, silicon_of};
use overseer::state::MusicStats;
use overseer::usage::{
    may_hold_rows, prices_of, pricing, read_row, row_of_line, short_model, shorten_model, Moment,
    Row, UsageScan,
};
use overseer::voice::{
    discord_pids, read_pids, same_set, tap_action, Latch, TapAction, VOICE_HANG,
};
use overseer::weather_report::{
    fmt_clock12_to_24, icon_of, read_weather, report_url, to_24, weather_icon,
};

fn chars(s: &str) -> Vec<char> {
    s.chars().collect()
}

fn some(s: &str) -> Option<String> {
    Some(s.to_string())
}

fn poll(track: &str, playing: bool, position: i64) -> Poll {
    Poll {
        playing,
        track: track.to_string(),
        artist: "A".to_string(),
        album: "L".to_string(),
        duration: 200 * SECOND as i64,
        position,
    }
}

#[test]
fn the_player_answers_with_fields() {
    assert_eq!(read_answer(" NOTRUNNING\n"), Answer::NotRunning);
    assert_eq!(read_answer("STOPPED"), Answer::Stopped);
    assert_eq!(read_answer("  "), Answer::Stopped);
    assert_eq!(read_answer("playing\tT\tA"), Answer::Garbled);
    assert_eq!(
        read_answer("Playing\tT\tA\tL\t200\t12.5\n"),
        Answer::Track(poll("T", true, 12_500_000_000))
    );
    assert_eq!(probe_music(b"paused\tT\tA\tL\t200\tx"), Answer::Track(poll("T", false, 0)));
    match probe_music(b"paused\tT\xff\tA\tL\t200\t0") {
        Answer::Track(p) => assert_eq!(p.track, "T\u{fffd}"),
        _ => panic!("a track is answered"),
    }
    assert_eq!(read_time(&chars("1e99")), TIME_LIMIT as i64);
}

#[test]
fn the_clock_snaps_to_a_seek_and_eases_a_drift() {
    let mut m = MusicStats::new(0);
    follow(&mut m, Answer::Track(poll("T", true, 10_000_000_000)), 0);
    assert_eq!((m.running, m.playing, m.polled, m.base_pos), (true, true, true, 10_000_000_000));
    // One second later the player is 0.4 s ahead: a quarter of it is made good.
    follow(&mut m, Answer::Track(poll("T", true, 11_400_000_000)), SECOND);
    assert_eq!((m.base_pos, m.sampled_at), (11_100_000_000, SECOND));
    // A jump of more than a second and a half is a seek.
    follow(&mut m, Answer::Track(poll("T", true, 90_000_000_000)), SECOND);
    assert_eq!(m.base_pos, 90_000_000_000);
    // Another track, a pause and a restart are taken as they are.
    follow(&mut m, Answer::Track(poll("U", true, 89_000_000_000)), SECOND);
    assert_eq!(m.base_pos, 89_000_000_000);
    follow(&mut m, Answer::Track(poll("U", false, 89_500_000_000)), SECOND);
    assert_eq!((m.playing, m.base_pos), (false, 89_500_000_000));
    follow(&mut m, Answer::NotRunning, SECOND);
    assert_eq!((m.running, m.playing), (false, false));
    follow(&mut m, Answer::Stopped, SECOND);
    assert_eq!((m.running, m.playing, m.track.as_str()), (true, false, "U"));
}

#[test]
fn a_clock_that_agrees_is_left_alone() {
    let mut m = MusicStats::new(0);
    follow(&mut m, Answer::Track(poll("T", true, 0)), 0);
    follow(&mut m, Answer::Track(poll("T", true, 2_000_000_000)), 2 * SECOND);
    assert_eq!(m.base_pos, 2_000_000_000);
    assert_eq!(m.position(5 * SECOND), 5_000_000_000);
}

#[test]
fn a_new_track_is_noticed_once() {
    let mut m = MusicStats::new(0);
    assert_eq!(new_track(&m, ""), None);
    follow(&mut m, Answer::Track(poll("T", true, 0)), 0);
    assert_eq!(new_track(&m, ""), some("A|T|L"));
    assert_eq!(new_track(&m, "A|T|L"), None);
    let ly = loading_lyrics("A|T|L");
    assert_eq!((ly.track_id.as_str(), ly.note.as_str(), ly.synced), ("A|T|L", "loading lyrics…", false));
    let art = no_art("A|T|L");
    assert_eq!((art.track_id.as_str(), art.w, art.px.len()), ("A|T|L", 0, 0));
}

#[test]
fn the_artwork_script_writes_to_the_path() {
    let script = artwork_script("/tmp/x.dat");
    assert!(script.contains("POSIX file \"/tmp/x.dat\""));
    assert!(script.contains("return \"OK\""));
    assert!(script_ok(b" OK\n") && !script_ok(b"NOART"));
}

#[test]
fn what_the_system_plays_is_the_last_line() {
    let np = get(b"noise\n1\t1\tFilm\t\t\t7200.5\t60\n").unwrap();
    assert!(np.playing && np.is_video);
    assert_eq!((np.title.as_str(), np.duration, np.elapsed), ("Film", 7_200_500_000_000, 60_000_000_000));
    assert!(read_now_playing("NONE").is_none());
    assert!(read_now_playing("").is_none());
    assert!(read_now_playing("1\t1\tFilm").is_none());
    assert!(read_now_playing("1\t0\t\t\t\t0\t5").is_none());
    assert!(read_now_playing("0\t0\t\t\t\t1\t5").is_some());
}

#[test]
fn a_picture_becomes_a_square_of_colours() {
    // A red picture of one pixel.
    let mut png: Vec<u8> = Vec::new();
    let img = image::RgbImage::from_pixel(1, 1, image::Rgb([250, 10, 20]));
    img.write_to(&mut std::io::Cursor::new(&mut png), image::ImageFormat::Png).unwrap();
    let art = decode_art(&png, "id");
    assert_eq!((art.w, art.h, art.px.len()), (64, 64, 4096));
    assert_eq!(art.track_id, "id");
    assert!(art.px.iter().all(|p| *p == [250, 10, 20]));
    assert_eq!(ART_THUMB, 64);
    let none = decode_art(b"no picture", "id");
    assert_eq!((none.w, none.h, none.px.len()), (0, 0, 0));
}

#[test]
fn a_cover_is_decoded_by_its_first_bytes() {
    let wide = image::RgbImage::from_fn(2, 1, |x, _| if x == 0 { image::Rgb([0, 0, 0]) } else { image::Rgb([255, 255, 255]) });
    let mut png: Vec<u8> = Vec::new();
    wide.write_to(&mut std::io::Cursor::new(&mut png), image::ImageFormat::Png).unwrap();
    let art = decode_art(&png, "wide");
    assert_eq!((art.px[0], art.px[63], art.px[64]), ([0, 0, 0], [255, 255, 255], [0, 0, 0]));
    let photo = image::RgbImage::from_fn(96, 80, |x, y| image::Rgb([2 * x as u8, 3 * y as u8, 90]));
    let mut jpeg: Vec<u8> = Vec::new();
    photo.write_to(&mut std::io::Cursor::new(&mut jpeg), image::ImageFormat::Jpeg).unwrap();
    let art = decode_art(&jpeg, "photo");
    let small = image::load_from_memory(&jpeg)
        .unwrap()
        .resize_exact(64, 64, image::imageops::FilterType::Triangle)
        .to_rgb8();
    assert_eq!((art.w, art.h, art.track_id.as_str()), (64, 64, "photo"));
    assert!(art.px.iter().zip(small.pixels()).all(|(a, b)| *a == b.0));
    // What is left of a picture that was cut off is no picture.
    assert!(decode_art(&png[..png.len() / 2], "cut").px.is_empty());
    assert!(decode_art(&[], "none").px.is_empty());
}

#[test]
fn pictures_are_sampled_by_shares() {
    let mut px: Vec<[u8; 3]> = vec![[0, 0, 0]; 4096];
    px[0] = [9, 9, 9];
    px[4095] = [7, 7, 7];
    let art = art_of("id", Some(px));
    let s = |num: u64, den: u64| Share { num, den };
    assert_eq!(art.sample(s(0, 1), s(0, 1)), Some([9, 9, 9]));
    assert_eq!(art.sample(s(1, 1), s(1, 1)), Some([7, 7, 7]));
    assert_eq!(art.sample(s(1, 2), s(1, 2)), Some([0, 0, 0]));
    assert_eq!(no_art("id").sample(s(0, 1), s(0, 1)), None);
}

#[test]
fn branches_are_read_between_separators() {
    let b = read_branch("main\u{1f}abc123\u{1f}Fix: a | b\u{1f} 2 hours ago").unwrap();
    assert_eq!(
        (b.name.as_str(), b.hash.as_str(), b.subject.as_str(), b.age.as_str()),
        ("main", "abc123", "Fix: a | b", "2 hours ago")
    );
    assert!(read_branch("  ").is_none());
    assert_eq!(read_branch("solo").unwrap().hash, "");
}

#[test]
fn trees_and_lines_are_counted() {
    assert_eq!(tree_counts("?? new\n M edited\nA  added\nMM both\n"), (4, 1, 2));
    assert_eq!(tree_counts(""), (0, 0, 0));
    assert_eq!(loc_counts("10\t2\ta.rs\n-\t-\tpic.png\n3\t0\tb.rs"), (13, 2));
    assert_eq!(read_count(" 7"), 7);
    assert_eq!(read_count("seven"), 0);
    assert_eq!(gh_pr_count(b" 12\n"), Some(12));
    assert_eq!(gh_pr_count(b"error"), None);
    assert_eq!(printed(b" text \n"), "text");
    assert_eq!(beyond("origin/main", false), "origin/main..HEAD");
    assert_eq!(beyond("main", true), "main...HEAD");
}

#[test]
fn a_repository_has_a_pulse() {
    let p = Printed {
        heads: some("feat\u{1f}abc\u{1f}msg\u{1f}1 day ago"),
        today: some("3"),
        status: some("?? x"),
        ahead: some("5"),
        merges: None,
        numstat: some("1\t2\tf"),
        prs: Some(4),
    };
    let g = scan_git("station", &p);
    assert!(g.fresh && g.ok);
    assert_eq!((g.repo.as_str(), g.branch.as_str(), g.last_hash.as_str()), ("station", "feat", "abc"));
    assert_eq!((g.commits_today, g.dirty, g.untracked, g.staged), (3, 1, 1, 0));
    assert_eq!((g.branch_commits, g.merges_main, g.loc_added, g.loc_removed, g.pr_count), (5, 0, 1, 2, 4));
    let none = no_repo();
    assert!(none.fresh && !none.ok);
}

#[test]
fn clocks_of_twelve_hours_become_clocks_of_twenty_four() {
    assert_eq!(fmt_clock12_to_24(" 06:21 AM "), "06:21");
    assert_eq!(fmt_clock12_to_24("08:14 pm"), "20:14");
    assert_eq!(fmt_clock12_to_24("12:05 AM"), "00:05");
    assert_eq!(fmt_clock12_to_24("12:05 PM"), "12:05");
    assert_eq!(fmt_clock12_to_24("noon"), "noon");
    assert_eq!(fmt_clock12_to_24("No moonrise"), "No moonrise");
    assert_eq!(to_24("07:30", "PM", "07:30 PM"), "19:30");
}

#[test]
fn weather_has_an_icon() {
    for (d, icon) in [
        ("Thundery outbreaks", "⛈"),
        ("Light SNOW", "❄"),
        ("Patchy rain nearby", "🌧"),
        ("Mist", "🌫"),
        ("Overcast", "☁"),
        ("Partly cloudy", "⛅"),
        ("Sunny", "☀"),
        ("Ash", "🌡"),
    ] {
        assert_eq!(weather_icon(d), icon);
        assert_eq!(icon_of(&d.to_lowercase()), icon);
    }
}

#[test]
fn a_report_is_read_whole() {
    let body = "{\"current_condition\":[{\"temp_F\":\"71\",\"FeelsLikeF\":\"69\",\"humidity\":\"40\",\
        \"windspeedMiles\":\"5\",\"winddir16Point\":\"NNW\",\"uvIndex\":\"3\",\"pressure\":\"1015\",\
        \"weatherDesc\":[{\"value\":\"Sunny\"}]}],\
        \"weather\":[{\"maxtempF\":\"80\",\"mintempF\":\"60\",\
        \"astronomy\":[{\"sunrise\":\"06:21 AM\",\"sunset\":\"08:14 PM\"}],\
        \"hourly\":[{\"tempF\":\"65\",\"chanceofrain\":\"10\"},{\"tempF\":\"-3\",\"chanceofrain\":\"35\"},{\"tempF\":\"x\"}]},\
        {\"hourly\":[{\"tempF\":\"70\"}]},{\"hourly\":[{\"tempF\":\"99\"}]}]}";
    let w = read_weather(body).unwrap();
    assert!(w.fresh);
    assert_eq!((w.temp_f, w.feels_f, w.hi_f, w.lo_f, w.humidity), (71, 69, 80, 60, 40));
    assert_eq!((w.wind_mph, w.wind_dir.as_str(), w.uv, w.pressure_mb, w.precip_chance), (5, "NNW", 3, 1015, 35));
    assert_eq!((w.sunrise.as_str(), w.sunset.as_str(), w.icon.as_str()), ("06:21", "20:14", "☀"));
    assert_eq!(w.temp_strip, vec![65, 0, 70]);
    assert_eq!(w.location, "Fond du Lac, WI");
    assert!(read_weather("{}").is_none());
    assert!(read_weather("nothing").is_none());
    assert_eq!(report_url(), "https://wttr.in/43.7730,-88.4471?format=j1");
}

#[test]
fn models_have_prices_and_short_names() {
    assert_eq!(pricing("OPUS-4"), (500, 2500, 50, 625));
    assert_eq!(prices_of("haiku"), (100, 500, 10, 125));
    assert_eq!(pricing("gpt"), (300, 1500, 30, 375));
    assert_eq!(short_model("SONNET-4"), "Sonnet");
    assert_eq!(short_model("other"), "other");
    assert_eq!(shorten_model("X", "a haiku"), "Haiku");
}

fn row(request: &str, secs: i64) -> Row {
    Row {
        request: some(request),
        at: Some((secs, 0)),
        model: "opus-4".to_string(),
        input: 1_000_000,
        output: 0,
        cache_read: 0,
        cache_write: 0,
        session: some("s1"),
    }
}

#[test]
fn transcript_lines_become_rows() {
    let line = "{\"requestId\":\"r1\",\"sessionId\":\"s\",\"timestamp\":\"2026-06-01T12:00:00.5Z\",\
        \"message\":{\"id\":\"m\",\"model\":\"opus-4\",\"usage\":{\"input_tokens\":3,\"output_tokens\":4,\
        \"cache_read_input_tokens\":5,\"cache_creation_input_tokens\":6}}}";
    let r = row_of_line(line).unwrap();
    assert_eq!((r.input, r.output, r.cache_read, r.cache_write), (3, 4, 5, 6));
    assert_eq!((r.request.as_deref(), r.session.as_deref(), r.model.as_str()), (Some("r1"), Some("s"), "opus-4"));
    assert_eq!(r.at, Some((1_780_315_200, 500_000_000)));
    let bare = row_of_line("{\"usage\":{\"input_tokens\":-1},\"message\":{\"id\":\"m\"},\"timestamp\":\"junk\"}").unwrap();
    assert_eq!((bare.request.as_deref(), bare.at, bare.input, bare.model.as_str()), (Some("m"), None, 0, "unknown"));
    assert!(row_of_line("{\"message\":{}}").is_none());
    assert!(row_of_line("\"usage\" but no document").is_none());
    assert!(read_row(&Json::Null).is_none());
}

#[test]
fn rows_are_counted_once_and_by_window() {
    let noon = 1_780_315_200i64;
    let now = Moment { secs: noon, nanos: 0, offset: 0 };
    let mut scan = UsageScan::new();
    scan.add_row(&row("a", noon - 3_600), now, 0);
    scan.add_row(&row("a", noon - 3_600), now, 0);
    scan.add_row(&row("b", noon - 3 * 86_400), now, 0);
    scan.add_row(&row("c", noon - 20 * 86_400), now, 0);
    scan.add_row(&row("d", noon - 31 * 86_400), now, 0);
    let st = scan.finish();
    assert!(st.fresh);
    assert_eq!((st.today_input, st.today_messages), (1_000_000, 1));
    assert_eq!((st.tokens_7d, st.tokens_30d), (2_000_000, 3_000_000));
    assert_eq!((st.sessions_today, st.sessions_30d), (1, 1));
    assert_eq!(st.top_model, "Opus");
    // Five dollars, counted in cents a million tokens.
    assert_eq!(st.today_cost, 500 * 1_000_000);
    assert_eq!(st.hourly.len(), 24);
    assert_eq!(st.hourly[11], 1_000_000);
    let local = {
        let mut s = UsageScan::new();
        s.add_row(&row("a", noon - 3_600), now, -3_600);
        s.finish()
    };
    assert_eq!(local.hourly[10], 1_000_000);
    assert!(may_hold_rows(noon - 31 * 86_400, noon));
    assert!(!may_hold_rows(noon - 31 * 86_400 - 1, noon));
}

fn hex(bytes: &[u8]) -> String {
    let mut s = String::from("X'");
    for b in bytes {
        s.push_str(&format!("{b:02X}"));
    }
    s.push('\'');
    s
}

#[test]
fn bodies_are_found_in_their_blobs() {
    let mut blob: Vec<u8> = b"streamtyped longer than the body NSString\x01\x94".to_vec();
    blob.extend("+caf\u{e9} at 8?".as_bytes());
    blob.extend([0x86, 0x84]);
    assert_eq!(decode_attributed_body(&chars(&hex(&blob))), some("+café at 8?"));
    assert_eq!(decode_attributed_body(&chars("x'6869'")), some("hi"));
    assert_eq!(decode_attributed_body(&chars("X'68'")), None);
    assert_eq!(decode_attributed_body(&chars("X'686'")), None);
    assert_eq!(decode_attributed_body(&chars("X'68zz'")), None);
    assert_eq!(decode_attributed_body(&chars("6869")), None);
    assert_eq!(longest_printable_run(b"ab\x00 abcd \x01abc"), some("abcd"));
    assert_eq!(longest_printable_run(b"\x00\x01"), None);
    assert_eq!(printable_run(&chars("  \u{1}")), None);
    assert_eq!(find_subseq(b"abcabc", b"ca"), Some(2));
    assert_eq!(find_subseq(b"abc", b""), None);
    assert_eq!(find_subseq(b"a", b"ab"), None);
}

#[test]
fn handles_and_previews_are_made_readable() {
    assert_eq!(pretty_handle(&chars("")), "Unknown");
    assert_eq!(pretty_handle(&chars("ann@example.com")), "ann");
    assert_eq!(pretty_handle(&chars("+15551234")), "1234");
    assert_eq!(pretty_handle(&chars("+15555550111")), "0111");
    assert_eq!(pretty_handle(&chars("22395")), "2395");
    assert_eq!(pretty_handle(&chars("+1234")), "+1234");
    assert_eq!(pretty_handle(&chars("Harbor 12345")), "Harbor 12345");
    assert_eq!(smart_preview(" a\nb\t\tc ", 10), "a b c");
    assert_eq!(smart_preview("abcdef", 4), "abc…");
    assert_eq!(smart_preview("abcdef", 0), "…");
}

#[test]
fn rows_of_messages_are_read() {
    let now = 1_000 * SECOND as i64;
    let body = "7\t940.5\t0\tann@x.y\thello there\t\n\
        8\t0\t1\t\t \tX'6869'\n\
        9\t0\tx\t+1\t\t\n\
        short\trow";
    let items = read_rows(body, now);
    assert_eq!(items.len(), 3);
    let m = &items[0];
    assert_eq!((m.rowid, m.sender.as_str(), m.handle.as_str(), m.rel.as_str()), (7, "ann", "ann@x.y", "1m"));
    assert_eq!((m.full_text.as_str(), m.preview.as_str(), m.unread, m.is_rich), ("hello there", "hello there", true, false));
    assert_eq!((items[1].sender.as_str(), items[1].full_text.as_str(), items[1].unread), ("Unknown", "hi", false));
    assert_eq!((items[2].full_text.as_str(), items[2].is_rich, items[2].unread), ("[rich message]", true, false));
    let bytes = read_messages(b"7\t940.5\t0\ta\tx\xff\t\n", now);
    assert_eq!(bytes[0].full_text, "x\u{fffd}");
    assert_eq!(unread_count(Some(9), &items), 9);
    assert_eq!(unread_count(None, &items), 1);
    assert!(is_denied(b"Error: authorization denied"));
    assert!(is_denied(b"unable to open database"));
    assert!(!is_denied(b""));
}

#[test]
fn long_messages_are_summarised() {
    let now = 0;
    let long = "w".repeat(97);
    let items = read_rows(&format!("1\t0\t0\ta\t{long}\t\n2\t0\t0\ta\tshort\t\n3\t0\t0\ta\t\t\n"), now);
    assert!(wants_summary(&items[0]));
    assert!(!wants_summary(&items[1]) && !wants_summary(&items[2]));
    assert_eq!(
        summary_prompt("hey"),
        "Summarize this text message in 8 words or fewer, no quotes, no preamble:\n\nhey"
    );
    assert_eq!(summarize("{\"content\":[{\"text\":\" \\\"Lunch at noon\\\" \"}]}"), some("Lunch at noon"));
    assert_eq!(summarize("{\"content\":[{\"text\":\"\\\"\\\"\"}]}"), None);
    assert_eq!(summarize("{\"content\":[]}"), None);
    assert_eq!(summarize("down"), None);
}

#[test]
fn replies_are_escaped() {
    assert_eq!(applescript_escape("a\"b\\c"), "a\\\"b\\\\c");
    let script = send_imessage("+1", "say \"hi\"");
    assert!(script.contains("participant \"+1\" of targetService"));
    assert!(script.contains("send \"say \\\"hi\\\"\" to targetBuddy"));
}

#[test]
fn the_chip_reports_shares_and_powers() {
    let line = "{\"cpu_usage_pct\":0.5,\"gpu_usage\":[1398,0.25],\"all_power\":12.5,\"temp\":{\"cpu_temp_avg\":61.5}}";
    let s = read_line(line).unwrap();
    assert_eq!(s.gpu_freq_mhz, 1398);
    assert_eq!((s.cpu_pct, s.gpu_pct), (50_000_000_000, 25_000_000_000));
    assert_eq!((s.all_power, s.cpu_power), (12_500_000_000, 0));
    assert_eq!(s.temps, Some((61_500_000_000, 0)));
    assert!(read_line("noise").is_none());
    assert_eq!(silicon_of(&Json::Null).temps, None);
}

#[test]
fn a_voice_is_heard_at_once_and_fades_late() {
    let mut l = Latch::new();
    assert_eq!(l.hear(false, 0), None);
    assert_eq!(l.hear(true, 100), Some(true));
    assert_eq!(l.hear(true, 200), None);
    assert_eq!(l.hear(false, 200 + VOICE_HANG - 1), None);
    assert!(l.speaking);
    assert_eq!(l.hear(false, 200 + VOICE_HANG + 1), Some(false));
    assert!(!l.speaking);
}

#[test]
fn the_tap_follows_the_processes() {
    assert!(same_set(&vec![1, 2], &vec![2, 1]));
    assert!(!same_set(&vec![1, 2], &vec![1]));
    assert_eq!(tap_action(&vec![], true, &vec![1]), TapAction::Stop);
    assert_eq!(tap_action(&vec![], false, &vec![]), TapAction::Keep);
    assert_eq!(tap_action(&vec![1], false, &vec![]), TapAction::Start);
    assert_eq!(tap_action(&vec![1], true, &vec![1]), TapAction::Keep);
    assert_eq!(tap_action(&vec![1, 2], true, &vec![1]), TapAction::Start);
    assert_eq!(read_pids("12\n x\n 7 \n-1\n"), vec![12, 7]);
    assert_eq!(discord_pids(b"5\n6\n"), vec![5, 6]);
}

#[test]
fn the_main_line_has_four_names() {
    let names: Vec<String> = (0..9).map_while(base_name).collect();
    assert_eq!(names, ["origin/main", "origin/master", "main", "master"]);
    assert!(is_base(&Some("9a554a6".to_string())));
    assert!(!is_base(&Some(" \n".to_string())));
    assert!(!is_base(&None));
}

#[test]
fn counts_must_fit() {
    let with = |numstat: &str| Printed {
        heads: None,
        today: None,
        status: Some("?? a\n M b".to_string()),
        ahead: None,
        merges: None,
        numstat: Some(numstat.to_string()),
        prs: None,
    };
    assert!(can_count(&with("4294967294\t1\ta\n1\t2\tb")));
    assert!(!can_count(&with("4294967295\t1\ta\n1\t2\tb")));
    assert!(!can_count(&with("1\t4294967295\ta\n1\t2\tb")));
    assert!(can_count(&with("-\t-\tbinary")));
}

#[test]
fn the_busiest_processes_come_first() {
    assert_eq!(busiest(&vec![]), Vec::<usize>::new());
    assert_eq!(busiest(&vec![3, 9, 3]), vec![1, 0, 2]);
    assert_eq!(busiest(&vec![1, 2, 3, 4, 5, 6, 7, 8]), vec![7, 6, 5, 4, 3, 2]);
    assert_eq!(busiest(&vec![5, 5, 5, 5, 5, 5, 5, 9]), vec![7, 0, 1, 2, 3, 4]);
}

#[test]
fn usage_adds_up() {
    let noon = 1_780_315_200i64;
    let now = Moment { secs: noon, nanos: 0, offset: 0 };
    let mut scan = UsageScan::new();
    for k in 0..60i64 {
        scan.add_row(&row(&format!("r{}", k % 50), noon - k * 40_000), now, 0);
    }
    let st = scan.finish();
    let today = st.today_input + st.today_output + st.today_cache_read + st.today_cache_write;
    assert!(today > 0 && today <= st.tokens_7d && st.tokens_7d <= st.tokens_30d);
    assert_eq!(st.hourly.iter().sum::<u64>(), today);
    assert!(st.sessions_today <= st.sessions_30d);
}
