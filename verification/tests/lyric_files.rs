//! Timed lyrics: their files, the cache and the log of misses.

use std::collections::hash_map::DefaultHasher;
use std::hash::{Hash, Hasher};

use overseer::cache::{entry_path, key_of_hash, report_file, report_kind, track_key, Removal};
use overseer::digits::TIME_LIMIT;
use overseer::lrc::{
    cache_load, cache_save, loaded, parse_lrc, parse_stamp, render_lrc, LyricLine, Lyrics, UNTIMED,
};
use overseer::misses::{
    bump_retry, clear_miss, file_body, file_rows, load_misses, log_miss, miss_count, Miss,
};

fn chars(s: &str) -> Vec<char> {
    s.chars().collect()
}

fn line(t: i64, text: &str) -> LyricLine {
    LyricLine { t, text: text.to_string() }
}

fn pairs(lines: &[LyricLine]) -> Vec<(i64, String)> {
    lines.iter().map(|l| (l.t, l.text.clone())).collect()
}

fn lyrics(lines: Vec<LyricLine>, synced: bool) -> Lyrics {
    Lyrics { lines, synced, track_id: "a|b|c".to_string(), note: String::new() }
}

#[test]
fn stamps_are_read_to_the_nanosecond() {
    assert_eq!(parse_stamp(&chars("01:23.45")), Some(83_450_000_000));
    assert_eq!(parse_stamp(&chars(" 00 : 07 ")), Some(7_000_000_000));
    assert_eq!(parse_stamp(&chars("1.5:30")), Some(120_000_000_000));
    assert_eq!(parse_stamp(&chars("00:1e1")), Some(10_000_000_000));
    assert_eq!(parse_stamp(&chars("-1:30")), Some(-30_000_000_000));
}

#[test]
fn tags_that_are_no_stamps_are_ignored() {
    for tag in ["ar:Sade", "offset", "", ":", "00:", "00:x", "length:03:20"] {
        assert_eq!(parse_stamp(&chars(tag)), None, "{}", tag);
    }
}

#[test]
fn far_stamps_stay_in_bounds() {
    let far = parse_stamp(&chars("999999999999:00")).unwrap();
    assert_eq!(far, TIME_LIMIT as i64);
}

#[test]
fn lines_are_sorted_and_keep_their_order_at_equal_times() {
    let got = parse_lrc("[ar:Someone]\n[00:10.00][00:02.00] twice \n[00:02.00]later\nno tag\n[00:05");
    assert_eq!(
        pairs(&got),
        vec![
            (2_000_000_000, "twice".to_string()),
            (2_000_000_000, "later".to_string()),
            (10_000_000_000, "twice".to_string()),
        ]
    );
}

#[test]
fn empty_text_has_no_lines() {
    assert!(parse_lrc("").is_empty());
    assert!(parse_lrc("plain\nwords").is_empty());
}

#[test]
fn files_are_written_in_the_standard_form() {
    let body = render_lrc(&vec![line(83_450_000_000, "hello"), line(0, ""), line(125_000_000, "x")]);
    assert_eq!(body, "[01:23.45]hello\n[00:00.00]\n[00:00.12]x\n");
}

#[test]
fn what_is_saved_is_loaded_again() {
    let ly = lyrics(vec![line(1_000_000_000, "one"), line(61_990_000_000, "two words")], true);
    let body = cache_save(&ly).unwrap();
    let back = cache_load("a|b|c", body.as_bytes()).unwrap();
    assert_eq!(pairs(&back.lines), pairs(&ly.lines));
    assert!(back.synced);
    assert_eq!(back.track_id, "a|b|c");
    assert_eq!(back.note, "");
}

#[test]
fn only_synced_lyrics_are_saved() {
    assert!(cache_save(&lyrics(vec![line(UNTIMED, "plain")], false)).is_none());
    assert!(cache_save(&lyrics(vec![], true)).is_none());
}

#[test]
fn a_broken_file_loads_nothing() {
    assert!(cache_load("a", b"no tags").is_none());
    assert!(loaded("a", "").is_none());
    // Bytes that are no UTF-8 become replacement characters.
    let ly = cache_load("a", b"[00:01.00]caf\xff").unwrap();
    assert_eq!(pairs(&ly.lines), vec![(1_000_000_000, "caf\u{fffd}".to_string())]);
}

#[test]
fn the_active_line_and_how_far_it_is_sung() {
    let ly = lyrics(vec![line(0, "a"), line(4_000_000_000, "b")], true);
    assert!(ly.active(-1).is_none());
    let (i, s) = ly.active(1_000_000_000).unwrap();
    assert_eq!((i, s.num * 4 / s.den), (0, 1));
    let (j, last) = ly.active(6_000_000_000).unwrap();
    assert_eq!((j, last.num * 2 / last.den), (1, 1));
    let (k, done) = ly.active(60_000_000_000).unwrap();
    assert_eq!((k, done.num), (1, done.den));
    let (same, none) = lyrics(vec![line(7, "a"), line(7, "b")], true).active(7).unwrap();
    assert_eq!((same, none.num), (1, 0));
    assert!(Lyrics::empty().active(5).is_none());
}

#[test]
fn keys_are_sixteen_hexadecimal_digits() {
    assert_eq!(key_of_hash(0), "0000000000000000");
    assert_eq!(key_of_hash(0xDEAD_BEEF), "00000000deadbeef");
    assert_eq!(key_of_hash(u64::MAX), "ffffffffffffffff");
}

#[test]
fn a_track_has_one_key() {
    let mut h = DefaultHasher::new();
    "Sade|Smooth Operator|Diamond Life".hash(&mut h);
    let key = track_key("Sade|Smooth Operator|Diamond Life");
    assert_eq!(key, format!("{:016x}", h.finish()));
    assert_ne!(key, track_key("Sade|Smooth Operator|"));
    assert_eq!(entry_path("lyrics", "Sade|Smooth Operator|Diamond Life", "lrc"), format!("lyrics/{key}.lrc"));
}

#[test]
fn clearing_is_reported_kind_by_kind() {
    assert_eq!(report_kind("lyrics", 3, &Removal::Done), "removed lyrics/ (3 entries)");
    assert_eq!(report_kind("facts", 0, &Removal::Missing), "facts/ (empty)");
    assert_eq!(report_kind("art", 0, &Removal::Failed("denied".to_string())), "art/ — error: denied");
    assert_eq!(report_file("misses.jsonl", &Removal::Done), "removed misses.jsonl");
    assert_eq!(report_file("misses.jsonl", &Removal::Missing), "misses.jsonl (empty)");
    assert_eq!(report_file("misses.jsonl", &Removal::Failed("busy".to_string())), "misses.jsonl — error: busy");
}

fn miss(id: &str, ts: i64, retries: u32) -> Miss {
    Miss {
        track_id: id.to_string(),
        artist: "A".to_string(),
        track: "T".to_string(),
        album: "L".to_string(),
        ts,
        tried: "lrclib,netease".to_string(),
        retries,
    }
}

fn ids(rows: &[Miss]) -> Vec<(String, i64, u32)> {
    rows.iter().map(|m| (m.track_id.clone(), m.ts, m.retries)).collect()
}

#[test]
fn the_last_row_of_a_track_wins_at_its_first_place() {
    let rows = vec![miss("a", 1, 0), miss("b", 2, 0), miss("a", 3, 5)];
    let got = load_misses(&rows);
    assert_eq!(ids(&got), vec![("a".to_string(), 3, 5), ("b".to_string(), 2, 0)]);
    assert_eq!(miss_count(&rows), 2);
}

#[test]
fn a_miss_logged_again_keeps_its_retries() {
    let rows = vec![miss("a", 1, 4)];
    let m = log_miss(&rows, "A", "T", "L", "a", "lrclib,netease", 99);
    assert_eq!((m.ts, m.retries, m.tried.as_str()), (99, 4, "lrclib,netease"));
    assert_eq!(log_miss(&rows, "A", "T", "L", "new", "x", 99).retries, 0);
}

#[test]
fn a_resolved_track_leaves_the_log() {
    let rows = vec![miss("a", 1, 0), miss("b", 2, 0), miss("a", 3, 0)];
    assert_eq!(ids(&clear_miss(&rows, "a").unwrap()), vec![("b".to_string(), 2, 0)]);
    assert!(clear_miss(&rows, "zzz").is_none());
}

#[test]
fn a_retry_is_counted_and_stops_at_the_top() {
    let rows = vec![miss("a", 1, u32::MAX), miss("b", 2, 7)];
    assert_eq!(ids(&bump_retry(&rows, "a", 50).unwrap())[0], ("a".to_string(), 50, u32::MAX));
    assert_eq!(ids(&bump_retry(&rows, "b", 50).unwrap())[1], ("b".to_string(), 50, 8));
    assert!(bump_retry(&rows, "c", 50).is_none());
}

#[test]
fn the_log_is_a_file_of_lines() {
    assert_eq!(file_rows("{1}\n\n  \n{2}\r\n"), vec!["{1}", "{2}"]);
    let rows = vec!["{1}".to_string(), "{2}".to_string()];
    assert_eq!(file_body(&rows), "{1}\n{2}\n");
    assert_eq!(file_body(&vec![]), "");
    assert_eq!(file_rows(&file_body(&rows)), rows);
}
