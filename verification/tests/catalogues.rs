//! What the lyric services are asked and what is made of their answers.

use overseer::catalogue::{
    artist_agrees, is_credit_line, is_instrumental, lyric_of, lyric_reply, netease_plain,
    netease_synced, plain_from, rank_search, record_reply, score_result, score_song, search_reply,
    song_reply, strip_lrc_metadata, synced_from, weigh, Weighed, WRONG_ARTIST,
};
use overseer::fetching::{after_plain, after_synced, hear, start, Listening, MissNote, Report, Step};
use overseer::json::Json;
use overseer::lrc::{LyricLine, UNTIMED};
use overseer::lyrics::{
    get_params, get_variants, questions_for, search_attempts, search_params, song_lyric_url,
    song_search_url, urlencode,
};

fn text(s: &str) -> Json {
    Json::Text(s.to_string())
}

fn fields(list: Vec<(&str, Json)>) -> Json {
    Json::Fields(list.into_iter().map(|(k, v)| (k.to_string(), v)).collect())
}

fn number(s: &str) -> Json {
    Json::Number(s.to_string())
}

fn words(lines: &[LyricLine]) -> Vec<String> {
    lines.iter().map(|l| l.text.clone()).collect()
}

fn owned(list: &[(&str, &str, &str)]) -> Vec<(String, String, String)> {
    list.iter().map(|t| (t.0.to_string(), t.1.to_string(), t.2.to_string())).collect()
}

fn owned2(list: &[(&str, &str)]) -> Vec<(String, String)> {
    list.iter().map(|t| (t.0.to_string(), t.1.to_string())).collect()
}

#[test]
fn queries_are_percent_encoded_byte_by_byte() {
    assert_eq!(urlencode("Clipse MTBTTF"), "Clipse%20MTBTTF");
    assert_eq!(urlencode("a-b_c.d~9"), "a-b_c.d~9");
    assert_eq!(urlencode("é&"), "%C3%A9%26");
}

#[test]
fn the_same_variant_is_asked_once() {
    assert_eq!(
        get_variants("A & B", "T (feat. C)", "L - Deluxe", "A", "T", "L"),
        owned(&[
            ("A & B", "T (feat. C)", "L - Deluxe"),
            ("A", "T", ""),
            ("A", "T", "L"),
            ("A & B", "T", ""),
        ])
    );
    assert_eq!(get_variants("A", "T", "", "A", "T", ""), owned(&[("A", "T", "")]));
}

#[test]
fn questions_come_from_the_raw_names() {
    let q = questions_for("Kanye West & Lauryn Hill", "Song (feat. X)", "BULLY - DELUXE");
    assert_eq!(
        q,
        owned(&[
            ("Kanye West & Lauryn Hill", "Song (feat. X)", "BULLY - DELUXE"),
            ("Kanye West", "Song", ""),
            ("Kanye West", "Song", "BULLY"),
            ("Kanye West & Lauryn Hill", "Song", ""),
        ])
    );
}

#[test]
fn a_lookup_names_the_album_only_when_there_is_one() {
    assert_eq!(
        get_params("A", "T", "L", 190_500_000_000),
        owned2(&[("artist_name", "A"), ("track_name", "T"), ("duration", "191"), ("album_name", "L")])
    );
    assert_eq!(
        get_params("A", "T", "", 190_499_999_999),
        owned2(&[("artist_name", "A"), ("track_name", "T"), ("duration", "190")])
    );
    assert_eq!(get_params("A", "T", "", -2_500_000_000)[2].1, "-3");
}

#[test]
fn a_search_goes_from_narrow_to_broad() {
    assert_eq!(search_attempts("T", "A"), owned2(&[("T", "A"), ("T", "")]));
    assert_eq!(search_attempts("T", ""), owned2(&[("T", "")]));
    assert_eq!(search_params("A", "T"), owned2(&[("track_name", "T"), ("artist_name", "A")]));
    assert_eq!(search_params("", "T"), owned2(&[("track_name", "T")]));
}

#[test]
fn addresses_of_the_backup_service() {
    assert_eq!(
        song_search_url("Clipse", "MTBTTF"),
        "https://music.163.com/api/search/get?s=Clipse%20MTBTTF&type=1&limit=8"
    );
    assert_eq!(song_lyric_url(-7), "https://music.163.com/api/song/lyric?id=-7&lv=1&kv=1&tv=-1");
}

#[test]
fn a_record_is_synced_plain_or_instrumental() {
    let synced = fields(vec![("syncedLyrics", text("[00:01.00]hi"))]);
    assert_eq!(words(&synced_from(&synced).unwrap()), vec!["hi"]);
    assert!(synced_from(&fields(vec![("syncedLyrics", text("  "))])).is_none());
    assert!(synced_from(&fields(vec![("syncedLyrics", text("no tags"))])).is_none());
    assert!(is_instrumental(&fields(vec![("instrumental", Json::Bool(true))])));
    assert!(!is_instrumental(&fields(vec![("instrumental", text("true"))])));
    let plain = plain_from(&fields(vec![("plainLyrics", text(" one \n two"))])).unwrap();
    assert_eq!(words(&plain), vec!["one", "two"]);
    assert!(plain.iter().all(|l| l.t == UNTIMED));
    assert!(plain_from(&fields(vec![("plainLyrics", text(" \n"))])).is_none());
}

#[test]
fn replies_are_parsed_from_text() {
    let v = record_reply("{\"instrumental\": true}").unwrap();
    assert!(is_instrumental(&v));
    assert!(record_reply("not json").is_none());
    let body = "[{\"syncedLyrics\":\"[00:02.00]x\",\"artistName\":\"SADE\",\"duration\":100.5}]";
    assert_eq!(words(&search_reply(body, "Sade", 100_000_000_000).unwrap()), vec!["x"]);
    assert!(search_reply("{}", "Sade", 0).is_none());
    assert!(search_reply("[]", "Sade", 0).is_none());
}

#[test]
fn the_first_useful_record_is_taken() {
    let plain = fields(vec![("plainLyrics", text("p"))]);
    match weigh(None, Some(plain)) {
        Weighed::Ask(Some(kept)) => {
            let synced = fields(vec![("syncedLyrics", text("[00:01.00]hi"))]);
            assert!(matches!(weigh(Some(kept), Some(synced)), Weighed::Take(_)));
        }
        _ => panic!("a plain record is only kept"),
    }
    assert!(matches!(weigh(None, None), Weighed::Ask(None)));
}

#[test]
fn artists_agree_when_one_name_holds_the_other() {
    assert!(artist_agrees("", "anyone"));
    assert!(artist_agrees("sade", "sade adu"));
    assert!(artist_agrees("sade adu", "sade"));
    assert!(!artist_agrees("sade", "prince"));
}

#[test]
fn the_right_artist_beats_the_closer_length() {
    let cover = fields(vec![
        ("syncedLyrics", text("[00:01.00]cover")),
        ("artistName", text("Other")),
        ("duration", number("100")),
    ]);
    let real = fields(vec![
        ("syncedLyrics", text("[00:01.00]real")),
        ("artistName", text("Sade")),
        ("duration", number("130.25")),
    ]);
    assert_eq!(score_result(&cover, "sade", 100_000_000_000), Some(WRONG_ARTIST));
    assert_eq!(score_result(&real, "sade", 100_000_000_000), Some(30_250_000_000_000));
    let list = Json::List(vec![cover, real]);
    assert_eq!(words(&rank_search(&list, "sade", 100_000_000_000).unwrap()), vec!["real"]);
}

#[test]
fn the_earlier_of_equal_results_stays() {
    let result = |w: &str| fields(vec![("syncedLyrics", text(w)), ("artistName", text("a"))]);
    let list = Json::List(vec![result("[00:01]first"), result("[00:01]second")]);
    assert_eq!(words(&rank_search(&list, "a", 0).unwrap()), vec!["first"]);
    assert_eq!(score_result(&fields(vec![("syncedLyrics", text(""))]), "a", 0), None);
}

#[test]
fn songs_are_ranked_like_results() {
    let body = "{\"result\":{\"songs\":[\
        {\"id\":1,\"duration\":156000,\"artists\":[{\"name\":\"Nobody\"}]},\
        {\"id\":2,\"duration\":150000,\"artists\":[{\"name\":\"X\"},{\"name\":\"Clipse\"}]}]}}";
    assert_eq!(song_reply(body, "Clipse", 156_000_000_000), Some(2));
    assert_eq!(song_reply("{\"result\":{}}", "Clipse", 0), None);
    // A song without a number ends the ranking with nothing.
    assert_eq!(song_reply("{\"result\":{\"songs\":[{\"id\":1},{}]}}", "", 0), None);
    let song = fields(vec![("id", number("5")), ("duration", number("156000"))]);
    assert_eq!(score_song(&song, "", 150_000_000_000), 6_000_000_000_000);
    assert_eq!(score_song(&song, "", 0), 0);
}

#[test]
fn the_lyric_of_a_song_must_hold_something() {
    assert_eq!(lyric_reply("{\"lrc\":{\"lyric\":\"[00:01]a\"}}"), Some("[00:01]a".to_string()));
    assert_eq!(lyric_reply("{\"lrc\":{\"lyric\":\"  \"}}"), None);
    assert_eq!(lyric_reply("{\"lrc\":{}}"), None);
    assert_eq!(lyric_of(&Json::Null), None);
}

#[test]
fn credits_do_not_stand_among_the_lines() {
    assert!(is_credit_line("[00:00] 作词 : someone"));
    assert!(!is_credit_line("[00:05] words"));
    assert_eq!(strip_lrc_metadata("[00:00] 作曲 : x\n[00:05]words\n纯音乐，请欣赏"), "[00:05]words");
    let lines = netease_synced("[00:00.00]编曲 x\n[00:05.00]words").unwrap();
    assert_eq!(words(&lines), vec!["words"]);
    assert!(netease_synced("words alone").is_none());
    assert!(netease_synced("[-1:00]before").is_none());
}

#[test]
fn plain_lines_lose_their_tags() {
    let lines = netease_plain("[00:05.00][x] words \n\n[00:06.00]\nmore").unwrap();
    assert_eq!(words(&lines), vec!["words", "more"]);
    assert!(lines.iter().all(|l| l.t == UNTIMED));
    assert!(netease_plain("[00:06.00]\n").is_none());
}

fn listening() -> Listening {
    match start("T", "id") {
        Step::Listen(s) => s,
        _ => panic!("a title is looked for"),
    }
}

#[test]
fn without_a_title_nothing_is_looked_for() {
    match start("", "id") {
        Step::Done(o) => {
            assert_eq!(o.lyrics.note, "no track");
            assert_eq!(o.miss, MissNote::Leave);
        }
        _ => panic!("there is nothing to look for"),
    }
}

#[test]
fn the_first_synced_answer_ends_the_search() {
    let found = vec![LyricLine { t: 0, text: "x".to_string() }];
    match hear(listening(), Report::Search(Some(found)), "id") {
        Step::Done(o) => {
            assert!(o.lyrics.synced);
            assert_eq!((o.lyrics.track_id.as_str(), o.miss), ("id", MissNote::Clear));
        }
        _ => panic!("a synced answer ends the search"),
    }
    let record = fields(vec![("syncedLyrics", text("[00:01]y"))]);
    assert!(matches!(hear(listening(), Report::Get(Some(record)), "id"), Step::Done(_)));
}

#[test]
fn an_instrumental_ends_the_search_without_lines() {
    let record = fields(vec![("instrumental", Json::Bool(true)), ("syncedLyrics", text("[00:01]y"))]);
    match hear(listening(), Report::Get(Some(record)), "id") {
        Step::Done(o) => {
            assert_eq!(o.lyrics.note, "🎵 instrumental");
            assert!(!o.lyrics.synced && o.lyrics.lines.is_empty());
        }
        _ => panic!("an instrumental ends the search"),
    }
}

#[test]
fn two_empty_answers_lead_to_the_backup() {
    let plain = fields(vec![("plainLyrics", text("p"))]);
    let next = match hear(listening(), Report::Get(Some(plain)), "id") {
        Step::Listen(s) => s,
        _ => panic!("one request is still out"),
    };
    let exact = match hear(next, Report::Search(None), "id") {
        Step::AskSynced(e) => e,
        _ => panic!("both requests have reported"),
    };
    match after_synced(exact, None, "id") {
        Step::Done(o) => {
            assert_eq!(o.lyrics.note, "plain (no synced found)");
            assert_eq!(words(&o.lyrics.lines), vec!["p"]);
            assert_eq!(o.miss, MissNote::Clear);
        }
        _ => panic!("the exact record has plain text"),
    }
    assert!(matches!(hear(listening(), Report::Quiet, "id"), Step::AskSynced(None)));
}

#[test]
fn the_backup_is_asked_twice_and_then_the_miss_is_logged() {
    let found = || Some(vec![LyricLine { t: 0, text: "x".to_string() }]);
    match after_synced(None, found(), "id") {
        Step::Done(o) => assert_eq!(o.lyrics.note, "synced · netease"),
        _ => panic!("the backup has synced lines"),
    }
    assert!(matches!(after_synced(None, None, "id"), Step::AskPlain));
    let plain = after_plain(found(), "id");
    assert_eq!((plain.lyrics.note.as_str(), plain.miss), ("plain · netease", MissNote::Clear));
    let none = after_plain(None, "id");
    assert_eq!((none.lyrics.note.as_str(), none.miss), ("no lyrics found", MissNote::Log));
}
