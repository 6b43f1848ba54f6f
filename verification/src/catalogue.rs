//! Reading the answers of the lyrics catalogues and picking the best one.

use vstd::prelude::*;
use vstd::slice::slice_subrange;
use crate::digits;
use crate::json;
use crate::json::Json;
use crate::lrc;
use crate::lrc::LyricLine;
use crate::text;

verus! {

// ---------------------------------------------------------------------------
// LRCLIB records.
// ---------------------------------------------------------------------------

/// The synced lines of an LRCLIB record.
pub open spec fn synced_lines(v: Json) -> Option<Seq<(int, Seq<char>)>> {
    match v.text_at("syncedLyrics"@) {
        None => None,
        Some(s) => if text::blank(s) || lrc::lrc(s).len() == 0 {
            None
        } else {
            Some(lrc::lrc(s))
        },
    }
}

/// The synced lines of an LRCLIB record, if it has any.
pub fn synced_from(v: &Json) -> (r: Option<Vec<LyricLine>>)
    ensures
        match r {
            Some(lines) => synced_lines(*v) == Some(lrc::cues(lines@)),
            None => synced_lines(*v) is None,
        },
{
    match v.str_at("syncedLyrics") {
        None => None,
        Some(s) => {
            let chars = text::chars_of(s);
            if text::is_blank(chars.as_slice()) {
                return None;
            }
            let lines = lrc::parse_lrc(s);
            proof {
                assert(lrc::cues(lines@).len() == lines@.len());
            }
            if lines.len() == 0 {
                None
            } else {
                Some(lines)
            }
        },
    }
}

/// An LRCLIB record of a track without words.
pub open spec fn instrumental(v: Json) -> bool {
    match v.at("instrumental"@) {
        Some(j) => j.truth() == Some(true),
        None => false,
    }
}

/// Does the record say that the track has no words?
pub fn is_instrumental(v: &Json) -> (r: bool)
    ensures
        r == instrumental(*v),
{
    match v.get("instrumental") {
        Some(j) => match j.as_bool() {
            Some(b) => b,
            None => false,
        },
        None => false,
    }
}

/// Lines without a time.
pub open spec fn untimed(list: Seq<Seq<char>>) -> Seq<(int, Seq<char>)> {
    Seq::new(list.len(), |i: int| (lrc::UNTIMED as int, text::trimmed(list[i])))
}

/// The plain lines of an LRCLIB record.
pub open spec fn plain_lines(v: Json) -> Option<Seq<(int, Seq<char>)>> {
    match v.text_at("plainLyrics"@) {
        None => None,
        Some(s) => if text::blank(s) {
            None
        } else {
            Some(untimed(text::line_list(s)))
        },
    }
}

/// The plain lines of an LRCLIB record, if it has any.
pub fn plain_from(v: &Json) -> (r: Option<Vec<LyricLine>>)
    ensures
        match r {
            Some(lines) => plain_lines(*v) == Some(lrc::cues(lines@)),
            None => plain_lines(*v) is None,
        },
{
    match v.str_at("plainLyrics") {
        None => None,
        Some(s) => {
            let chars = text::chars_of(s);
            if text::is_blank(chars.as_slice()) {
                return None;
            }
            let rows = text::lines(chars.as_slice());
            let ghost list = text::line_list(s@);
            let mut out: Vec<LyricLine> = Vec::new();
            let mut i: usize = 0;
            while i < rows.len()
                invariant
                    i <= rows@.len(),
                    list == text::views(rows@),
                    lrc::cues(out@) == untimed(list).take(i as int),
                decreases rows@.len() - i,
            {
                let ghost before = lrc::cues(out@);
                out.push(
                    LyricLine { t: lrc::UNTIMED, text: text::string_of(text::trim(rows[i])) },
                );
                proof {
                    assert(untimed(list).take(i + 1) =~= untimed(list).take(i as int).push(
                        untimed(list)[i as int],
                    ));
                    assert(lrc::cues(out@) =~= before.push(lrc::cue(out@[i as int])));
                }
                i += 1;
            }
            proof {
                assert(untimed(list).take(i as int) =~= untimed(list));
            }
            Some(out)
        },
    }
}

/// What is known after some answers to the questions for an exact record.
pub enum Weighed {
    /// This record ends the asking.
    Take(Json),
    /// Ask on; this is the record to fall back on.
    Ask(Option<Json>),
}

/// A record that needs no better one: with synced lines, or without words.
pub open spec fn settles(v: Json) -> bool {
    instrumental(v) || synced_lines(v) is Some
}

/// What to do after one more answer.
pub open spec fn weigh_spec(fallback: Option<Json>, answer: Option<Json>) -> Weighed {
    match answer {
        None => Weighed::Ask(fallback),
        Some(v) => if settles(v) {
            Weighed::Take(v)
        } else if fallback is None {
            Weighed::Ask(Some(v))
        } else {
            Weighed::Ask(fallback)
        },
    }
}

/// Weighs one more answer: a record with synced lines or without words wins, and
/// the first other record is kept to fall back on.
pub fn weigh(fallback: Option<Json>, answer: Option<Json>) -> (r: Weighed)
    ensures
        r == weigh_spec(fallback, answer),
{
    match answer {
        None => Weighed::Ask(fallback),
        Some(v) => {
            let synced = match synced_from(&v) {
                Some(_) => true,
                None => false,
            };
            if is_instrumental(&v) || synced {
                Weighed::Take(v)
            } else {
                match fallback {
                    None => Weighed::Ask(Some(v)),
                    Some(f) => Weighed::Ask(Some(f)),
                }
            }
        },
    }
}

/// What comes of asking on through a list of answers.
pub open spec fn best_answer(fallback: Option<Json>, answers: Seq<Option<Json>>) -> Option<Json>
    decreases answers.len(),
{
    if answers.len() == 0 {
        fallback
    } else {
        match weigh_spec(fallback, answers[0]) {
            Weighed::Take(v) => Some(v),
            Weighed::Ask(f) => best_answer(f, answers.drop_first()),
        }
    }
}

/// The first answer with synced lines or without words wins over every other.
pub proof fn first_settling_answer_wins(
    fallback: Option<Json>,
    answers: Seq<Option<Json>>,
    k: int,
)
    requires
        0 <= k < answers.len(),
        answers[k] matches Some(v) && settles(v),
        forall|i: int| 0 <= i < k ==> (#[trigger] answers[i] matches Some(v) ==> !settles(v)),
    ensures
        best_answer(fallback, answers) == answers[k],
    decreases answers.len(),
{
    if k > 0 {
        assert(answers[0] matches Some(v) ==> !settles(v));
        let rest = answers.drop_first();
        assert forall|i: int| 0 <= i < k - 1 implies (#[trigger] rest[i] matches Some(v)
            ==> !settles(v)) by {
            assert(rest[i] == answers[i + 1]);
        }
        match weigh_spec(fallback, answers[0]) {
            Weighed::Take(v) => {},
            Weighed::Ask(f) => first_settling_answer_wins(f, rest, k - 1),
        }
    }
}

/// Without such an answer the first record is taken.
pub proof fn first_record_is_the_fallback(answers: Seq<Option<Json>>, k: int)
    requires
        0 <= k < answers.len(),
        answers[k] is Some,
        forall|i: int| 0 <= i < k ==> #[trigger] answers[i] is None,
        forall|i: int|
            0 <= i < answers.len() ==> (#[trigger] answers[i] matches Some(v) ==> !settles(v)),
    ensures
        best_answer(None, answers) == answers[k],
    decreases answers.len(),
{
    let rest = answers.drop_first();
    assert forall|i: int| 0 <= i < rest.len() implies (#[trigger] rest[i] matches Some(v)
        ==> !settles(v)) by {
        assert(rest[i] == answers[i + 1]);
    }
    assert(answers[0] matches Some(v) ==> !settles(v));
    if k > 0 {
        assert(answers[0] is None);
        assert forall|i: int| 0 <= i < k - 1 implies #[trigger] rest[i] is None by {
            assert(rest[i] == answers[i + 1]);
        }
        first_record_is_the_fallback(rest, k - 1);
    } else {
        fallback_stays(answers[0], rest);
    }
}

proof fn fallback_stays(fallback: Option<Json>, answers: Seq<Option<Json>>)
    requires
        fallback is Some,
        forall|i: int|
            0 <= i < answers.len() ==> (#[trigger] answers[i] matches Some(v) ==> !settles(v)),
    ensures
        best_answer(fallback, answers) == fallback,
    decreases answers.len(),
{
    if answers.len() > 0 {
        let rest = answers.drop_first();
        assert(answers[0] matches Some(v) ==> !settles(v));
        assert forall|i: int| 0 <= i < rest.len() implies (#[trigger] rest[i] matches Some(v)
            ==> !settles(v)) by {
            assert(rest[i] == answers[i + 1]);
        }
        fallback_stays(fallback, rest);
    }
}

// ---------------------------------------------------------------------------
// Ranking.
// ---------------------------------------------------------------------------

/// Two lowercased artist names agree: one holds the other, or nothing is asked for.
pub open spec fn agrees(wanted: Seq<char>, found: Seq<char>) -> bool {
    wanted.len() == 0 || text::holds(found, wanted) || text::holds(wanted, found)
}

/// Do two lowercased artist names agree?
pub fn artist_agrees(wanted: &str, found: &str) -> (r: bool)
    ensures
        r == agrees(wanted@, found@),
{
    let w = text::chars_of(wanted);
    w.len() == 0 || text::contains(found, wanted) || text::contains(wanted, found)
}

/// The distance of two numbers.
pub open spec fn gap(a: int, b: int) -> int {
    if a < b {
        b - a
    } else {
        a - b
    }
}

/// What the wrong artist costs: ten thousand seconds, in picoseconds.
pub const WRONG_ARTIST: i128 = 10_000_000_000_000_000;

/// The number in a field in billionths, zero where there is none.
pub open spec fn billionths_at(v: Json, key: Seq<char>) -> int {
    match v.at(key) {
        Some(j) => match j.billionths() {
            Some(n) => n,
            None => 0,
        },
        None => 0,
    }
}

fn read_billionths(v: &Json, key: &str) -> (r: i64)
    ensures
        r == billionths_at(*v, key@),
        -digits::TIME_LIMIT <= r <= digits::TIME_LIMIT,
{
    match v.get(key) {
        Some(j) => match j.as_billionths() {
            Some(n) => n,
            None => 0,
        },
        None => 0,
    }
}

/// The text of a field, empty where there is none.
pub open spec fn text_or_empty(v: Json, key: Seq<char>) -> Seq<char> {
    match v.text_at(key) {
        Some(s) => s,
        None => seq![],
    }
}

/// The score of a search result in picoseconds, lower is better; `None` for a
/// result without synced lines.
pub open spec fn result_score(r: Json, wanted: Seq<char>, duration: int) -> Option<int> {
    if synced_lines(r) is None {
        None
    } else {
        let found = text::lowercase(text_or_empty(r, "artistName"@));
        Some(
            gap(billionths_at(r, "duration"@), duration) * 1000 + if agrees(wanted, found) {
                0
            } else {
                WRONG_ARTIST as int
            },
        )
    }
}

/// The score of one search result.
pub fn score_result(r: &Json, wanted: &str, duration: i64) -> (s: Option<i128>)
    ensures
        match s {
            Some(n) => result_score(*r, wanted@, duration as int) == Some(n as int),
            None => result_score(*r, wanted@, duration as int) is None,
        },
{
    match synced_from(r) {
        None => None,
        Some(_) => {
            let length: i128 = read_billionths(r, "duration") as i128;
            let name = match r.str_at("artistName") {
                Some(s) => s.to_string(),
                None => String::new(),
            };
            let found = text::lower(name.as_str());
            let apart: i128 = if length < duration as i128 {
                duration as i128 - length
            } else {
                length - duration as i128
            };
            let extra: i128 = if artist_agrees(wanted, found.as_str()) {
                0
            } else {
                WRONG_ARTIST
            };
            proof {
                assert(name@ =~= text_or_empty(*r, "artistName"@));
            }
            Some(apart * 1000 + extra)
        },
    }
}

/// The best score among the first `n` and where it first occurs.
pub open spec fn lowest(scores: Seq<Option<int>>, n: nat) -> Option<(int, int)>
    decreases n,
{
    if n == 0 {
        None
    } else {
        let before = lowest(scores, (n - 1) as nat);
        match scores[n - 1] {
            None => before,
            Some(s) => match before {
                Some((b, i)) => if b <= s {
                    before
                } else {
                    Some((s, n - 1))
                },
                None => Some((s, n - 1)),
            },
        }
    }
}

/// [`lowest`] finds a score that none undercuts, and the first place that has it.
pub proof fn lowest_is_lowest(scores: Seq<Option<int>>, n: nat)
    requires
        n <= scores.len(),
    ensures
        match lowest(scores, n) {
            None => forall|j: int| 0 <= j < n ==> scores[j] is None,
            Some((s, i)) => {
                &&& 0 <= i < n
                &&& scores[i] == Some(s)
                &&& forall|j: int|
                    0 <= j < n ==> (#[trigger] scores[j] matches Some(other) ==> s <= other && (j < i ==> s
                        < other))
            },
        },
    decreases n,
{
    if n > 0 {
        lowest_is_lowest(scores, (n - 1) as nat);
    }
}

/// The scores of search results.
pub open spec fn result_scores(items: Seq<Json>, wanted: Seq<char>, duration: int) -> Seq<
    Option<int>,
> {
    Seq::new(items.len(), |i: int| result_score(items[i], wanted, duration))
}

/// The lines of the best search result.
pub open spec fn best_result(items: Seq<Json>, wanted: Seq<char>, duration: int) -> Option<
    Seq<(int, Seq<char>)>,
> {
    match lowest(result_scores(items, wanted, duration), items.len()) {
        None => None,
        Some((_, i)) => synced_lines(items[i]),
    }
}

/// The synced lines of the best search result: artist agreement counts above any
/// difference in length, so a cover of the same length by somebody else cannot
/// beat the real recording. `wanted` is the lowercased lead artist.
pub fn rank_search(reply: &Json, wanted: &str, duration: i64) -> (r: Option<Vec<LyricLine>>)
    ensures
        match r {
            Some(lines) => reply.items() is Some && best_result(
                reply.items()->0,
                wanted@,
                duration as int,
            ) == Some(lrc::cues(lines@)),
            None => reply.items() is None || best_result(
                reply.items()->0,
                wanted@,
                duration as int,
            ) is None,
        },
{
    match reply.as_list() {
        None => None,
        Some(items) => {
            let ghost scores = result_scores(items@, wanted@, duration as int);
            let mut best: Option<(i128, usize)> = None;
            let mut i: usize = 0;
            while i < items.len()
                invariant
                    i <= items@.len(),
                    scores == result_scores(items@, wanted@, duration as int),
                    match best {
                        None => lowest(scores, i as nat) is None,
                        Some((s, k)) => lowest(scores, i as nat) == Some((s as int, k as int)) && k
                            < i,
                    },
                decreases items@.len() - i,
            {
                match score_result(&items[i], wanted, duration) {
                    None => {},
                    Some(s) => match best {
                        Some((b, _)) => {
                            if !(b <= s) {
                                best = Some((s, i));
                            }
                        },
                        None => {
                            best = Some((s, i));
                        },
                    },
                }
                i += 1;
            }
            match best {
                None => None,
                Some((_, k)) => synced_from(&items[k]),
            }
        },
    }
}

/// A cover by somebody else never wins over a recording by the wanted artist
/// whose length is off by less than ten thousand seconds.
pub proof fn wrong_artist_never_wins(
    items: Seq<Json>,
    wanted: Seq<char>,
    duration: int,
    right: int,
    wrong: int,
)
    requires
        0 <= right < items.len(),
        0 <= wrong < items.len(),
        synced_lines(items[right]) is Some,
        agrees(wanted, text::lowercase(text_or_empty(items[right], "artistName"@))),
        gap(billionths_at(items[right], "duration"@), duration) < 10_000_000_000_000,
        !agrees(wanted, text::lowercase(text_or_empty(items[wrong], "artistName"@))),
    ensures
        lowest(result_scores(items, wanted, duration), items.len()) matches Some((_, i)) && i
            != wrong,
{
    let scores = result_scores(items, wanted, duration);
    lowest_is_lowest(scores, items.len());
    assert(scores[right] is Some);
    assert(scores[wrong] matches Some(s) ==> s > scores[right]->0);
}

/// The record in the text of a reply to an exact lookup.
pub fn record_reply(body: &str) -> (r: Option<Json>)
    ensures
        r == json::document(body@),
{
    json::parse_json(body)
}

/// The synced lines of the best result in the text of a search reply, for the
/// lead artist `primary`.
pub fn search_reply(body: &str, primary: &str, duration: i64) -> (r: Option<Vec<LyricLine>>)
    ensures
        match r {
            Some(lines) => json::document(body@) is Some && (json::document(
                body@,
            )->0).items() is Some && best_result(
                (json::document(body@)->0).items()->0,
                text::lowercase(primary@),
                duration as int,
            ) == Some(lrc::cues(lines@)),
            None => json::document(body@) is None || (json::document(body@)->0).items() is None
                || best_result(
                (json::document(body@)->0).items()->0,
                text::lowercase(primary@),
                duration as int,
            ) is None,
        },
{
    match json::parse_json(body) {
        None => None,
        Some(reply) => {
            let wanted = text::lower(primary);
            rank_search(&reply, wanted.as_str(), duration)
        },
    }
}

// ---------------------------------------------------------------------------
// NetEase songs.
// ---------------------------------------------------------------------------

/// The names in a list of artists; entries without one are passed over.
pub open spec fn artist_names(list: Seq<Json>) -> Seq<Seq<char>>
    decreases list.len(),
{
    if list.len() == 0 {
        seq![]
    } else {
        match list.last().text_at("name"@) {
            Some(s) => artist_names(list.drop_last()).push(s),
            None => artist_names(list.drop_last()),
        }
    }
}

/// The artists of a song, joined and lowercased.
pub open spec fn song_artist(song: Json) -> Seq<char> {
    match song.items_at("artists"@) {
        Some(list) => text::lowercase(text::joined(artist_names(list), ", "@)),
        None => seq![],
    }
}

fn read_song_artist(song: &Json) -> (r: String)
    ensures
        r@ == song_artist(*song),
{
    match song.list_at("artists") {
        None => String::new(),
        Some(list) => {
            let mut names: Vec<String> = Vec::new();
            let mut i: usize = 0;
            proof {
                assert(text::texts(names@) =~= artist_names(list@.take(0)));
            }
            while i < list.len()
                invariant
                    i <= list@.len(),
                    text::texts(names@) == artist_names(list@.take(i as int)),
                decreases list@.len() - i,
            {
                let ghost before = text::texts(names@);
                proof {
                    assert(list@.take(i + 1).drop_last() =~= list@.take(i as int));
                    assert(list@.take(i + 1).last() == list@[i as int]);
                }
                match list[i].str_at("name") {
                    Some(s) => {
                        names.push(s.to_string());
                        proof {
                            assert(text::texts(names@) =~= before.push(s@));
                        }
                    },
                    None => {},
                }
                i += 1;
            }
            proof {
                assert(list@.take(i as int) =~= list@);
                assert(text::texts(names@).take(names@.len() as int) =~= text::texts(names@));
            }
            let all = text::join_strings(&names, names.len(), ", ");
            text::lower(all.as_str())
        },
    }
}

/// The number of a song.
pub open spec fn song_number(song: Json) -> Option<int> {
    match song.at("id"@) {
        Some(j) => j.whole(),
        None => None,
    }
}

/// The score of a song in picoseconds, lower is better. NetEase gives lengths in
/// milliseconds; without a length to compare with only the artist counts.
pub open spec fn song_score(song: Json, wanted: Seq<char>, duration: int) -> int {
    (if duration > 0 {
        gap(billionths_at(song, "duration"@), duration * 1000)
    } else {
        0
    }) + if agrees(wanted, song_artist(song)) {
        0
    } else {
        WRONG_ARTIST as int
    }
}

/// The score of one song.
pub fn score_song(song: &Json, wanted: &str, duration: i64) -> (r: i128)
    ensures
        r == song_score(*song, wanted@, duration as int),
{
    let length: i128 = read_billionths(song, "duration") as i128;
    let mine: i128 = duration as i128 * 1000;
    let apart: i128 = if duration > 0 {
        if length < mine {
            mine - length
        } else {
            length - mine
        }
    } else {
        0
    };
    let found = read_song_artist(song);
    apart + if artist_agrees(wanted, found.as_str()) {
        0i128
    } else {
        WRONG_ARTIST
    }
}

/// The songs of a search reply.
pub open spec fn songs(reply: Json) -> Option<Seq<Json>> {
    match reply.at("result"@) {
        Some(r) => r.items_at("songs"@),
        None => None,
    }
}

/// The scores of songs.
pub open spec fn song_scores(list: Seq<Json>, wanted: Seq<char>, duration: int) -> Seq<
    Option<int>,
> {
    Seq::new(list.len(), |i: int| Some(song_score(list[i], wanted, duration)))
}

/// The number of the best song; none where any of them lacks a number.
pub open spec fn best_song(list: Seq<Json>, wanted: Seq<char>, duration: int) -> Option<int> {
    if exists|i: int| 0 <= i < list.len() && song_number(#[trigger] list[i]) is None {
        None
    } else {
        match lowest(song_scores(list, wanted, duration), list.len()) {
            None => None,
            Some((_, i)) => song_number(list[i]),
        }
    }
}

/// The number of the song that matches best, by artist first and then by length.
/// `wanted` is the lowercased lead artist.
pub fn rank_songs(reply: &Json, wanted: &str, duration: i64) -> (r: Option<i64>)
    ensures
        match r {
            Some(id) => songs(*reply) is Some && best_song(
                songs(*reply)->0,
                wanted@,
                duration as int,
            ) == Some(id as int),
            None => songs(*reply) is None || best_song(
                songs(*reply)->0,
                wanted@,
                duration as int,
            ) is None,
        },
{
    let result = match reply.get("result") {
        Some(j) => j,
        None => {
            return None;
        },
    };
    let list = match result.list_at("songs") {
        Some(v) => v,
        None => {
            return None;
        },
    };
    let ghost scores = song_scores(list@, wanted@, duration as int);
    let mut best: Option<(i128, usize, i64)> = None;
    let mut i: usize = 0;
    while i < list.len()
        invariant
            i <= list@.len(),
            songs(*reply) == Some(list@),
            scores == song_scores(list@, wanted@, duration as int),
            forall|j: int| 0 <= j < i ==> song_number(#[trigger] list@[j]) is Some,
            match best {
                None => lowest(scores, i as nat) is None,
                Some((s, k, id)) => lowest(scores, i as nat) == Some((s as int, k as int)) && k < i
                    && song_number(list@[k as int]) == Some(id as int),
            },
        decreases list@.len() - i,
    {
        let number: Option<i64> = match list[i].get("id") {
            Some(j) => j.as_i64(),
            None => None,
        };
        match number {
            None => {
                proof {
                    assert(song_number(list@[i as int]) is None);
                }
                return None;
            },
            Some(id) => {
                let s: i128 = score_song(&list[i], wanted, duration);
                match best {
                    Some((b, _, _)) => {
                        if !(b <= s) {
                            best = Some((s, i, id));
                        }
                    },
                    None => {
                        best = Some((s, i, id));
                    },
                }
            },
        }
        i += 1;
    }
    match best {
        None => None,
        Some((_, _, id)) => Some(id),
    }
}

/// The number of the best song in the text of a search reply, for the lead
/// artist `primary`.
pub fn song_reply(body: &str, primary: &str, duration: i64) -> (r: Option<i64>)
    ensures
        match r {
            Some(id) => json::document(body@) is Some && songs(json::document(body@)->0) is Some
                && best_song(
                songs(json::document(body@)->0)->0,
                text::lowercase(primary@),
                duration as int,
            ) == Some(id as int),
            None => json::document(body@) is None || songs(json::document(body@)->0) is None
                || best_song(
                songs(json::document(body@)->0)->0,
                text::lowercase(primary@),
                duration as int,
            ) is None,
        },
{
    match json::parse_json(body) {
        None => None,
        Some(reply) => {
            let wanted = text::lower(primary);
            rank_songs(&reply, wanted.as_str(), duration)
        },
    }
}

// ---------------------------------------------------------------------------
// NetEase lyrics.
// ---------------------------------------------------------------------------

/// The `.lrc` text in a lyrics reply; blank text counts as none.
pub open spec fn song_lyric(reply: Json) -> Option<Seq<char>> {
    match reply.at("lrc"@) {
        None => None,
        Some(j) => match j.text_at("lyric"@) {
            None => None,
            Some(s) => if text::blank(s) {
                None
            } else {
                Some(s)
            },
        },
    }
}

/// The `.lrc` text in a lyrics reply.
pub fn lyric_of(reply: &Json) -> (r: Option<String>)
    ensures
        match r {
            Some(s) => song_lyric(*reply) == Some(s@),
            None => song_lyric(*reply) is None,
        },
{
    match reply.get("lrc") {
        None => None,
        Some(j) => match j.str_at("lyric") {
            None => None,
            Some(s) => {
                let v = text::chars_of(s);
                if text::is_blank(v.as_slice()) {
                    None
                } else {
                    Some(s.to_string())
                }
            },
        },
    }
}

/// The `.lrc` text in the text of a lyrics reply.
pub fn lyric_reply(body: &str) -> (r: Option<String>)
    ensures
        match r {
            Some(s) => json::document(body@) is Some && song_lyric(json::document(body@)->0)
                == Some(s@),
            None => json::document(body@) is None || song_lyric(json::document(body@)->0) is None,
        },
{
    match json::parse_json(body) {
        None => None,
        Some(reply) => lyric_of(&reply),
    }
}

/// The signs of a line that gives credits instead of lyrics.
pub open spec fn credit_signs() -> Seq<Seq<char>> {
    seq!["作词"@, "作曲"@, "编曲"@, "纯音乐"@, ": 作"@, "by ："@, "制作人"@, "混音"@]
}

/// A line, given its lowercase, holds one of the signs.
pub open spec fn credit_line(lowered: Seq<char>) -> bool {
    exists|i: int| 0 <= i < credit_signs().len() && text::holds(lowered, #[trigger] credit_signs()[i])
}

/// Does a line, given its lowercase, give credits instead of lyrics?
pub fn is_credit_line(lowered: &str) -> (r: bool)
    ensures
        r == credit_line(lowered@),
{
    let signs: Vec<&str> = vec!["作词", "作曲", "编曲", "纯音乐", ": 作", "by ：", "制作人", "混音"];
    proof {
        assert(forall|j: int| 0 <= j < 8 ==> signs@[j]@ == #[trigger] credit_signs()[j]);
    }
    let mut i: usize = 0;
    while i < signs.len()
        invariant
            i <= signs@.len() == credit_signs().len(),
            forall|j: int| 0 <= j < signs@.len() ==> signs@[j]@ == #[trigger] credit_signs()[j],
            forall|j: int| 0 <= j < i ==> !text::holds(lowered@, #[trigger] credit_signs()[j]),
        decreases signs@.len() - i,
    {
        if text::contains(lowered, signs[i]) {
            proof {
                assert(text::holds(lowered@, credit_signs()[i as int]));
            }
            return true;
        }
        i += 1;
    }
    false
}

/// The lines that are not credits.
pub open spec fn sung_lines(list: Seq<Seq<char>>) -> Seq<Seq<char>>
    decreases list.len(),
{
    if list.len() == 0 {
        seq![]
    } else if credit_line(text::lowercase(list.last())) {
        sung_lines(list.drop_last())
    } else {
        sung_lines(list.drop_last()).push(list.last())
    }
}

/// Drops the lines of an `.lrc` text that give credits or mark the track as
/// instrumental.
pub fn strip_lrc_metadata(s: &str) -> (r: String)
    ensures
        r@ == text::joined(sung_lines(text::line_list(s@)), "\n"@),
{
    let v = text::chars_of(s);
    let rows = text::lines(v.as_slice());
    let ghost list = text::line_list(s@);
    let mut kept: Vec<&[char]> = Vec::new();
    let mut i: usize = 0;
    proof {
        assert(text::views(kept@) =~= sung_lines(list.take(0)));
    }
    while i < rows.len()
        invariant
            i <= rows@.len(),
            list == text::views(rows@),
            text::views(kept@) == sung_lines(list.take(i as int)),
        decreases rows@.len() - i,
    {
        let ghost before = text::views(kept@);
        proof {
            assert(list.take(i + 1).drop_last() =~= list.take(i as int));
            assert(list.take(i + 1).last() == rows@[i as int]@);
        }
        let row = text::string_of(rows[i]);
        let low = text::lower(row.as_str());
        if !is_credit_line(low.as_str()) {
            kept.push(rows[i]);
            proof {
                assert(text::views(kept@) =~= before.push(rows@[i as int]@));
            }
        }
        i += 1;
    }
    proof {
        assert(list.take(i as int) =~= list);
    }
    text::join(&kept, "\n")
}

/// The cues that start at zero or later.
pub open spec fn started(list: Seq<(int, Seq<char>)>) -> Seq<(int, Seq<char>)>
    decreases list.len(),
{
    if list.len() == 0 {
        seq![]
    } else if list.last().0 >= 0 {
        started(list.drop_last()).push(list.last())
    } else {
        started(list.drop_last())
    }
}

/// The synced lines of a NetEase lyric: those that start at zero or later.
pub open spec fn netease_cues(s: Seq<char>) -> Seq<(int, Seq<char>)> {
    started(lrc::lrc(text::joined(sung_lines(text::line_list(s)), "\n"@)))
}

/// The synced lines of a NetEase lyric, if it has any.
pub fn netease_synced(s: &str) -> (r: Option<Vec<LyricLine>>)
    ensures
        match r {
            Some(lines) => netease_cues(s@).len() > 0 && lrc::cues(lines@) == netease_cues(s@),
            None => netease_cues(s@).len() == 0,
        },
{
    let plain = strip_lrc_metadata(s);
    let lines = lrc::parse_lrc(plain.as_str());
    let ghost list = lrc::cues(lines@);
    let mut kept: Vec<LyricLine> = Vec::new();
    let mut i: usize = 0;
    proof {
        assert(lrc::cues(kept@) =~= started(list.take(0)));
    }
    while i < lines.len()
        invariant
            i <= lines@.len(),
            list == lrc::cues(lines@),
            lrc::cues(kept@) == started(list.take(i as int)),
        decreases lines@.len() - i,
    {
        let ghost before = lrc::cues(kept@);
        proof {
            assert(list.take(i + 1).drop_last() =~= list.take(i as int));
            assert(list.take(i + 1).last() == lrc::cue(lines@[i as int]));
        }
        if lines[i].t >= 0 {
            kept.push(LyricLine { t: lines[i].t, text: lines[i].text.clone() });
            proof {
                assert(lrc::cues(kept@) =~= before.push(lrc::cue(lines@[i as int])));
            }
        }
        i += 1;
    }
    proof {
        assert(list.take(i as int) =~= list);
        assert(lrc::cues(kept@).len() == kept@.len());
    }
    if kept.len() > 0 {
        Some(kept)
    } else {
        None
    }
}

/// The bare texts of tagged lines; lines without one are passed over.
pub open spec fn bare_texts(list: Seq<Seq<char>>) -> Seq<(int, Seq<char>)>
    decreases list.len(),
{
    if list.len() == 0 {
        seq![]
    } else if text::blank(lrc::untagged(list.last())) {
        bare_texts(list.drop_last())
    } else {
        bare_texts(list.drop_last()).push(
            (lrc::UNTIMED as int, text::trimmed(lrc::untagged(list.last()))),
        )
    }
}

/// The plain lines of a NetEase lyric.
pub open spec fn netease_texts(s: Seq<char>) -> Seq<(int, Seq<char>)> {
    bare_texts(text::line_list(text::joined(sung_lines(text::line_list(s)), "\n"@)))
}

fn skip_tags(line: &[char]) -> (r: usize)
    ensures
        r <= line@.len(),
        line@.skip(r as int) == lrc::untagged(line@),
{
    let n: usize = line.len();
    let mut at: usize = 0;
    proof {
        assert(line@.skip(0) =~= line@);
    }
    while at < n && line[at] == '['
        invariant
            at <= n == line@.len(),
            lrc::untagged(line@) == lrc::untagged(line@.skip(at as int)),
        decreases n - at,
    {
        let ghost rest = line@.skip(at as int);
        proof {
            text::char_from_is_least(rest, ']', 0);
            text::char_from_shift(line@, ']', at as int, 0);
        }
        match text::find_char(line, ']', at) {
            None => {
                return at;
            },
            Some(c) => {
                proof {
                    assert(rest.skip(c - at + 1) =~= line@.skip(c + 1));
                }
                at = c + 1;
            },
        }
    }
    at
}

/// The plain lines of a NetEase lyric, if it has any.
pub fn netease_plain(s: &str) -> (r: Option<Vec<LyricLine>>)
    ensures
        match r {
            Some(lines) => netease_texts(s@).len() > 0 && lrc::cues(lines@) == netease_texts(s@),
            None => netease_texts(s@).len() == 0,
        },
{
    let plain = strip_lrc_metadata(s);
    let v = text::chars_of(plain.as_str());
    let rows = text::lines(v.as_slice());
    let ghost list = text::line_list(plain@);
    let mut out: Vec<LyricLine> = Vec::new();
    let mut i: usize = 0;
    proof {
        assert(lrc::cues(out@) =~= bare_texts(list.take(0)));
    }
    while i < rows.len()
        invariant
            i <= rows@.len(),
            list == text::views(rows@),
            lrc::cues(out@) == bare_texts(list.take(i as int)),
        decreases rows@.len() - i,
    {
        let ghost before = lrc::cues(out@);
        let row: &[char] = rows[i];
        proof {
            assert(list.take(i + 1).drop_last() =~= list.take(i as int));
            assert(list.take(i + 1).last() == row@);
            text::trimmed_empty_iff_blank(lrc::untagged(row@));
        }
        let at: usize = skip_tags(row);
        proof {
            assert(row@.subrange(at as int, row@.len() as int) =~= row@.skip(at as int));
        }
        let bare: &[char] = text::trim(slice_subrange(row, at, row.len()));
        if bare.len() > 0 {
            out.push(LyricLine { t: lrc::UNTIMED, text: text::string_of(bare) });
            proof {
                assert(lrc::cues(out@) =~= before.push((lrc::UNTIMED as int, bare@)));
            }
        }
        i += 1;
    }
    proof {
        assert(list.take(i as int) =~= list);
        assert(lrc::cues(out@).len() == out@.len());
    }
    if out.len() > 0 {
        Some(out)
    } else {
        None
    }
}

// ---------------------------------------------------------------------------
// What is picked.
// ---------------------------------------------------------------------------

/// How far the length of a search result is from the length of the track, shorter or longer,
/// in nanoseconds. A result that tells no length counts as having none.
pub open spec fn length_off(r: Json, duration: int) -> int {
    match r.at("duration"@) {
        Some(j) => match j.billionths() {
            Some(n) => vstd::math::abs(n - duration) as int,
            None => vstd::math::abs(duration) as int,
        },
        None => vstd::math::abs(duration) as int,
    }
}

/// A search result is by the wanted artist: its lowercased artist is in the wanted name, or the
/// wanted name is in it.
pub open spec fn by_artist(r: Json, wanted: Seq<char>) -> bool {
    let name = match r.text_at("artistName"@) {
        Some(s) => s,
        None => seq![],
    };
    let found = text::lowercase(name);
    wanted.len() == 0 || text::holds(found, wanted) || text::holds(wanted, found)
}

/// Where a search has results with synced lines, the lines of one of them are picked, and of
/// that one holds: among the results by the same kind of artist, wanted or not, none is closer
/// to the length of the track, shorter or longer, and of equally close ones it comes first; and
/// it is by the wanted artist wherever a result by that artist is less than ten thousand
/// seconds off.
pub proof fn closest_result_is_picked(items: Seq<Json>, wanted: Seq<char>, duration: int)
    ensures
        best_result(items, wanted, duration) is None <==> forall|j: int|
            0 <= j < items.len() ==> synced_lines(#[trigger] items[j]) is None,
        best_result(items, wanted, duration) matches Some(lines) ==> exists|k: int|
            {
                &&& 0 <= k < items.len()
                &&& synced_lines(#[trigger] items[k]) == Some(lines)
                &&& forall|j: int|
                    0 <= j < items.len() && synced_lines(#[trigger] items[j]) is Some ==> {
                        &&& by_artist(items[k], wanted) == by_artist(items[j], wanted)
                            ==> length_off(items[k], duration) <= length_off(items[j], duration)
                        &&& by_artist(items[k], wanted) == by_artist(items[j], wanted) && j < k
                            ==> length_off(items[k], duration) < length_off(items[j], duration)
                        &&& by_artist(items[j], wanted) && length_off(items[j], duration)
                            < 10_000_000_000_000 ==> by_artist(items[k], wanted)
                    }
            },
{
    let scores = result_scores(items, wanted, duration);
    lowest_is_lowest(scores, items.len());
    assert forall|j: int| 0 <= j < items.len() implies ({
        let s = #[trigger] scores[j];
        &&& s is Some == (synced_lines(items[j]) is Some)
        &&& s matches Some(n) ==> n == length_off(items[j], duration) * 1000 + if by_artist(
            items[j],
            wanted,
        ) {
            0
        } else {
            10_000_000_000_000_000int
        }
    }) by {
        assert(scores[j] == result_score(items[j], wanted, duration));
        assert(length_off(items[j], duration) == gap(
            billionths_at(items[j], "duration"@),
            duration,
        ));
    }
    match best_result(items, wanted, duration) {
        None => {
            assert forall|j: int| 0 <= j < items.len() implies synced_lines(
                #[trigger] items[j],
            ) is None by {
                assert(scores[j] is None);
            }
        },
        Some(lines) => {
            let (s, k) = lowest(scores, items.len())->0;
            assert(scores[k] == Some(s));
            assert(synced_lines(items[k]) == Some(lines));
            assert forall|j: int|
                0 <= j < items.len() && synced_lines(#[trigger] items[j]) is Some implies {
                &&& by_artist(items[k], wanted) == by_artist(items[j], wanted) ==> length_off(
                    items[k],
                    duration,
                ) <= length_off(items[j], duration)
                &&& by_artist(items[k], wanted) == by_artist(items[j], wanted) && j < k
                    ==> length_off(items[k], duration) < length_off(items[j], duration)
                &&& by_artist(items[j], wanted) && length_off(items[j], duration)
                    < 10_000_000_000_000 ==> by_artist(items[k], wanted)
            } by {
                assert(scores[j] is Some);
            }
        },
    }
}

/// How far the length of a song, which the catalogue gives in milliseconds, is from the length
/// of the track, in picoseconds; nothing where the length of the track is not known.
pub open spec fn song_off(song: Json, duration: int) -> int {
    if duration <= 0 {
        0
    } else {
        match song.at("duration"@) {
            Some(j) => match j.billionths() {
                Some(n) => vstd::math::abs(n - 1000 * duration) as int,
                None => 1000 * duration,
            },
            None => 1000 * duration,
        }
    }
}

/// A song is by the wanted artist.
pub open spec fn sung_by(song: Json, wanted: Seq<char>) -> bool {
    wanted.len() == 0 || text::holds(song_artist(song), wanted) || text::holds(
        wanted,
        song_artist(song),
    )
}

/// The number of a song is picked of which holds what holds of a picked search result: closest
/// in length among those by the same kind of artist, the first of equally close ones, and by
/// the wanted artist wherever such a song is less than ten thousand seconds off.
pub proof fn closest_song_is_picked(list: Seq<Json>, wanted: Seq<char>, duration: int)
    ensures
        best_song(list, wanted, duration) is Some <==> list.len() > 0 && forall|j: int|
            0 <= j < list.len() ==> song_number(#[trigger] list[j]) is Some,
        best_song(list, wanted, duration) matches Some(id) ==> exists|k: int|
            {
                &&& 0 <= k < list.len()
                &&& song_number(#[trigger] list[k]) == Some(id)
                &&& forall|j: int|
                    0 <= j < list.len() ==> {
                        &&& sung_by(list[k], wanted) == sung_by(#[trigger] list[j], wanted)
                            ==> song_off(list[k], duration) <= song_off(list[j], duration)
                        &&& sung_by(list[k], wanted) == sung_by(list[j], wanted) && j < k
                            ==> song_off(list[k], duration) < song_off(list[j], duration)
                        &&& sung_by(list[j], wanted) && song_off(list[j], duration)
                            < 10_000_000_000_000_000 ==> sung_by(list[k], wanted)
                    }
            },
{
    let scores = song_scores(list, wanted, duration);
    lowest_is_lowest(scores, list.len());
    assert forall|j: int| 0 <= j < list.len() implies #[trigger] scores[j] == Some(
        song_off(list[j], duration) + if sung_by(list[j], wanted) {
            0
        } else {
            10_000_000_000_000_000int
        },
    ) by {
        assert(scores[j] == Some(song_score(list[j], wanted, duration)));
    }
    if list.len() > 0 {
        assert(scores[0] is Some);
    }
    if best_song(list, wanted, duration) is Some {
        let (s, k) = lowest(scores, list.len())->0;
        assert(scores[k] == Some(s));
        assert(song_number(list[k]) == best_song(list, wanted, duration));
        assert forall|j: int| 0 <= j < list.len() implies {
            &&& sung_by(list[k], wanted) == sung_by(#[trigger] list[j], wanted) ==> song_off(
                list[k],
                duration,
            ) <= song_off(list[j], duration)
            &&& sung_by(list[k], wanted) == sung_by(list[j], wanted) && j < k ==> song_off(
                list[k],
                duration,
            ) < song_off(list[j], duration)
            &&& sung_by(list[j], wanted) && song_off(list[j], duration) < 10_000_000_000_000_000
                ==> sung_by(list[k], wanted)
        } by {
            assert(scores[j] is Some);
        }
    }
}

/// The artists of a song are the names in its list, in lower case and with a comma between
/// them; the number of a song is that of its field.
pub proof fn songs_name_their_artists(song: Json, list: Seq<Json>, id: Json)
    requires
        song.items_at("artists"@) == Some(list),
        forall|i: int| 0 <= i < list.len() ==> (#[trigger] list[i]).text_at("name"@) is Some,
        song.at("id"@) == Some(id),
    ensures
        song_artist(song) == text::lowercase(
            text::joined(list.map_values(|a: Json| a.text_at("name"@)->0), ", "@),
        ),
        song_number(song) == id.whole(),
{
    names_of_named(list);
}

proof fn names_of_named(list: Seq<Json>)
    requires
        forall|i: int| 0 <= i < list.len() ==> (#[trigger] list[i]).text_at("name"@) is Some,
    ensures
        artist_names(list) == list.map_values(|a: Json| a.text_at("name"@)->0),
    decreases list.len(),
{
    if list.len() > 0 {
        assert forall|i: int| 0 <= i < list.drop_last().len() implies (
        #[trigger] list.drop_last()[i]).text_at("name"@) is Some by {
            assert(list.drop_last()[i] == list[i]);
        }
        names_of_named(list.drop_last());
        assert(list.last() == list[list.len() - 1]);
    }
    assert(artist_names(list) =~= list.map_values(|a: Json| a.text_at("name"@)->0));
}

/// A line of a NetEase lyric is dropped exactly when it holds one of the eight signs of a
/// credit; the others stay, in their order.
pub proof fn only_credits_are_dropped(list: Seq<Seq<char>>)
    ensures
        sung_lines(list) == list.filter(
            |l: Seq<char>|
                {
                    let low = text::lowercase(l);
                    &&& !text::holds(low, "作词"@) && !text::holds(low, "作曲"@)
                    &&& !text::holds(low, "编曲"@) && !text::holds(low, "纯音乐"@)
                    &&& !text::holds(low, ": 作"@) && !text::holds(low, "by ："@)
                    &&& !text::holds(low, "制作人"@) && !text::holds(low, "混音"@)
                },
        ),
    decreases list.len(),
{
    reveal(Seq::filter);
    if list.len() > 0 {
        only_credits_are_dropped(list.drop_last());
        let low = text::lowercase(list.last());
        assert(credit_signs().len() == 8);
        if text::holds(low, "作词"@) {
            assert(text::holds(low, credit_signs()[0]));
        }
        if text::holds(low, "作曲"@) {
            assert(text::holds(low, credit_signs()[1]));
        }
        if text::holds(low, "编曲"@) {
            assert(text::holds(low, credit_signs()[2]));
        }
        if text::holds(low, "纯音乐"@) {
            assert(text::holds(low, credit_signs()[3]));
        }
        if text::holds(low, ": 作"@) {
            assert(text::holds(low, credit_signs()[4]));
        }
        if text::holds(low, "by ："@) {
            assert(text::holds(low, credit_signs()[5]));
        }
        if text::holds(low, "制作人"@) {
            assert(text::holds(low, credit_signs()[6]));
        }
        if text::holds(low, "混音"@) {
            assert(text::holds(low, credit_signs()[7]));
        }
    }
}

/// The synced lines of a NetEase lyric are the timed lines of its text without the credits:
/// exactly those that start at zero or later, in their order.
pub proof fn netease_lines_have_started(s: Seq<char>)
    ensures
        netease_cues(s) == lrc::lrc(
            text::joined(sung_lines(text::line_list(s)), "\n"@),
        ).filter(|c: (int, Seq<char>)| c.0 >= 0),
{
    started_is_a_filter(lrc::lrc(text::joined(sung_lines(text::line_list(s)), "\n"@)));
}

proof fn started_is_a_filter(list: Seq<(int, Seq<char>)>)
    ensures
        started(list) == list.filter(|c: (int, Seq<char>)| c.0 >= 0),
    decreases list.len(),
{
    reveal(Seq::filter);
    if list.len() > 0 {
        started_is_a_filter(list.drop_last());
    }
}

/// The plain lines of a NetEase lyric: what stands behind the tags of each line, without white
/// space around it, for every line that has something there; none of them has a time.
pub proof fn netease_texts_are_what_is_sung(list: Seq<Seq<char>>)
    ensures
        bare_texts(list) == list.filter(
            |l: Seq<char>| !text::blank(lrc::untagged(l)),
        ).map_values(|l: Seq<char>| (-1_000_000_000int, text::trimmed(lrc::untagged(l)))),
    decreases list.len(),
{
    reveal(Seq::filter);
    if list.len() > 0 {
        netease_texts_are_what_is_sung(list.drop_last());
    }
    assert(bare_texts(list) =~= list.filter(
        |l: Seq<char>| !text::blank(lrc::untagged(l)),
    ).map_values(|l: Seq<char>| (-1_000_000_000int, text::trimmed(lrc::untagged(l)))));
}

/// What a record holds: its synced lines are those that its synced text says, where that says
/// any; its plain lines are the lines of its plain text, one for one, trimmed and without a
/// time; it has no words exactly where it says so.
pub proof fn records_say_what_they_hold(v: Json, synced: Seq<char>, plain: Seq<char>)
    requires
        v.text_at("syncedLyrics"@) == Some(synced),
        v.text_at("plainLyrics"@) == Some(plain),
    ensures
        synced_lines(v) is Some <==> !text::blank(synced) && lrc::lrc(synced).len() > 0,
        synced_lines(v) matches Some(l) ==> l == lrc::lrc(synced),
        plain_lines(v) is Some <==> !text::blank(plain),
        plain_lines(v) matches Some(l) ==> l.len() == text::line_list(plain).len() && forall|
            i: int,
        |
            0 <= i < l.len() ==> (#[trigger] l[i]).0 == -1_000_000_000 && l[i].1 == text::trimmed(
                text::line_list(plain)[i],
            ),
        instrumental(v) <==> (v.at("instrumental"@) matches Some(j) && j == Json::Bool(true)),
        settles(v) <==> instrumental(v) || synced_lines(v) is Some,
{
}

/// The lyric of a reply is the text in it, where that is not blank.
pub proof fn replies_hold_their_lyric(reply: Json, inner: Json, s: Seq<char>)
    requires
        reply.at("lrc"@) == Some(inner),
        inner.text_at("lyric"@) == Some(s),
    ensures
        song_lyric(reply) == (if text::trimmed(s).len() == 0 {
            None
        } else {
            Some(s)
        }),
{
    text::trimmed_empty_iff_blank(s);
}

} // verus!
