//! Finding lyrics: what to ask the catalogues, which answer to take, and what
//! to fall back on.
//!
//! LRCLIB is asked twice at once, for an exact record and by a search; the first
//! synced answer wins. NetEase stands behind it. A track that none of them knows
//! is a miss.

use vstd::prelude::*;
use crate::digits;
use crate::text;
use crate::titles;

verus! {

// ---------------------------------------------------------------------------
// Percent-encoding.
// ---------------------------------------------------------------------------

/// A byte that stands for itself in a query.
pub open spec fn unreserved(b: u8) -> bool {
    ||| 65 <= b <= 90
    ||| 97 <= b <= 122
    ||| 48 <= b <= 57
    ||| b == 45
    ||| b == 95
    ||| b == 46
    ||| b == 126
}

/// The uppercase hexadecimal digit of a number below sixteen.
pub open spec fn upper_hex(d: int) -> char {
    if d < 10 {
        digits::digit(d)
    } else if d == 10 {
        'A'
    } else if d == 11 {
        'B'
    } else if d == 12 {
        'C'
    } else if d == 13 {
        'D'
    } else if d == 14 {
        'E'
    } else {
        'F'
    }
}

/// How one byte is written in a query.
pub open spec fn byte_text(b: u8) -> Seq<char> {
    if unreserved(b) {
        seq![b as char]
    } else {
        seq!['%', upper_hex(b as int / 16), upper_hex(b as int % 16)]
    }
}

/// How bytes are written in a query.
pub open spec fn encoded(bytes: Seq<u8>) -> Seq<char>
    decreases bytes.len(),
{
    if bytes.len() == 0 {
        seq![]
    } else {
        encoded(bytes.drop_last()) + byte_text(bytes.last())
    }
}

fn upper_hex_char(d: u8) -> (r: char)
    requires
        d < 16,
    ensures
        r == upper_hex(d as int),
{
    if d < 10 {
        digits::digit_char(d as u64)
    } else if d == 10 {
        'A'
    } else if d == 11 {
        'B'
    } else if d == 12 {
        'C'
    } else if d == 13 {
        'D'
    } else if d == 14 {
        'E'
    } else {
        'F'
    }
}

/// Minimal percent-encoding for a query string.
pub fn urlencode(s: &str) -> (r: String)
    ensures
        r@ == encoded(vstd::utf8::encode_utf8(s@)),
{
    let bytes: &[u8] = s.as_bytes();
    let mut out = String::new();
    let mut i: usize = 0;
    while i < bytes.len()
        invariant
            i <= bytes@.len(),
            out@ == encoded(bytes@.take(i as int)),
        decreases bytes@.len() - i,
    {
        let b: u8 = bytes[i];
        let ghost before = out@;
        proof {
            assert(bytes@.take(i + 1).drop_last() =~= bytes@.take(i as int));
            assert(bytes@.take(i + 1).last() == b);
        }
        if (65 <= b && b <= 90) || (97 <= b && b <= 122) || (48 <= b && b <= 57) || b == 45 || b
            == 95 || b == 46 || b == 126 {
            out.push(b as char);
        } else {
            out.push('%');
            out.push(upper_hex_char(b / 16));
            out.push(upper_hex_char(b % 16));
        }
        proof {
            assert(out@ =~= before + byte_text(b));
        }
        i += 1;
    }
    proof {
        assert(bytes@.take(i as int) =~= bytes@);
    }
    out
}

/// The value of an uppercase hexadecimal digit.
pub open spec fn hex_value(c: char) -> int {
    if '0' <= c && c <= '9' {
        c as int - 48
    } else {
        c as int - 55
    }
}

/// Reads percent-encoded text back into bytes.
pub open spec fn decoded(s: Seq<char>) -> Seq<u8>
    decreases s.len(),
{
    if s.len() == 0 {
        seq![]
    } else if s[0] == '%' && s.len() >= 3 {
        seq![(hex_value(s[1]) * 16 + hex_value(s[2])) as u8] + decoded(s.skip(3))
    } else {
        seq![s[0] as u8] + decoded(s.skip(1))
    }
}

proof fn encoded_from_front(bytes: Seq<u8>)
    requires
        bytes.len() > 0,
    ensures
        encoded(bytes) == byte_text(bytes[0]) + encoded(bytes.drop_first()),
    decreases bytes.len(),
{
    if bytes.len() == 1 {
        assert(bytes.drop_last() =~= Seq::<u8>::empty());
        assert(bytes.drop_first() =~= Seq::<u8>::empty());
        assert(encoded(bytes) =~= byte_text(bytes[0]) + encoded(bytes.drop_first()));
    } else {
        encoded_from_front(bytes.drop_last());
        assert(bytes.drop_last().drop_first() =~= bytes.drop_first().drop_last());
        assert(encoded(bytes) =~= byte_text(bytes[0]) + (encoded(bytes.drop_first().drop_last())
            + byte_text(bytes.last())));
    }
}

/// Percent-encoded text reads back as the bytes it was made from.
pub proof fn encoding_reads_back(bytes: Seq<u8>)
    ensures
        decoded(encoded(bytes)) == bytes,
    decreases bytes.len(),
{
    if bytes.len() == 0 {
        assert(decoded(encoded(bytes)) =~= bytes);
    } else {
        let b = bytes[0];
        let rest = encoded(bytes.drop_first());
        encoded_from_front(bytes);
        encoding_reads_back(bytes.drop_first());
        let s = byte_text(b) + rest;
        if unreserved(b) {
            assert(s[0] == b as char);
            assert(s.skip(1) =~= rest);
            assert(s[0] as u8 == b);
            assert(s[0] != '%');
        } else {
            assert(s.skip(3) =~= rest);
            assert(hex_value(s[1]) == b as int / 16);
            assert(hex_value(s[2]) == b as int % 16);
        }
        assert(seq![b] + bytes.drop_first() =~= bytes);
    }
}

// ---------------------------------------------------------------------------
// What to ask.
// ---------------------------------------------------------------------------

/// One question for an exact record: artist, title, album.
pub open spec fn triple(t: (String, String, String)) -> (Seq<char>, Seq<char>, Seq<char>) {
    (t.0@, t.1@, t.2@)
}

/// The questions as texts.
pub open spec fn triples(v: Seq<(String, String, String)>) -> Seq<
    (Seq<char>, Seq<char>, Seq<char>),
> {
    Seq::new(v.len(), |i: int| triple(v[i]))
}

/// Each element once, where it first came.
pub open spec fn once<A>(list: Seq<A>) -> Seq<A>
    decreases list.len(),
{
    if list.len() == 0 {
        seq![]
    } else if list.drop_last().contains(list.last()) {
        once(list.drop_last())
    } else {
        once(list.drop_last()).push(list.last())
    }
}

/// Listing each element once neither loses nor repeats one.
pub proof fn once_keeps_each<A>(list: Seq<A>)
    ensures
        once(list).no_duplicates(),
        forall|x: A| once(list).contains(x) == list.contains(x),
    decreases list.len(),
{
    if list.len() > 0 {
        let front = list.drop_last();
        once_keeps_each(front);
        let all = once(list);
        let before = once(front);
        assert forall|x: A| all.contains(x) == list.contains(x) by {
            if list.contains(x) {
                let i = choose|i: int| 0 <= i < list.len() && list[i] == x;
                if i < front.len() {
                    assert(front[i] == x);
                    assert(front.contains(x));
                    let j = choose|j: int| 0 <= j < before.len() && before[j] == x;
                    assert(all[j] == x);
                } else if front.contains(x) {
                    let j = choose|j: int| 0 <= j < before.len() && before[j] == x;
                    assert(all[j] == x);
                } else {
                    assert(all[before.len() as int] == x);
                }
            }
            if all.contains(x) {
                let j = choose|j: int| 0 <= j < all.len() && all[j] == x;
                if j < before.len() {
                    assert(before[j] == x);
                    assert(front.contains(x));
                    let i = choose|i: int| 0 <= i < front.len() && front[i] == x;
                    assert(list[i] == x);
                } else {
                    assert(list[list.len() - 1] == x);
                }
            }
        }
        if !front.contains(list.last()) {
            assert forall|i: int, j: int|
                0 <= i < all.len() && 0 <= j < all.len() && i != j implies all[i] != all[j] by {
                if i == before.len() {
                    assert(before.contains(all[j]));
                } else if j == before.len() {
                    assert(before.contains(all[i]));
                } else {
                    assert(before[i] != before[j]);
                }
            }
        }
    }
}

/// The four questions for an exact record, from verbatim to forgiving.
pub open spec fn questions(
    artist: Seq<char>,
    track: Seq<char>,
    album: Seq<char>,
    primary: Seq<char>,
    title: Seq<char>,
    clean: Seq<char>,
) -> Seq<(Seq<char>, Seq<char>, Seq<char>)> {
    seq![
        (artist, track, album),
        (primary, title, seq![]),
        (primary, title, clean),
        (artist, title, seq![]),
    ]
}

fn holds_triple(list: &Vec<(String, String, String)>, a: &str, b: &str, c: &str) -> (r: bool)
    ensures
        r == triples(list@).contains((a@, b@, c@)),
{
    let mut i: usize = 0;
    while i < list.len()
        invariant
            i <= list@.len(),
            forall|j: int| 0 <= j < i ==> triples(list@)[j] != (a@, b@, c@),
        decreases list@.len() - i,
    {
        if text::same_str(list[i].0.as_str(), a) && text::same_str(list[i].1.as_str(), b)
            && text::same_str(list[i].2.as_str(), c) {
            proof {
                assert(triples(list@)[i as int] == (a@, b@, c@));
            }
            return true;
        }
        i += 1;
    }
    false
}

fn add_triple(list: &mut Vec<(String, String, String)>, a: &str, b: &str, c: &str)
    ensures
        triples(final(list)@) == if triples(old(list)@).contains((a@, b@, c@)) {
            triples(old(list)@)
        } else {
            triples(old(list)@).push((a@, b@, c@))
        },
{
    if !holds_triple(list, a, b, c) {
        list.push((a.to_string(), b.to_string(), c.to_string()));
        proof {
            assert(triples(list@) =~= triples(old(list)@).push((a@, b@, c@)));
        }
    }
}

proof fn once_step<A>(list: Seq<A>, n: int)
    requires
        0 <= n < list.len(),
    ensures
        once(list.take(n + 1)) == if once(list.take(n)).contains(list[n]) {
            once(list.take(n))
        } else {
            once(list.take(n)).push(list[n])
        },
{
    assert(list.take(n + 1).drop_last() =~= list.take(n));
    once_keeps_each(list.take(n));
}

/// The questions to put to LRCLIB for an exact record, each once: as the player
/// reports the track, with a cleaned title and no album, with a cleaned album,
/// and with the full artist.
pub fn get_variants(
    artist: &str,
    track: &str,
    album: &str,
    primary: &str,
    title: &str,
    clean: &str,
) -> (r: Vec<(String, String, String)>)
    ensures
        triples(r@) == once(questions(artist@, track@, album@, primary@, title@, clean@)),
{
    let ghost all = questions(artist@, track@, album@, primary@, title@, clean@);
    let mut list: Vec<(String, String, String)> = Vec::new();
    proof {
        reveal_strlit("");
        assert(""@ =~= Seq::<char>::empty());
        assert(triples(list@) =~= once(all.take(0)));
        once_step(all, 0);
        once_step(all, 1);
        once_step(all, 2);
        once_step(all, 3);
        assert(all.take(4) =~= all);
    }
    add_triple(&mut list, artist, track, album);
    add_triple(&mut list, primary, title, "");
    add_triple(&mut list, primary, title, clean);
    add_triple(&mut list, artist, title, "");
    list
}

/// The questions for a track as the player reports it.
pub fn questions_for(artist: &str, track: &str, album: &str) -> (r: Vec<(String, String, String)>)
    ensures
        triples(r@) == once(
            questions(
                artist@,
                track@,
                album@,
                titles::lead(artist@),
                titles::cleaned(track@),
                titles::cleaned(album@),
            ),
        ),
{
    let primary = titles::primary_artist(artist);
    let title = titles::clean_title(track);
    let clean = titles::clean_album(album);
    get_variants(artist, track, album, primary.as_str(), title.as_str(), clean.as_str())
}

/// A duration in whole seconds, rounded to the nearest, halves away from zero.
pub open spec fn whole_seconds(duration: int) -> int {
    if duration >= 0 {
        (duration + 500_000_000) / 1_000_000_000
    } else {
        -((-duration + 500_000_000) / 1_000_000_000)
    }
}

/// Name and value of one query parameter.
pub open spec fn pair(p: (String, String)) -> (Seq<char>, Seq<char>) {
    (p.0@, p.1@)
}

/// The parameters as texts.
pub open spec fn pairs(v: Seq<(String, String)>) -> Seq<(Seq<char>, Seq<char>)> {
    Seq::new(v.len(), |i: int| pair(v[i]))
}

/// The parameters of LRCLIB's exact lookup; an empty album is left out.
pub fn get_params(artist: &str, track: &str, album: &str, duration: i64) -> (r: Vec<
    (String, String),
>)
    ensures
        pairs(r@) == (seq![
            ("artist_name"@, artist@),
            ("track_name"@, track@),
            ("duration"@, digits::dec_int(whole_seconds(duration as int))),
        ] + if album@.len() == 0 {
            seq![]
        } else {
            seq![("album_name"@, album@)]
        }),
{
    let wide: i128 = duration as i128;
    let seconds: i64 = if duration >= 0 {
        ((wide + 500_000_000) / 1_000_000_000) as i64
    } else {
        -(((-wide + 500_000_000) / 1_000_000_000) as i64)
    };
    let mut out: Vec<(String, String)> = Vec::new();
    out.push(("artist_name".to_string(), artist.to_string()));
    out.push(("track_name".to_string(), track.to_string()));
    out.push(("duration".to_string(), digits::int_string(seconds)));
    proof {
        assert(pairs(out@) =~= seq![
            ("artist_name"@, artist@),
            ("track_name"@, track@),
            ("duration"@, digits::dec_int(whole_seconds(duration as int))),
        ]);
    }
    let v = text::chars_of(album);
    if v.len() > 0 {
        out.push(("album_name".to_string(), album.to_string()));
    }
    proof {
        assert(pairs(out@) =~= seq![
            ("artist_name"@, artist@),
            ("track_name"@, track@),
            ("duration"@, digits::dec_int(whole_seconds(duration as int))),
        ] + if album@.len() == 0 {
            seq![]
        } else {
            seq![("album_name"@, album@)]
        });
    }
    out
}

/// The parameters of LRCLIB's search; an empty artist is left out.
pub fn search_params(artist_query: &str, track_query: &str) -> (r: Vec<(String, String)>)
    ensures
        pairs(r@) == (seq![("track_name"@, track_query@)] + if artist_query@.len() == 0 {
            seq![]
        } else {
            seq![("artist_name"@, artist_query@)]
        }),
{
    let mut out: Vec<(String, String)> = Vec::new();
    out.push(("track_name".to_string(), track_query.to_string()));
    let v = text::chars_of(artist_query);
    if v.len() > 0 {
        out.push(("artist_name".to_string(), artist_query.to_string()));
    }
    proof {
        assert(pairs(out@) =~= seq![("track_name"@, track_query@)] + if artist_query@.len() == 0 {
            seq![]
        } else {
            seq![("artist_name"@, artist_query@)]
        });
    }
    out
}

/// The searches to make, broadening: title and lead artist, then the title
/// alone; once where they are the same.
pub fn search_attempts(title: &str, primary: &str) -> (r: Vec<(String, String)>)
    ensures
        pairs(r@) == once(seq![(title@, primary@), (title@, seq![])]),
{
    let ghost all = seq![(title@, primary@), (title@, Seq::<char>::empty())];
    let mut out: Vec<(String, String)> = Vec::new();
    out.push((title.to_string(), primary.to_string()));
    proof {
        assert(once(all.take(0)) =~= seq![]);
        once_step(all, 0);
        once_step(all, 1);
        assert(all.take(2) =~= all);
        assert(once(all.take(1)) =~= seq![(title@, primary@)]);
        assert(pairs(out@) =~= seq![(title@, primary@)]);
        assert(seq![(title@, primary@)].contains((title@, primary@))) by {
            assert(seq![(title@, primary@)][0] == (title@, primary@));
        }
    }
    let v = text::chars_of(primary);
    if v.len() > 0 {
        out.push((title.to_string(), String::new()));
        proof {
            assert(!seq![(title@, primary@)].contains((title@, Seq::<char>::empty())));
            assert(pairs(out@) =~= seq![(title@, primary@)].push(
                (title@, Seq::<char>::empty()),
            ));
        }
    } else {
        proof {
            assert(primary@ =~= Seq::<char>::empty());
        }
    }
    out
}

/// The address of NetEase's search for a track.
pub fn song_search_url(primary: &str, title: &str) -> (r: String)
    ensures
        r@ == "https://music.163.com/api/search/get?s="@ + encoded(
            vstd::utf8::encode_utf8(primary@ + " "@ + title@),
        ) + "&type=1&limit=8"@,
{
    let query = text::concat3(primary, " ", title);
    let safe = urlencode(query.as_str());
    text::concat3("https://music.163.com/api/search/get?s=", safe.as_str(), "&type=1&limit=8")
}

/// The address of the lyrics of a NetEase song.
pub fn song_lyric_url(id: i64) -> (r: String)
    ensures
        r@ == "https://music.163.com/api/song/lyric?id="@ + digits::dec_int(id as int)
            + "&lv=1&kv=1&tv=-1"@,
{
    let n = digits::int_string(id);
    text::concat3("https://music.163.com/api/song/lyric?id=", n.as_str(), "&lv=1&kv=1&tv=-1")
}

/// A track is asked for from the exact to the forgiving: as the player reports it, then by lead
/// artist and cleaned title without an album, then with the cleaned album, then by the full
/// artist; a question that was put before is not put again.
pub proof fn questions_broaden(
    artist: Seq<char>,
    track: Seq<char>,
    album: Seq<char>,
    primary: Seq<char>,
    title: Seq<char>,
    clean: Seq<char>,
)
    ensures
        ({
            let q = questions(artist, track, album, primary, title, clean);
            &&& q.len() == 4
            &&& q[0] == (artist, track, album)
            &&& q[1] == (primary, title, Seq::<char>::empty())
            &&& q[2] == (primary, title, clean)
            &&& q[3] == (artist, title, Seq::<char>::empty())
            &&& once(q).len() > 0 && once(q)[0] == (artist, track, album)
        }),
{
    let q = questions(artist, track, album, primary, title, clean);
    first_stays_first(q);
}

proof fn first_stays_first<A>(list: Seq<A>)
    requires
        list.len() > 0,
    ensures
        once(list).len() > 0,
        once(list)[0] == list[0],
    decreases list.len(),
{
    if list.len() > 1 {
        first_stays_first(list.drop_last());
    } else {
        assert(list.drop_last() =~= Seq::<A>::empty());
        assert(once(list.drop_last()) =~= Seq::<A>::empty());
    }
}

/// Listing each element once keeps the order in which they first came.
pub proof fn once_keeps_the_order<A>(list: Seq<A>, i: int, j: int)
    requires
        0 <= i < j < once(list).len(),
    ensures
        exists|a: int, b: int|
            0 <= a < b < list.len() && #[trigger] list[a] == once(list)[i] && #[trigger] list[b]
                == once(list)[j] && forall|c: int| 0 <= c < b ==> list[c] != once(list)[j],
    decreases list.len(),
{
    let before = list.drop_last();
    if list.len() > 0 {
        if before.contains(list.last()) || j < once(before).len() {
            once_keeps_the_order(before, i, j);
            let (a, b) = choose|a: int, b: int|
                0 <= a < b < before.len() && #[trigger] before[a] == once(before)[i]
                    && #[trigger] before[b] == once(before)[j] && forall|c: int|
                    0 <= c < b ==> before[c] != once(before)[j];
            assert(before[a] == list[a]);
            assert(list[a] == once(list)[i] && list[b] == once(list)[j]);
            assert forall|c: int| 0 <= c < b implies list[c] != once(list)[j] by {
                assert(before[c] == list[c]);
            }
        } else {
            once_keeps_each(before);
            assert(once(list) == once(before).push(list.last()));
            assert(once(before).contains(once(before)[i]));
            assert(before.contains(once(before)[i]));
            let a = choose|a: int| 0 <= a < before.len() && before[a] == once(before)[i];
            let b = list.len() - 1;
            assert(before[a] == list[a]);
            assert(list[a] == once(list)[i] && list[b] == once(list)[j]);
            assert forall|c: int| 0 <= c < b implies list[c] != once(list)[j] by {
                assert(before[c] == list[c]);
                assert(before.contains(before[c]));
            }
        }
    }
}

/// A length is asked for in the nearest whole seconds, halves going away from zero.
pub proof fn lengths_are_asked_in_nearest_seconds(d: int)
    ensures
        -500_000_000 <= 1_000_000_000 * whole_seconds(d) - d <= 500_000_000,
        whole_seconds(-d) == -whole_seconds(d),
        d >= 0 ==> 1_000_000_000 * whole_seconds(d) - d > -500_000_000,
{
}

/// In a query letters, digits and four marks stand for themselves, and every other byte is a
/// percent sign and two digits, so that nothing else ever stands there.
pub proof fn queries_hold_only_safe_characters(bytes: Seq<u8>)
    ensures
        forall|i: int|
            0 <= i < encoded(bytes).len() ==> {
                let c = #[trigger] encoded(bytes)[i];
                ||| 'A' <= c && c <= 'Z'
                ||| 'a' <= c && c <= 'z'
                ||| '0' <= c && c <= '9'
                ||| c == '-' || c == '_' || c == '.' || c == '~' || c == '%'
            },
    decreases bytes.len(),
{
    if bytes.len() > 0 {
        queries_hold_only_safe_characters(bytes.drop_last());
        let head = encoded(bytes.drop_last());
        let tail = byte_text(bytes.last());
        assert forall|i: int| 0 <= i < encoded(bytes).len() implies {
            let c = #[trigger] encoded(bytes)[i];
            ||| 'A' <= c && c <= 'Z'
            ||| 'a' <= c && c <= 'z'
            ||| '0' <= c && c <= '9'
            ||| c == '-' || c == '_' || c == '.' || c == '~' || c == '%'
        } by {
            if i < head.len() {
                assert(encoded(bytes)[i] == head[i]);
            } else {
                assert(encoded(bytes)[i] == tail[i - head.len()]);
            }
        }
    }
}

} // verus!
