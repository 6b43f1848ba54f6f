//! What the players answer, and how the playback clock follows them.

use vstd::prelude::*;
use crate::art::AlbumArt;
use crate::digits;
use crate::discord;
use crate::lrc::Lyrics;
use crate::media_cards;
use crate::state;
use crate::state::MusicStats;
use crate::text;

verus! {

/// A difference beyond this is a seek, not a drift.
pub const SEEK: i64 = 1_500_000_000;

// ---------------------------------------------------------------------------
// The player's answer.
// ---------------------------------------------------------------------------

/// What the player answered.
#[derive(Clone, Debug, PartialEq, Eq)]
pub enum Answer {
    /// The player does not run.
    NotRunning,
    /// The player runs without a track.
    Stopped,
    /// A track.
    Track(Poll),
    /// Something else.
    Garbled,
}

/// A track that the player is at.
#[derive(Clone, Debug, PartialEq, Eq)]
pub struct Poll {
    pub playing: bool,
    pub track: String,
    pub artist: String,
    pub album: String,
    pub duration: i64,
    pub position: i64,
}

/// The time that a field holds, zero where it holds none.
pub open spec fn time_in(s: Seq<char>) -> int {
    match digits::nanos(s) {
        Some(n) => n,
        None => 0,
    }
}

/// Reads the time that a field holds, zero where it holds none.
pub fn read_time(s: &[char]) -> (r: i64)
    ensures
        r == time_in(s@),
        -digits::TIME_LIMIT <= r <= digits::TIME_LIMIT,
{
    match digits::read_nanos(s) {
        Some(n) => n,
        None => 0,
    }
}

/// A poll holds what the fields of an answer say.
pub open spec fn polled(f: Seq<Seq<char>>, p: Poll) -> bool {
    &&& p.playing == discord::same_but_case(f[0], "playing"@)
    &&& p.track@ == f[1]
    &&& p.artist@ == f[2]
    &&& p.album@ == f[3]
    &&& p.duration == time_in(f[4])
    &&& p.position == time_in(f[5])
}

/// An answer says what a text says: a word, or six fields between tabs.
pub open spec fn answers(raw: Seq<char>, a: Answer) -> bool {
    let line = text::trimmed(raw);
    let f = text::fields(line, '\t');
    if line == "NOTRUNNING"@ {
        a is NotRunning
    } else if line == "STOPPED"@ || line.len() == 0 {
        a is Stopped
    } else if f.len() >= 6 {
        a matches Answer::Track(p) && polled(f, p) && -digits::TIME_LIMIT <= p.position
            <= digits::TIME_LIMIT
    } else {
        a is Garbled
    }
}

/// Reads the text of the player's answer.
pub fn read_answer(raw: &str) -> (r: Answer)
    ensures
        answers(raw@, r),
{
    let chars = text::chars_of(raw);
    let line = text::trim(chars.as_slice());
    let idle = text::chars_of("NOTRUNNING");
    let stopped = text::chars_of("STOPPED");
    if text::same(line, idle.as_slice()) {
        return Answer::NotRunning;
    }
    if text::same(line, stopped.as_slice()) || line.len() == 0 {
        return Answer::Stopped;
    }
    let f = text::split(line, '\t');
    proof {
        assert(text::views(f@).len() == f@.len());
    }
    if f.len() < 6 {
        return Answer::Garbled;
    }
    proof {
        assert(f@[0]@ == text::views(f@)[0]);
        assert(f@[1]@ == text::views(f@)[1]);
        assert(f@[2]@ == text::views(f@)[2]);
        assert(f@[3]@ == text::views(f@)[3]);
        assert(f@[4]@ == text::views(f@)[4]);
        assert(f@[5]@ == text::views(f@)[5]);
    }
    let playing = discord::alike(text::string_of(f[0]).as_str(), "playing");
    Answer::Track(
        Poll {
            playing,
            track: text::string_of(f[1]),
            artist: text::string_of(f[2]),
            album: text::string_of(f[3]),
            duration: read_time(f[4]),
            position: read_time(f[5]),
        },
    )
}

/// Reads the bytes of the player's answer.
pub fn probe_music(bytes: &[u8]) -> (r: Answer)
    ensures
        answers(text::lossy(bytes@), r),
{
    let raw = text::decode_lossy(bytes);
    read_answer(raw.as_str())
}

// ---------------------------------------------------------------------------
// The playback clock.
// ---------------------------------------------------------------------------

/// Where the clock takes the player to be.
pub open spec fn predicted(m: MusicStats, now: u64) -> int {
    if m.playing {
        m.base_pos + state::since(m.sampled_at, now)
    } else {
        m.base_pos as int
    }
}

/// The clock is set, not eased: the track or whether it plays has changed, or the player
/// has been moved.
pub open spec fn snaps(m: MusicStats, p: Poll, now: u64) -> bool {
    ||| m.track@ != p.track@ || m.artist@ != p.artist@ || m.album@ != p.album@
    ||| !m.playing
    ||| !p.playing
    ||| p.position - predicted(m, now) > SEEK
    ||| predicted(m, now) - p.position > SEEK
}

/// The position from which the clock goes on: the player's own, or a quarter of the way
/// towards it.
pub open spec fn next_base(m: MusicStats, p: Poll, now: u64) -> int {
    if snaps(m, p, now) {
        p.position as int
    } else {
        digits::bounded(predicted(m, now) + (p.position - predicted(m, now)) / 4)
    }
}

/// The state after an answer.
pub open spec fn followed(m: MusicStats, a: Answer, now: u64, r: MusicStats) -> bool {
    &&& r.polled
    &&& r.source == m.source
    &&& r.watch == m.watch
    &&& match a {
        Answer::Track(p) => {
            &&& r.running
            &&& r.playing == p.playing
            &&& r.track@ == p.track@
            &&& r.artist@ == p.artist@
            &&& r.album@ == p.album@
            &&& r.duration == p.duration
            &&& r.base_pos == next_base(m, p, now)
            &&& r.sampled_at == now
        },
        _ => {
            &&& r.running == (a is Stopped || (a is Garbled && m.running))
            &&& r.playing == (a is Garbled && m.playing)
            &&& r.track == m.track
            &&& r.artist == m.artist
            &&& r.album == m.album
            &&& r.duration == m.duration
            &&& r.base_pos == m.base_pos
            &&& r.sampled_at == m.sampled_at
        },
    }
}

/// Takes the player's answer over. The clock is eased towards the player, so that what
/// follows it never hitches.
pub fn follow(m: &mut MusicStats, a: Answer, now: u64)
    ensures
        followed(*old(m), a, now, *final(m)),
{
    match a {
        Answer::NotRunning => {
            m.running = false;
            m.playing = false;
        },
        Answer::Stopped => {
            m.running = true;
            m.playing = false;
        },
        Answer::Garbled => {},
        Answer::Track(p) => {
            let same = text::same_str(m.track.as_str(), p.track.as_str()) && text::same_str(
                m.artist.as_str(),
                p.artist.as_str(),
            ) && text::same_str(m.album.as_str(), p.album.as_str());
            let guess: i128 = if m.playing {
                m.base_pos as i128 + state::elapsed(m.sampled_at, now) as i128
            } else {
                m.base_pos as i128
            };
            let off: i128 = p.position as i128 - guess;
            let limit: i128 = SEEK as i128;
            let snap = !same || !m.playing || !p.playing || off > limit || off < -limit;
            let base: i64 = if snap {
                p.position
            } else {
                let step: i128 = if off >= 0 {
                    off / 4
                } else {
                    -((3 - off) / 4)
                };
                proof {
                    assert(step == off as int / 4);
                }
                digits::bound(guess + step)
            };
            m.running = true;
            m.playing = p.playing;
            m.track = p.track;
            m.artist = p.artist;
            m.album = p.album;
            m.duration = p.duration;
            m.base_pos = base;
            m.sampled_at = now;
        },
    }
    m.polled = true;
}

/// Following never overshoots: where the clock is eased, it ends up between where it was
/// and where the player is, and the distance at most three quarters of what it was.
pub proof fn easing_never_overshoots(m: MusicStats, p: Poll, now: u64)
    requires
        -digits::TIME_LIMIT <= p.position,
        !snaps(m, p, now),
    ensures
        ({
            let from = predicted(m, now);
            let to = p.position as int;
            let next = next_base(m, p, now);
            &&& from <= to ==> from <= next <= to && 4 * (to - next) <= 3 * (to - from) + 3
            &&& to <= from ==> to <= next <= from && 4 * (next - to) <= 3 * (from - to)
        }),
{
}

/// A clock that agrees with the player is left alone.
pub proof fn agreeing_clock_stays(m: MusicStats, p: Poll, now: u64)
    requires
        -digits::TIME_LIMIT <= p.position,
        p.position == predicted(m, now),
    ensures
        next_base(m, p, now) == predicted(m, now),
{
}

// ---------------------------------------------------------------------------
// Track changes.
// ---------------------------------------------------------------------------

/// The identity of the track, where one plays that is not the one known.
pub open spec fn newcomer(m: MusicStats, current: Seq<char>) -> Option<Seq<char>> {
    if media_cards::silent(m) || state::identity(m) == current {
        None
    } else {
        Some(state::identity(m))
    }
}

/// The identity of the track, where it is another than the one known: then its lyrics and
/// its cover are looked for.
pub fn new_track(m: &MusicStats, current: &str) -> (r: Option<String>)
    ensures
        match r {
            Some(id) => newcomer(*m, current@) == Some(id@),
            None => newcomer(*m, current@) is None,
        },
{
    if media_cards::is_silent(m) {
        return None;
    }
    let id = m.track_id();
    if text::same_str(id.as_str(), current) {
        None
    } else {
        Some(id)
    }
}

/// The lyrics while they are looked for: none, so that those of another song are never
/// shown.
pub fn loading_lyrics(id: &str) -> (r: Lyrics)
    ensures
        r.lines@.len() == 0,
        !r.synced,
        r.track_id@ == id@,
        r.note@ == "loading lyrics…"@,
{
    Lyrics {
        lines: Vec::new(),
        synced: false,
        track_id: id.to_string(),
        note: "loading lyrics…".to_string(),
    }
}

/// The cover while there is none.
pub fn no_art(id: &str) -> (r: AlbumArt)
    ensures
        crate::art::bare(r, id@),
{
    crate::art::art_of(id, None)
}

// ---------------------------------------------------------------------------
// Scripts.
// ---------------------------------------------------------------------------

/// The script up to the path of the file.
pub open spec fn artwork_head() -> Seq<char> {
    "\ntell application \"Music\"\n  if not (exists current track) then return \"NOTRACK\"\n  try\n    set d to data of artwork 1 of current track\n  on error\n    return \"NOART\"\n  end try\nend tell\nset fp to POSIX file \""@
}

/// The script behind the path of the file.
pub open spec fn artwork_tail() -> Seq<char> {
    "\"\ntry\n  set f to open for access fp with write permission\n  set eof f to 0\n  write d to f\n  close access f\non error\n  try\n    close access fp\n  end try\n  return \"WRITEERR\"\nend try\nreturn \"OK\"\n"@
}

/// The script that writes the cover of the current track to a file.
pub fn artwork_script(path: &str) -> (r: String)
    ensures
        r@ == artwork_head() + path@ + artwork_tail(),
{
    text::concat3(
        "\ntell application \"Music\"\n  if not (exists current track) then return \"NOTRACK\"\n  try\n    set d to data of artwork 1 of current track\n  on error\n    return \"NOART\"\n  end try\nend tell\nset fp to POSIX file \"",
        path,
        "\"\ntry\n  set f to open for access fp with write permission\n  set eof f to 0\n  write d to f\n  close access f\non error\n  try\n    close access fp\n  end try\n  return \"WRITEERR\"\nend try\nreturn \"OK\"\n",
    )
}

/// Did the script succeed?
pub fn script_ok(bytes: &[u8]) -> (r: bool)
    ensures
        r == (text::trimmed(text::lossy(bytes@)) == "OK"@),
{
    let raw = text::decode_lossy(bytes);
    text::same_str(text::trim_str(raw.as_str()).as_str(), "OK")
}

// ---------------------------------------------------------------------------
// Whatever plays on the machine.
// ---------------------------------------------------------------------------

/// What plays on the machine, in whatever application.
#[derive(Clone, Debug, PartialEq, Eq)]
pub struct NowPlaying {
    pub playing: bool,
    pub is_video: bool,
    pub title: String,
    pub artist: String,
    pub album: String,
    pub duration: i64,
    pub elapsed: i64,
}

/// The last line of a text, without white space around it.
pub open spec fn last_line(raw: Seq<char>) -> Seq<char> {
    let l = text::line_list(raw);
    if l.len() == 0 {
        seq![]
    } else {
        text::trimmed(l.last())
    }
}

/// There is something playing: seven fields, and a title or a length among them.
pub open spec fn something_plays(raw: Seq<char>) -> bool {
    let line = last_line(raw);
    let f = text::fields(line, '\t');
    line.len() > 0 && line != "NONE"@ && f.len() >= 7 && !(f[2].len() == 0 && time_in(f[5]) == 0)
}

/// What the helper printed is what plays.
pub open spec fn printed(raw: Seq<char>, np: NowPlaying) -> bool {
    let f = text::fields(last_line(raw), '\t');
    &&& np.playing == (f[0] == "1"@)
    &&& np.is_video == (f[1] == "1"@)
    &&& np.title@ == f[2]
    &&& np.artist@ == f[3]
    &&& np.album@ == f[4]
    &&& np.duration == time_in(f[5])
    &&& np.elapsed == time_in(f[6])
}

/// Reads what the helper printed: the last line counts.
pub fn read_now_playing(raw: &str) -> (r: Option<NowPlaying>)
    ensures
        r is Some == something_plays(raw@),
        r matches Some(np) ==> printed(raw@, np),
{
    let chars = text::chars_of(raw);
    let l = text::lines(chars.as_slice());
    proof {
        assert(text::views(l@).len() == l@.len());
    }
    if l.len() == 0 {
        return None;
    }
    let last = l[l.len() - 1];
    proof {
        assert(text::views(l@).last() == last@);
    }
    let line = text::trim(last);
    let none = text::chars_of("NONE");
    if line.len() == 0 || text::same(line, none.as_slice()) {
        return None;
    }
    let f = text::split(line, '\t');
    proof {
        assert(text::views(f@).len() == f@.len());
    }
    if f.len() < 7 {
        return None;
    }
    proof {
        assert(f@[0]@ == text::views(f@)[0]);
        assert(f@[1]@ == text::views(f@)[1]);
        assert(f@[2]@ == text::views(f@)[2]);
        assert(f@[3]@ == text::views(f@)[3]);
        assert(f@[4]@ == text::views(f@)[4]);
        assert(f@[5]@ == text::views(f@)[5]);
        assert(f@[6]@ == text::views(f@)[6]);
    }
    let duration: i64 = read_time(f[5]);
    if f[2].len() == 0 && duration == 0 {
        return None;
    }
    let one = text::chars_of("1");
    Some(
        NowPlaying {
            playing: text::same(f[0], one.as_slice()),
            is_video: text::same(f[1], one.as_slice()),
            title: text::string_of(f[2]),
            artist: text::string_of(f[3]),
            album: text::string_of(f[4]),
            duration,
            elapsed: read_time(f[6]),
        },
    )
}

/// Reads the bytes that the helper printed.
pub fn get(bytes: &[u8]) -> (r: Option<NowPlaying>)
    ensures
        r is Some == something_plays(text::lossy(bytes@)),
        r matches Some(np) ==> printed(text::lossy(bytes@), np),
{
    let raw = text::decode_lossy(bytes);
    read_now_playing(raw.as_str())
}

// ---------------------------------------------------------------------------
// What following promises.
// ---------------------------------------------------------------------------

/// After a poll of a track the clock is never more than a second and a half from the position
/// that the player reported, before it or behind it. It is at that position where it was more
/// than that away, in either direction, and where the track changed or one of the two stood
/// still; otherwise it goes a quarter of the way.
pub proof fn clock_stays_near_the_player(m: MusicStats, p: Poll, now: u64, r: MusicStats)
    requires
        followed(m, Answer::Track(p), now, r),
    ensures
        -1_500_000_000 <= r.base_pos - p.position <= 1_500_000_000,
        ({
            let gone = if m.playing && now > m.sampled_at {
                now - m.sampled_at
            } else {
                0
            };
            let off = p.position - (m.base_pos + gone);
            let jumps = off > 1_500_000_000 || off < -1_500_000_000 || !m.playing || !p.playing
                || m.track@ != p.track@ || m.artist@ != p.artist@ || m.album@ != p.album@;
            &&& jumps ==> r.base_pos == p.position
            &&& !jumps && -0x7fff_ffff_ffff_ffff <= m.base_pos + gone <= 0x7fff_ffff_ffff_ffff
                && -0x7fff_ffff_ffff_ffff <= p.position ==> off - 3 <= 4 * (r.base_pos - (
            m.base_pos + gone)) <= off
        }),
        r.sampled_at == now,
{
}

/// The board shows what the player answered: the track with its names, its length and whether
/// it plays; nothing plays in a player that is stopped or does not run; and an answer that
/// cannot be read changes nothing.
pub proof fn answers_are_shown(m: MusicStats, a: Answer, now: u64, r: MusicStats)
    requires
        followed(m, a, now, r),
    ensures
        a matches Answer::Track(p) ==> r.running && r.playing == p.playing && r.track@ == p.track@
            && r.artist@ == p.artist@ && r.album@ == p.album@ && r.duration == p.duration,
        a is Stopped ==> r.running && !r.playing,
        a is NotRunning ==> !r.running && !r.playing,
        a is Garbled ==> r == (MusicStats { polled: true, ..m }),
        a !is Track ==> r.track == m.track && r.artist == m.artist && r.album == m.album
            && r.base_pos == m.base_pos,
        r.polled,
        r.source == m.source && r.watch == m.watch,
{
}

/// Six texts with tabs between them are read as what they are: state, track, artist, album,
/// length and position, the last two as seconds.
pub proof fn answers_are_read_in_order(
    raw: Seq<char>,
    a: Answer,
    parts: Seq<Seq<char>>,
    length: int,
    at: int,
)
    requires
        answers(raw, a),
        parts.len() == 6,
        forall|i: int, j: int| 0 <= i < 6 && 0 <= j < parts[i].len() ==> parts[i][j] != '\t',
        text::trimmed(raw) == text::joined(parts, seq!['\t']),
        digits::nanos(parts[4]) == Some(length),
        digits::nanos(parts[5]) == Some(at),
    ensures
        a matches Answer::Track(p) && {
            &&& p.playing <==> parts[0].len() == 7 && forall|i: int|
                0 <= i < 7 ==> text::ascii_lower(parts[0][i]) == "playing"@[i]
            &&& p.track@ == parts[1]
            &&& p.artist@ == parts[2]
            &&& p.album@ == parts[3]
            &&& p.duration == length
            &&& p.position == at
        },
{
    let line = text::trimmed(raw);
    text::fields_of_joined(parts, '\t');
    assert(text::fields(line, '\t') == parts);
    text::joined_holds_separator(parts, '\t');
    reveal_strlit("NOTRUNNING");
    reveal_strlit("STOPPED");
    reveal_strlit("playing");
}

/// A track is new exactly when something plays or is paused under another identity than the
/// one known; then its own identity is told.
pub proof fn only_other_tracks_are_new(m: MusicStats, current: Seq<char>)
    ensures
        newcomer(m, current) matches Some(id) ==> id == state::identity(m) && id != current,
        newcomer(m, current) is None <==> state::identity(m) == current || !m.running
            || m.track@.len() == 0,
{
}

/// What the helper prints is read in order: whether it plays, whether it is a video, title,
/// artist, album, length and position, from the last line.
pub proof fn helper_is_read_in_order(raw: Seq<char>, np: NowPlaying, f: Seq<Seq<char>>)
    requires
        printed(raw, np),
        text::line_list(raw).len() > 0,
        text::fields(text::trimmed(text::line_list(raw).last()), '\t') == f,
        f.len() >= 7,
    ensures
        np.playing == (f[0] == "1"@),
        np.is_video == (f[1] == "1"@),
        np.title@ == f[2],
        np.artist@ == f[3],
        np.album@ == f[4],
        digits::nanos(f[5]) matches Some(n) ==> np.duration == n,
        digits::nanos(f[6]) matches Some(n) ==> np.elapsed == n,
        digits::nanos(f[5]) is None ==> np.duration == 0,
        digits::nanos(f[6]) is None ==> np.elapsed == 0,
{
}

/// Something plays where the last line has seven fields with a title or a length among them; not
/// where it is blank or says that nothing does.
pub proof fn helper_tells_whether_something_plays(raw: Seq<char>, f: Seq<Seq<char>>)
    requires
        text::line_list(raw).len() > 0,
        text::fields(text::trimmed(text::line_list(raw).last()), '\t') == f,
    ensures
        text::trimmed(text::line_list(raw).last()) == "NONE"@ ==> !something_plays(raw),
        text::trimmed(text::line_list(raw).last()).len() == 0 ==> !something_plays(raw),
        f.len() < 7 ==> !something_plays(raw),
        f.len() >= 7 && f[2].len() > 0 && text::trimmed(text::line_list(raw).last()) != "NONE"@
            && text::trimmed(text::line_list(raw).last()).len() > 0 ==> something_plays(raw),
        (f.len() >= 7 && f[2].len() == 0 && digits::nanos(f[5]) == Some(0int)) ==> !something_plays(
            raw,
        ),
{
}

} // verus!
