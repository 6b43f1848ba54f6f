//! What the dashboard knows. Collectors write it; the cards read it.
//!
//! Times are whole nanoseconds. Points in time are counted from any fixed start
//! that the caller chooses; every function that needs the present takes it as
//! an argument.

use vstd::prelude::*;
use crate::digits;
use crate::lrc::Share;
use crate::text;

verus! {

/// How long ago something happened; nothing lies in the future.
pub open spec fn since(then: u64, now: u64) -> int {
    if then < now {
        now - then
    } else {
        0
    }
}

/// How long ago something happened.
pub fn elapsed(then: u64, now: u64) -> (r: u64)
    ensures
        r == since(then, now),
{
    if then < now {
        now - then
    } else {
        0
    }
}

/// The part of `length` that has passed since `then`, never more than all of it.
pub open spec fn share_passed(then: u64, now: u64, length: u64) -> (int, int) {
    if since(then, now) < length {
        (since(then, now), length as int)
    } else {
        (length as int, length as int)
    }
}

/// A share as numerator and denominator.
pub open spec fn ratio(s: Share) -> (int, int) {
    (s.num as int, s.den as int)
}

/// How much of `length` has passed since `then`.
pub fn passed_share(then: u64, now: u64, length: u64) -> (r: Share)
    ensures
        ratio(r) == share_passed(then, now, length),
{
    let e: u64 = elapsed(then, now);
    if e < length {
        Share { num: e, den: length }
    } else {
        Share { num: length, den: length }
    }
}

// ---------------------------------------------------------------------------
// Now playing.
// ---------------------------------------------------------------------------

/// Which app is feeding the now-playing band.
#[derive(Clone, Copy, Debug, PartialEq, Eq, Structural)]
pub enum MediaSource {
    Music,
    Tv,
}

impl Default for MediaSource {
    fn default() -> (r: Self)
        ensures
            r == MediaSource::Music,
    {
        MediaSource::Music
    }
}

/// What is known only of films and series.
#[derive(Clone, Debug)]
pub struct WatchMeta {
    /// Series name for an episode; empty for a movie.
    pub show: String,
    pub season: u32,
    pub episode: u32,
    pub year: String,
    pub genre: String,
    pub director: String,
    /// The player's media kind ("movie", "TV show", …).
    pub kind: String,
    /// Where a poster can be had.
    pub poster_url: String,
}

impl WatchMeta {
    /// Nothing is known of what is watched.
    pub open spec fn blank(self) -> bool {
        &&& self.show@.len() == 0 && self.year@.len() == 0 && self.genre@.len() == 0
        &&& self.director@.len() == 0 && self.kind@.len() == 0 && self.poster_url@.len() == 0
        &&& self.season == 0 && self.episode == 0
    }
}

impl Default for WatchMeta {
    fn default() -> (r: Self)
        ensures
            r.blank(),
    {
        WatchMeta {
            show: String::new(),
            season: 0,
            episode: 0,
            year: String::new(),
            genre: String::new(),
            director: String::new(),
            kind: String::new(),
            poster_url: String::new(),
        }
    }
}

/// The player.
#[derive(Clone, Debug)]
pub struct MusicStats {
    pub running: bool,
    pub playing: bool,
    pub track: String,
    pub artist: String,
    pub album: String,
    pub duration: i64,
    /// The player's position at `sampled_at`.
    pub base_pos: i64,
    pub sampled_at: u64,
    /// True once the player has been asked for the first time.
    pub polled: bool,
    pub source: MediaSource,
    /// Filled only when `source` is TV.
    pub watch: WatchMeta,
}

/// The text of the identity of a track.
pub open spec fn identity(m: MusicStats) -> Seq<char> {
    match m.source {
        MediaSource::Music => m.artist@ + "|"@ + m.track@ + "|"@ + m.album@,
        MediaSource::Tv => "tv|"@ + m.watch.show@ + "|"@ + m.track@ + "|S"@ + digits::dec(
            m.watch.season as nat,
        ) + "E"@ + digits::dec(m.watch.episode as nat),
    }
}

/// The playback position at a moment: it runs on while playing, no further than
/// the end of the track.
pub open spec fn position_at(m: MusicStats, now: u64) -> int {
    if m.playing {
        let moved = m.base_pos + since(m.sampled_at, now);
        let end = if m.duration > 0 {
            m.duration as int
        } else {
            0
        };
        if moved < end {
            moved
        } else {
            end
        }
    } else {
        m.base_pos as int
    }
}

impl MusicStats {
    /// A player that has not been asked yet.
    pub fn new(now: u64) -> (r: MusicStats)
        ensures
            !r.running && !r.playing && !r.polled,
            r.track@.len() == 0 && r.artist@.len() == 0 && r.album@.len() == 0,
            r.duration == 0 && r.base_pos == 0 && r.sampled_at == now,
            r.source == MediaSource::Music,
            r.watch.blank(),
    {
        MusicStats {
            running: false,
            playing: false,
            track: String::new(),
            artist: String::new(),
            album: String::new(),
            duration: 0,
            base_pos: 0,
            sampled_at: now,
            polled: false,
            source: MediaSource::Music,
            watch: WatchMeta::default(),
        }
    }

    /// The playback position at a moment.
    pub fn position(&self, now: u64) -> (r: i64)
        ensures
            r == position_at(*self, now),
    {
        if self.playing {
            let moved: i128 = self.base_pos as i128 + elapsed(self.sampled_at, now) as i128;
            let end: i64 = if self.duration > 0 {
                self.duration
            } else {
                0
            };
            if moved < end as i128 {
                moved as i64
            } else {
                end
            }
        } else {
            self.base_pos
        }
    }

    /// Stable identity for caching. It includes the source, the series and the
    /// episode, so a movie cannot collide with a song of the same name and each
    /// episode is an entry of its own.
    pub fn track_id(&self) -> (r: String)
        ensures
            r@ == identity(*self),
    {
        match self.source {
            MediaSource::Music => {
                let mut out = text::concat3(self.artist.as_str(), "|", self.track.as_str());
                out.append("|");
                out.append(self.album.as_str());
                out
            },
            MediaSource::Tv => {
                let mut out = text::concat3("tv|", self.watch.show.as_str(), "|");
                out.append(self.track.as_str());
                out.append("|S");
                digits::push_dec(&mut out, self.watch.season as u64);
                out.append("E");
                digits::push_dec(&mut out, self.watch.episode as u64);
                out
            },
        }
    }

    /// Is a film or a series playing?
    pub fn is_tv(&self) -> (r: bool)
        ensures
            r == (self.source == MediaSource::Tv),
    {
        match self.source {
            MediaSource::Tv => true,
            MediaSource::Music => false,
        }
    }
}

/// A character does not stand in a text.
pub open spec fn without(s: Seq<char>, c: char) -> bool {
    forall|i: int| 0 <= i < s.len() ==> #[trigger] s[i] != c
}

/// Two texts that a mark cuts are the same only where both sides are.
proof fn first_cut_is_unique(a: Seq<char>, b: Seq<char>, x: Seq<char>, y: Seq<char>, c: char)
    requires
        without(a, c),
        without(b, c),
        a + seq![c] + x == b + seq![c] + y,
    ensures
        a == b,
        x == y,
{
    let s = a + seq![c] + x;
    let t = b + seq![c] + y;
    assert(s[a.len() as int] == c && t[b.len() as int] == c);
    if a.len() < b.len() {
        assert(t[a.len() as int] == b[a.len() as int]);
    } else if b.len() < a.len() {
        assert(s[b.len() as int] == a[b.len() as int]);
    }
    assert forall|i: int| 0 <= i < a.len() implies #[trigger] a[i] == b[i] by {
        assert(s[i] == a[i] && t[i] == b[i]);
    }
    assert(s.len() == t.len());
    assert forall|i: int| 0 <= i < x.len() implies #[trigger] x[i] == y[i] by {
        assert(s[a.len() + 1 + i] == x[i] && t[b.len() + 1 + i] == y[i]);
    }
    assert(a =~= b && x =~= y);
}

proof fn numbers_hold_no_letter(n: nat)
    ensures
        without(digits::dec(n), 'E'),
{
    digits::dec_value(n);
    let d = digits::dec(n);
    assert forall|i: int| 0 <= i < d.len() implies #[trigger] d[i] != 'E' by {
        assert(digits::digit_value(d[i]) is Some);
    }
}

/// No name of a track holds the mark that its identity is made with.
pub open spec fn plainly_named(m: MusicStats) -> bool {
    &&& without(m.artist@, '|') && without(m.track@, '|') && without(m.album@, '|')
    &&& without(m.watch.show@, '|')
}

/// Identities tell tracks apart: a song is never taken for a film, songs are the same by
/// artist, title and album, and episodes by show, title, season and number.
pub proof fn identity_tells_tracks_apart(a: MusicStats, b: MusicStats)
    requires
        plainly_named(a),
        plainly_named(b),
    ensures
        a.source != b.source ==> identity(a) != identity(b),
        a.source == MediaSource::Music && b.source == MediaSource::Music ==> (identity(a)
            == identity(b) <==> a.artist@ == b.artist@ && a.track@ == b.track@ && a.album@
            == b.album@),
        a.source == MediaSource::Tv && b.source == MediaSource::Tv ==> (identity(a) == identity(b)
            <==> a.watch.show@ == b.watch.show@ && a.track@ == b.track@ && a.watch.season
            == b.watch.season && a.watch.episode == b.watch.episode),
{
    reveal_strlit("|");
    reveal_strlit("tv|");
    reveal_strlit("|S");
    reveal_strlit("E");
    if identity(a) == identity(b) {
        let (ah, ar) = identity_parts(a);
        let (bh, br) = identity_parts(b);
        first_cut_is_unique(ah.0, bh.0, ah.1 + seq!['|'] + ar, bh.1 + seq!['|'] + br, '|');
        first_cut_is_unique(ah.1, bh.1, ar, br, '|');
        if a.source == MediaSource::Tv && b.source == MediaSource::Tv {
            let x = episode_tail(a);
            let y = episode_tail(b);
            first_cut_is_unique(a.track@, b.track@, seq!['S'] + x, seq!['S'] + y, '|');
            assert((seq!['S'] + x).skip(1) =~= x && (seq!['S'] + y).skip(1) =~= y);
            numbers_hold_no_letter(a.watch.season as nat);
            numbers_hold_no_letter(b.watch.season as nat);
            first_cut_is_unique(
                digits::dec(a.watch.season as nat),
                digits::dec(b.watch.season as nat),
                digits::dec(a.watch.episode as nat),
                digits::dec(b.watch.episode as nat),
                'E',
            );
            digits::dec_value(a.watch.season as nat);
            digits::dec_value(b.watch.season as nat);
            digits::dec_value(a.watch.episode as nat);
            digits::dec_value(b.watch.episode as nat);
        } else if a.source == MediaSource::Tv {
            assert(br[a.track@.len() as int] == '|');
        } else if b.source == MediaSource::Tv {
            assert(ar[b.track@.len() as int] == '|');
        }
    }
}

spec fn episode_tail(m: MusicStats) -> Seq<char> {
    digits::dec(m.watch.season as nat) + seq!['E'] + digits::dec(m.watch.episode as nat)
}

/// An identity is two names and a rest, with marks between them.
proof fn identity_parts(m: MusicStats) -> (r: ((Seq<char>, Seq<char>), Seq<char>))
    requires
        plainly_named(m),
    ensures
        identity(m) == r.0.0 + seq!['|'] + (r.0.1 + seq!['|'] + r.1),
        without(r.0.0, '|') && without(r.0.1, '|'),
        m.source == MediaSource::Music ==> r == ((m.artist@, m.track@), m.album@),
        m.source == MediaSource::Tv ==> r.0.1 == m.watch.show@ && r.1 == m.track@ + seq!['|'] + (
        seq!['S'] + episode_tail(m)),
{
    reveal_strlit("|");
    reveal_strlit("tv|");
    reveal_strlit("|S");
    reveal_strlit("E");
    match m.source {
        MediaSource::Music => {
            assert(identity(m) =~= m.artist@ + seq!['|'] + (m.track@ + seq!['|'] + m.album@));
            ((m.artist@, m.track@), m.album@)
        },
        MediaSource::Tv => {
            let rest = m.track@ + seq!['|'] + (seq!['S'] + episode_tail(m));
            assert(identity(m) =~= seq!['t', 'v'] + seq!['|'] + (m.watch.show@ + seq!['|'] + rest));
            ((seq!['t', 'v'], m.watch.show@), rest)
        },
    }
}

/// While a track plays the position never runs back and never passes its end.
pub proof fn position_runs_forward(m: MusicStats, t: u64, u: u64)
    requires
        m.playing,
        t <= u,
    ensures
        position_at(m, t) <= position_at(m, u),
        0 <= m.duration ==> position_at(m, u) <= m.duration,
{
}

/// A paused track stays where it is.
pub proof fn paused_position_stays(m: MusicStats, t: u64, u: u64)
    requires
        !m.playing,
    ensures
        position_at(m, t) == position_at(m, u),
{
}

/// One upcoming track.
#[derive(Clone, Debug)]
pub struct QueueTrack {
    pub track: String,
    pub artist: String,
    pub duration: i64,
}

/// The next few tracks.
#[derive(Clone, Debug)]
pub struct Queue {
    pub fresh: bool,
    /// The track this queue was derived from.
    pub source_track_id: String,
    pub items: Vec<QueueTrack>,
}

/// Facts about the current track.
#[derive(Clone, Debug)]
pub struct MusicFacts {
    pub track_id: String,
    pub lines: Vec<String>,
    /// A status while there are none.
    pub note: String,
    pub source: String,
}

/// Synopsis and credits of what is being watched.
#[derive(Clone, Debug)]
pub struct WatchInfo {
    pub track_id: String,
    pub synopsis: String,
    pub director: String,
    pub cast: Vec<String>,
    pub producers: Vec<String>,
    pub note: String,
}

// ---------------------------------------------------------------------------
// The machine's surroundings.
// ---------------------------------------------------------------------------

/// The pulse of a git repository.
#[derive(Clone, Debug)]
pub struct GitStats {
    pub fresh: bool,
    pub ok: bool,
    pub branch: String,
    pub dirty: u32,
    pub untracked: u32,
    pub staged: u32,
    pub ahead: i32,
    pub behind: i32,
    pub last_hash: String,
    pub last_msg: String,
    pub last_rel: String,
    pub commits_today: u32,
    pub pr_count: u32,
    pub repo: String,
    pub loc_added: u32,
    pub loc_removed: u32,
    pub branch_commits: u32,
    pub merges_main: u32,
}

/// The weather.
#[derive(Clone, Debug)]
pub struct Weather {
    pub fresh: bool,
    pub location: String,
    pub temp_f: i32,
    pub feels_f: i32,
    pub desc: String,
    pub icon: String,
    pub hi_f: i32,
    pub lo_f: i32,
    pub humidity: i32,
    pub wind_mph: i32,
    pub wind_dir: String,
    pub precip_chance: i32,
    pub uv: i32,
    pub pressure_mb: i32,
    pub sunrise: String,
    pub sunset: String,
    /// The next forecast temperatures.
    pub temp_strip: Vec<u64>,
}

/// The state of the triage agent.
#[derive(Clone, Debug)]
pub struct Doctor {
    pub available: bool,
    /// A run is in flight.
    pub running: bool,
    pub step: String,
    pub trigger: String,
    pub last_title: String,
    pub last_outcome: String,
    pub last_severity: String,
    pub last_model: String,
    pub last_actions: Vec<String>,
    pub last_rel: String,
    /// What the model was paid today, in hundred-millionths of a dollar.
    pub today_cost: u128,
    pub incidents_total: u64,
}

/// A group of key bindings.
#[derive(Clone, Debug)]
pub struct KeyGroup {
    pub name: String,
    /// Keys and description, in display order.
    pub binds: Vec<(String, String)>,
}

/// The key binding cheat sheet.
#[derive(Clone, Debug)]
pub struct Keybinds {
    pub available: bool,
    /// How "Hyper" is produced.
    pub hyper: String,
    pub groups: Vec<KeyGroup>,
}

/// What a live session is doing.
#[derive(Clone, Copy, Debug, PartialEq, Eq, Structural)]
pub enum ActionKind {
    Idle,
    Think,
    Run,
    Edit,
    Read,
    Web,
    Agent,
    Tool,
    Respond,
}

impl Default for ActionKind {
    fn default() -> (r: Self)
        ensures
            r == ActionKind::Idle,
    {
        ActionKind::Idle
    }
}

/// One live session.
#[derive(Clone, Debug)]
pub struct LiveSession {
    pub session_id: String,
    pub project: String,
    pub branch: String,
    pub model: String,
    pub action: String,
    pub kind: ActionKind,
    /// Time since its last event.
    pub age: u64,
}

/// The live sessions, newest first.
#[derive(Clone, Debug)]
pub struct LiveSessions {
    pub fresh: bool,
    pub sessions: Vec<LiveSession>,
}

// ---------------------------------------------------------------------------
// Messages.
// ---------------------------------------------------------------------------

/// One conversation, previewed by its latest message.
#[derive(Clone, Debug)]
pub struct MessageItem {
    pub chat_id: i64,
    pub rowid: i64,
    pub sender: String,
    pub handle: String,
    /// Where a reply goes; empty when none can be sent.
    pub guid: String,
    pub preview: String,
    pub full_text: String,
    /// When the latest message came.
    pub ts_unix: i64,
    /// How long ago that was, as text.
    pub rel: String,
    /// The message has no plain text.
    pub is_rich: bool,
    pub unread: bool,
    pub from_me: bool,
    pub is_shortcode: bool,
}

/// A list of conversations, newest first.
#[derive(Clone, Debug)]
pub struct Messages {
    pub fresh: bool,
    pub available: bool,
    pub unread_count: u32,
    pub items: Vec<MessageItem>,
}

/// A voice channel with somebody in it.
#[derive(Clone, Debug)]
pub struct VoiceChannel {
    pub name: String,
    pub members: Vec<String>,
}

/// A text channel and its last message.
#[derive(Clone, Debug)]
pub struct TextChannel {
    pub name: String,
    pub author: String,
    pub preview: String,
    pub rel: String,
    pub unread: bool,
}

/// Discord voice presence and recent text channels.
#[derive(Clone, Debug)]
pub struct Discord {
    pub fresh: bool,
    pub available: bool,
    pub voice: Vec<VoiceChannel>,
    pub text: Vec<TextChannel>,
    /// When somebody last joined.
    pub voice_join_at: Option<u64>,
    pub voice_speaking: bool,
    pub voice_speaking_tap: bool,
    pub voice_e2ee_blocked: bool,
}

/// The transition that the message card is in.
#[derive(Clone, Copy, Debug, PartialEq, Eq, Structural)]
pub enum MsgPhase {
    Idle,
    /// The focused message was marked read and the marker slides on.
    Advancing,
    /// The reply input opens.
    Opening,
    /// The reply leaves and the input closes.
    Sending,
    /// The input closes without a reply.
    Closing,
}

impl Default for MsgPhase {
    fn default() -> (r: Self)
        ensures
            r == MsgPhase::Idle,
    {
        MsgPhase::Idle
    }
}

/// How the message card is being used.
#[derive(Clone, Debug)]
pub struct MsgUi {
    /// The card is focused.
    pub active: bool,
    /// The focused conversation.
    pub focus_chat_id: Option<i64>,
    pub last_key_at: Option<u64>,
    pub last_click_at: Option<u64>,
    pub last_click_chat: Option<i64>,
    /// The reply input is open.
    pub composing: bool,
    pub draft: String,
    pub phase: MsgPhase,
    pub anim_start: Option<u64>,
    pub send_failed_at: Option<u64>,
}

impl MsgUi {
    /// Nothing is focused, written or moving.
    pub open spec fn calm(self) -> bool {
        &&& self.focus_chat_id is None && self.last_key_at is None
        &&& self.last_click_at is None && self.last_click_chat is None
        &&& !self.composing && self.draft@.len() == 0
        &&& self.phase == MsgPhase::Idle && self.anim_start is None
        &&& self.send_failed_at is None
    }
}

impl Default for MsgUi {
    fn default() -> (r: Self)
        ensures
            !r.active && r.calm(),
    {
        MsgUi {
            active: false,
            focus_chat_id: None,
            last_key_at: None,
            last_click_at: None,
            last_click_chat: None,
            composing: false,
            draft: String::new(),
            phase: MsgPhase::Idle,
            anim_start: None,
            send_failed_at: None,
        }
    }
}

impl MsgUi {
    /// The progress of the running transition over `length`; `None` when none runs.
    pub fn progress(&self, length: u64, now: u64) -> (r: Option<Share>)
        ensures
            r is Some == self.anim_start is Some,
            r matches Some(s) ==> ratio(s) == share_passed(self.anim_start->0, now, length),
    {
        match self.anim_start {
            Some(then) => Some(passed_share(then, now, length)),
            None => None,
        }
    }

    /// Is anything moving: an open input, a transition, or the failure flash?
    pub fn animating(&self) -> (r: bool)
        ensures
            r == (self.composing || self.phase != MsgPhase::Idle || self.send_failed_at is Some),
    {
        let idle = match self.phase {
            MsgPhase::Idle => true,
            _ => false,
        };
        self.composing || !idle || self.send_failed_at.is_some()
    }
}

/// A track that plays has run on by exactly the time since it was sampled, as long as it has not
/// come to its end; then it stays there.
pub proof fn playing_runs_in_real_time(m: MusicStats, gone: int, now: u64)
    requires
        m.playing,
        0 <= gone,
        now == m.sampled_at + gone,
        0 <= m.duration,
    ensures
        m.base_pos + gone <= m.duration ==> position_at(m, now) == m.base_pos + gone,
        m.base_pos + gone >= m.duration ==> position_at(m, now) == m.duration,
{
}

/// The share of a length that has passed is the time since its start out of that length, and
/// the whole once the length is over.
pub proof fn shares_pass_in_real_time(then: u64, length: u64, gone: int, now: u64)
    requires
        0 <= gone,
        now == then + gone,
    ensures
        gone <= length ==> share_passed(then, now, length) == (gone, length as int),
        gone >= length ==> share_passed(then, now, length) == (length as int, length as int),
        forall|early: u64| early <= then && length > 0 ==> (#[trigger] share_passed(then, early, length)).0
            == 0,
{
}

/// An identity is made of the names of the track: of a song the artist, the title and the album,
/// of an episode the show, the title, the season and the number.
pub proof fn identities_hold_the_names(m: MusicStats)
    ensures
        m.source == MediaSource::Music ==> identity(m) == m.artist@ + seq!['|'] + m.track@ + seq![
            '|',
        ] + m.album@,
        m.source == MediaSource::Tv ==> identity(m) == seq!['t', 'v', '|'] + m.watch.show@ + seq![
            '|',
        ] + m.track@ + seq!['|', 'S'] + digits::dec(m.watch.season as nat) + seq!['E']
            + digits::dec(m.watch.episode as nat),
{
    reveal_strlit("|");
    reveal_strlit("tv|");
    reveal_strlit("|S");
    reveal_strlit("E");
    assert("|"@ =~= seq!['|']);
    assert("tv|"@ =~= seq!['t', 'v', '|']);
    assert("|S"@ =~= seq!['|', 'S']);
    assert("E"@ =~= seq!['E']);
}

/// Nothing is known of what is watched exactly where no text is filled in and no season or
/// episode is told.
pub proof fn blank_films_say_nothing(w: WatchMeta)
    requires
        w.blank(),
    ensures
        w.show@ == Seq::<char>::empty() && w.year@ == Seq::<char>::empty(),
        w.genre@ == Seq::<char>::empty() && w.director@ == Seq::<char>::empty(),
        w.kind@ == Seq::<char>::empty() && w.poster_url@ == Seq::<char>::empty(),
        w.season == 0 && w.episode == 0,
{
}

} // verus!
