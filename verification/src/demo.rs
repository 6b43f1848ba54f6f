//! The demonstration: everything that names a person, a message, a song or a place is
//! invented.

use vstd::prelude::*;
use crate::art;
use crate::art::AlbumArt;
use crate::discord;
use crate::discord::Voice;
use crate::lrc;
use crate::lrc::{LyricLine, Lyrics};
use crate::state;
use crate::state::{
    ActionKind, Discord, Doctor, GitStats, LiveSession, LiveSessions, MediaSource, MessageItem,
    Messages, MsgUi, MusicFacts, MusicStats, Queue, QueueTrack, TextChannel, VoiceChannel,
    WatchMeta, Weather,
};
use crate::text;
use crate::theme;
use crate::theme::DynamicTheme;

verus! {

/// What the board shows of people and media.
pub struct Scene {
    pub music: MusicStats,
    pub cover: AlbumArt,
    pub theme: DynamicTheme,
    pub lyrics: Lyrics,
    pub queue: Queue,
    pub facts: MusicFacts,
    pub messages: Messages,
    pub msg_ui: MsgUi,
    pub signal: Messages,
    pub discord: Discord,
    pub live: LiveSessions,
    pub doctor: Doctor,
    pub git: GitStats,
    pub weather: Weather,
}

// ---------------------------------------------------------------------------
// What can be recognised.
// ---------------------------------------------------------------------------

/// What a message gives away, opened or not.
#[verifier::ext_equal]
pub struct SeenMessage {
    pub chat_id: int,
    pub rowid: int,
    pub sender: Seq<char>,
    pub handle: Seq<char>,
    pub guid: Seq<char>,
    pub preview: Seq<char>,
    pub full_text: Seq<char>,
    pub ts_unix: int,
    pub rel: Seq<char>,
    pub is_rich: bool,
    pub unread: bool,
    pub from_me: bool,
    pub is_shortcode: bool,
}

/// What a text channel gives away.
#[verifier::ext_equal]
pub struct SeenChannel {
    pub name: Seq<char>,
    pub author: Seq<char>,
    pub preview: Seq<char>,
    pub rel: Seq<char>,
    pub unread: bool,
}

/// What a session gives away.
#[verifier::ext_equal]
pub struct SeenSession {
    pub session_id: Seq<char>,
    pub project: Seq<char>,
    pub branch: Seq<char>,
    pub model: Seq<char>,
    pub kind: ActionKind,
    pub action: Seq<char>,
    pub age: u64,
}

/// What a queued track gives away.
#[verifier::ext_equal]
pub struct SeenTrack {
    pub track: Seq<char>,
    pub artist: Seq<char>,
    pub duration: i64,
}

/// A message as it is seen.
pub open spec fn seen_message(m: MessageItem) -> SeenMessage {
    SeenMessage {
        chat_id: m.chat_id as int,
        rowid: m.rowid as int,
        sender: m.sender@,
        handle: m.handle@,
        guid: m.guid@,
        preview: m.preview@,
        full_text: m.full_text@,
        ts_unix: m.ts_unix as int,
        rel: m.rel@,
        is_rich: m.is_rich,
        unread: m.unread,
        from_me: m.from_me,
        is_shortcode: m.is_shortcode,
    }
}

/// Messages as they are seen.
pub open spec fn seen_messages(v: Seq<MessageItem>) -> Seq<SeenMessage> {
    Seq::new(v.len(), |i: int| seen_message(v[i]))
}

/// Text channels as they are seen.
pub open spec fn seen_channels(v: Seq<TextChannel>) -> Seq<SeenChannel> {
    Seq::new(
        v.len(),
        |i: int|
            SeenChannel {
                name: v[i].name@,
                author: v[i].author@,
                preview: v[i].preview@,
                rel: v[i].rel@,
                unread: v[i].unread,
            },
    )
}

/// A session as it is seen.
pub open spec fn seen_session(s: LiveSession) -> SeenSession {
    SeenSession {
        session_id: s.session_id@,
        project: s.project@,
        branch: s.branch@,
        model: s.model@,
        kind: s.kind,
        action: s.action@,
        age: s.age,
    }
}

/// Sessions as they are seen.
pub open spec fn seen_sessions(v: Seq<LiveSession>) -> Seq<SeenSession> {
    Seq::new(v.len(), |i: int| seen_session(v[i]))
}

/// A queued track as it is seen.
pub open spec fn seen_track(t: QueueTrack) -> SeenTrack {
    SeenTrack { track: t.track@, artist: t.artist@, duration: t.duration }
}

/// Queued tracks as they are seen.
pub open spec fn seen_tracks(v: Seq<QueueTrack>) -> Seq<SeenTrack> {
    Seq::new(v.len(), |i: int| seen_track(v[i]))
}

/// Everything on the board that names a person, a message, a song or a place.
#[verifier::ext_equal]
pub struct Faces {
    pub track: Seq<char>,
    pub cover: Seq<[u8; 3]>,
    pub lyrics: Seq<(int, Seq<char>)>,
    pub lyrics_note: Seq<char>,
    pub queue: Seq<SeenTrack>,
    pub facts: Seq<Seq<char>>,
    pub facts_note: Seq<char>,
    pub facts_source: Seq<char>,
    pub draft: Seq<char>,
    pub messages: Seq<SeenMessage>,
    pub signal: Seq<SeenMessage>,
    pub voice: Seq<Voice>,
    pub channels: Seq<SeenChannel>,
    pub sessions: Seq<SeenSession>,
    pub repo: Seq<char>,
    pub branch: Seq<char>,
    pub commit: Seq<char>,
    pub commit_hash: Seq<char>,
    pub place: Seq<char>,
}

/// Everything in a scene that names a person, a message, a song or a place.
pub open spec fn faces(s: Scene) -> Faces {
    Faces {
        track: state::identity(s.music),
        cover: s.cover.px@,
        lyrics: lrc::cues(s.lyrics.lines@),
        lyrics_note: s.lyrics.note@,
        queue: seen_tracks(s.queue.items@),
        facts: text::texts(s.facts.lines@),
        facts_note: s.facts.note@,
        facts_source: s.facts.source@,
        draft: s.msg_ui.draft@,
        messages: seen_messages(s.messages.items@),
        signal: seen_messages(s.signal.items@),
        voice: discord::voices(s.discord.voice@),
        channels: seen_channels(s.discord.text@),
        sessions: seen_sessions(s.live.sessions@),
        repo: s.git.repo@,
        branch: s.git.branch@,
        commit: s.git.last_msg@,
        commit_hash: s.git.last_hash@,
        place: s.weather.location@,
    }
}

/// An invented message: nobody's, and with nothing behind its preview.
pub open spec fn said(
    sender: Seq<char>,
    preview: Seq<char>,
    rel: Seq<char>,
    unread: bool,
    from_me: bool,
) -> SeenMessage {
    SeenMessage {
        chat_id: 0,
        rowid: 0,
        sender,
        handle: seq![],
        guid: seq![],
        preview,
        full_text: preview,
        ts_unix: 0,
        rel,
        is_rich: false,
        unread,
        from_me,
        is_shortcode: false,
    }
}

/// The invented iMessage conversations.
pub open spec fn demo_messages() -> Seq<SeenMessage> {
    seq![
        said("Jordan"@, "are we still on for tonight?"@, "2m"@, true, false),
        said("Book Club"@, "Sam: chapter four wrecked me"@, "9m"@, true, false),
        said("Riley"@, "You: on my way"@, "14m"@, false, true),
        said("Coffee Crew"@, "Pat: who's in friday?"@, "1h"@, false, false),
        said("Dana"@, "You: 😂"@, "yd"@, false, true),
    ]
}

/// The invented Signal conversations.
pub open spec fn demo_signal() -> Seq<SeenMessage> {
    seq![
        said("Trailhead"@, "Max: 8am at the gates?"@, "6m"@, true, false),
        said("Kai"@, "You: sounds perfect"@, "1h"@, false, true),
        said("Studio"@, "Remy: new mix is up"@, "3h"@, false, false),
    ]
}

/// The invented lyrics.
pub open spec fn demo_lyrics() -> Seq<(int, Seq<char>)> {
    seq![
        (0int, "neon hums along the empty street"@),
        (8_500_000_000, "the engine warm beneath our feet"@),
        (17_000_000_000, "headlights paint the falling rain"@),
        (25_500_000_000, "chrome and violet, here again"@),
        (34_000_000_000, "hold the line, the night runs long"@),
        (42_500_000_000, "every signal turns to song"@),
        (51_000_000_000, "we drive until the morning shows"@),
        (59_500_000_000, "where the quiet river goes"@),
    ]
}

/// The invented queue.
pub open spec fn demo_queue() -> Seq<SeenTrack> {
    seq![
        SeenTrack {
            track: "Afterglow"@,
            artist: "Cassette Future"@,
            duration: 188_000_000_000,
        },
        SeenTrack { track: "Glass Avenue"@, artist: "Nightset"@, duration: 211_000_000_000 },
        SeenTrack { track: "Lightyears"@, artist: "Aria Volt"@, duration: 196_000_000_000 },
    ]
}

/// The invented facts.
pub open spec fn demo_facts() -> Seq<Seq<char>> {
    seq![
        "Demo mode — every name, message, and reading on screen is invented."@,
        "The render loop runs up to 120 fps while music plays."@,
        "Gauges interpolate between samples, so nothing ever steps."@,
        "The karaoke wipe tracks the real playback position."@,
    ]
}

/// The invented voice channels.
pub open spec fn demo_voice() -> Seq<Voice> {
    seq![
        Voice { name: "lounge"@, members: seq!["Pixel"@, "Echo"@, "Nova"@] },
        Voice { name: "co-work"@, members: seq!["Sol"@] },
    ]
}

/// The invented text channels.
pub open spec fn demo_channels() -> Seq<SeenChannel> {
    seq![
        SeenChannel {
            name: "general"@,
            author: "Echo"@,
            preview: "gm everyone"@,
            rel: "4m"@,
            unread: true,
        },
        SeenChannel {
            name: "builds"@,
            author: "Pixel"@,
            preview: "[image]"@,
            rel: "51m"@,
            unread: false,
        },
        SeenChannel {
            name: "music"@,
            author: "Nova"@,
            preview: "new playlist"@,
            rel: "2h"@,
            unread: false,
        },
    ]
}

/// An invented session: it is named after its project, on the main branch.
pub open spec fn working(
    project: Seq<char>,
    model: Seq<char>,
    kind: ActionKind,
    action: Seq<char>,
    age: u64,
) -> SeenSession {
    SeenSession { session_id: project, project, branch: "main"@, model, kind, action, age }
}

/// The invented sessions.
pub open spec fn demo_sessions() -> Seq<SeenSession> {
    seq![
        working("aurora-ui"@, "Opus"@, ActionKind::Edit, "editing panel.rs"@, 1_200_000_000),
        working("aurora-ui"@, "Opus"@, ActionKind::Run, "cargo build --release"@, 3_800_000_000),
        working("ledger"@, "Sonnet"@, ActionKind::Read, "scanning routes"@, 7_500_000_000),
        working("pipeline"@, "Haiku"@, ActionKind::Think, "thinking"@, 15_000_000_000),
        working("sandbox"@, "Sonnet"@, ActionKind::Idle, "awaiting you"@, 42_000_000_000),
    ]
}

/// Everything that the demonstration shows of people and media.
pub open spec fn demo_faces() -> Faces {
    Faces {
        track: "The Vapor Lines"@ + "|"@ + "Midnight Vector"@ + "|"@ + "Neon Horizons"@,
        cover: art::glow(),
        lyrics: demo_lyrics(),
        lyrics_note: seq![],
        queue: demo_queue(),
        facts: demo_facts(),
        facts_note: seq![],
        facts_source: "demo"@,
        draft: seq![],
        messages: demo_messages(),
        signal: demo_signal(),
        voice: demo_voice(),
        channels: demo_channels(),
        sessions: demo_sessions(),
        repo: "aurora-ui"@,
        branch: "main"@,
        commit: "feat(ui): glide the resource wave"@,
        commit_hash: "c0ffee1"@,
        place: "Harbor City"@,
    }
}

// ---------------------------------------------------------------------------
// Inventing.
// ---------------------------------------------------------------------------

fn message(sender: &str, preview: &str, rel: &str, unread: bool, from_me: bool) -> (r: MessageItem)
    ensures
        seen_message(r) == said(sender@, preview@, rel@, unread, from_me),
{
    MessageItem {
        chat_id: 0,
        rowid: 0,
        sender: sender.to_string(),
        handle: String::new(),
        guid: String::new(),
        preview: preview.to_string(),
        full_text: preview.to_string(),
        ts_unix: 0,
        rel: rel.to_string(),
        is_rich: false,
        unread,
        from_me,
        is_shortcode: false,
    }
}

fn invent_messages() -> (r: Vec<MessageItem>)
    ensures
        seen_messages(r@) == demo_messages(),
{
    let v: Vec<MessageItem> = vec![
        message("Jordan", "are we still on for tonight?", "2m", true, false),
        message("Book Club", "Sam: chapter four wrecked me", "9m", true, false),
        message("Riley", "You: on my way", "14m", false, true),
        message("Coffee Crew", "Pat: who's in friday?", "1h", false, false),
        message("Dana", "You: 😂", "yd", false, true),
    ];
    proof {
        assert(seen_messages(v@) =~= demo_messages());
    }
    v
}

fn invent_signal() -> (r: Vec<MessageItem>)
    ensures
        seen_messages(r@) == demo_signal(),
{
    let v: Vec<MessageItem> = vec![
        message("Trailhead", "Max: 8am at the gates?", "6m", true, false),
        message("Kai", "You: sounds perfect", "1h", false, true),
        message("Studio", "Remy: new mix is up", "3h", false, false),
    ];
    proof {
        assert(seen_messages(v@) =~= demo_signal());
    }
    v
}

pub(crate) fn cue_line(t: i64, s: &str) -> (r: LyricLine)
    ensures
        lrc::cue(r) == (t as int, s@),
{
    LyricLine { t, text: s.to_string() }
}

fn invent_lyrics() -> (r: Vec<LyricLine>)
    ensures
        lrc::cues(r@) == demo_lyrics(),
{
    let v: Vec<LyricLine> = vec![
        cue_line(0, "neon hums along the empty street"),
        cue_line(8_500_000_000, "the engine warm beneath our feet"),
        cue_line(17_000_000_000, "headlights paint the falling rain"),
        cue_line(25_500_000_000, "chrome and violet, here again"),
        cue_line(34_000_000_000, "hold the line, the night runs long"),
        cue_line(42_500_000_000, "every signal turns to song"),
        cue_line(51_000_000_000, "we drive until the morning shows"),
        cue_line(59_500_000_000, "where the quiet river goes"),
    ];
    proof {
        assert(lrc::cues(v@) =~= demo_lyrics());
    }
    v
}

pub(crate) fn queued(track: &str, artist: &str, duration: i64) -> (r: QueueTrack)
    ensures
        seen_track(r) == (SeenTrack { track: track@, artist: artist@, duration }),
{
    QueueTrack { track: track.to_string(), artist: artist.to_string(), duration }
}

fn invent_queue() -> (r: Vec<QueueTrack>)
    ensures
        seen_tracks(r@) == demo_queue(),
{
    let v: Vec<QueueTrack> = vec![
        queued("Afterglow", "Cassette Future", 188_000_000_000),
        queued("Glass Avenue", "Nightset", 211_000_000_000),
        queued("Lightyears", "Aria Volt", 196_000_000_000),
    ];
    proof {
        assert(seen_tracks(v@) =~= demo_queue());
    }
    v
}

fn invent_facts() -> (r: Vec<String>)
    ensures
        text::texts(r@) == demo_facts(),
{
    let v: Vec<String> = vec![
        "Demo mode — every name, message, and reading on screen is invented.".to_string(),
        "The render loop runs up to 120 fps while music plays.".to_string(),
        "Gauges interpolate between samples, so nothing ever steps.".to_string(),
        "The karaoke wipe tracks the real playback position.".to_string(),
    ];
    proof {
        assert(text::texts(v@) =~= demo_facts());
    }
    v
}

fn invent_voice() -> (r: Vec<VoiceChannel>)
    ensures
        discord::voices(r@) == demo_voice(),
{
    let lounge: Vec<String> = vec!["Pixel".to_string(), "Echo".to_string(), "Nova".to_string()];
    let work: Vec<String> = vec!["Sol".to_string()];
    proof {
        assert(text::texts(lounge@) =~= seq!["Pixel"@, "Echo"@, "Nova"@]);
        assert(text::texts(work@) =~= seq!["Sol"@]);
    }
    let v: Vec<VoiceChannel> = vec![
        VoiceChannel { name: "lounge".to_string(), members: lounge },
        VoiceChannel { name: "co-work".to_string(), members: work },
    ];
    proof {
        assert(discord::voices(v@) =~= demo_voice());
    }
    v
}

fn invent_channels() -> (r: Vec<TextChannel>)
    ensures
        seen_channels(r@) == demo_channels(),
{
    let v: Vec<TextChannel> = vec![
        TextChannel {
            name: "general".to_string(),
            author: "Echo".to_string(),
            preview: "gm everyone".to_string(),
            rel: "4m".to_string(),
            unread: true,
        },
        TextChannel {
            name: "builds".to_string(),
            author: "Pixel".to_string(),
            preview: "[image]".to_string(),
            rel: "51m".to_string(),
            unread: false,
        },
        TextChannel {
            name: "music".to_string(),
            author: "Nova".to_string(),
            preview: "new playlist".to_string(),
            rel: "2h".to_string(),
            unread: false,
        },
    ];
    proof {
        assert(seen_channels(v@) =~= demo_channels());
    }
    v
}

pub(crate) fn session(project: &str, model: &str, kind: ActionKind, action: &str, age: u64) -> (r: LiveSession)
    ensures
        seen_session(r) == working(project@, model@, kind, action@, age),
{
    LiveSession {
        session_id: project.to_string(),
        project: project.to_string(),
        branch: "main".to_string(),
        model: model.to_string(),
        action: action.to_string(),
        kind,
        age,
    }
}

fn invent_sessions() -> (r: Vec<LiveSession>)
    ensures
        seen_sessions(r@) == demo_sessions(),
{
    let v: Vec<LiveSession> = vec![
        session("aurora-ui", "Opus", ActionKind::Edit, "editing panel.rs", 1_200_000_000),
        session("aurora-ui", "Opus", ActionKind::Run, "cargo build --release", 3_800_000_000),
        session("ledger", "Sonnet", ActionKind::Read, "scanning routes", 7_500_000_000),
        session("pipeline", "Haiku", ActionKind::Think, "thinking", 15_000_000_000),
        session("sandbox", "Sonnet", ActionKind::Idle, "awaiting you", 42_000_000_000),
    ];
    proof {
        assert(seen_sessions(v@) =~= demo_sessions());
    }
    v
}

fn invent_music(now: u64) -> (r: MusicStats)
    ensures
        r.running && r.playing && r.polled,
        r.track@ == "Midnight Vector"@,
        r.artist@ == "The Vapor Lines"@,
        r.album@ == "Neon Horizons"@,
        r.duration == 204_000_000_000,
        r.base_pos == 0,
        r.sampled_at == now,
        r.source == MediaSource::Music,
        r.watch.blank(),
{
    MusicStats {
        running: true,
        playing: true,
        track: "Midnight Vector".to_string(),
        artist: "The Vapor Lines".to_string(),
        album: "Neon Horizons".to_string(),
        duration: 204_000_000_000,
        base_pos: 0,
        sampled_at: now,
        polled: true,
        source: MediaSource::Music,
        watch: WatchMeta::default(),
    }
}

/// The scene is the invented one: what names anybody or anything is invented, and the
/// cards agree with each other about the track.
pub open spec fn invented(before: Scene, now: u64, s: Scene) -> bool {
    &&& faces(s) == demo_faces()
    &&& s.music.running && s.music.playing && s.music.polled
    &&& s.music.track@ == "Midnight Vector"@ && s.music.artist@ == "The Vapor Lines"@
    &&& s.music.album@ == "Neon Horizons"@ && s.music.source == MediaSource::Music
    &&& s.music.watch.blank()
    &&& s.music.duration == 204_000_000_000 && s.music.base_pos == 0 && s.music.sampled_at == now
    &&& art::square(s.cover, demo_faces().track, art::glow())
    &&& theme::follows(s.theme, s.cover, now)
    &&& forall|i: int|
        0 <= i < 3 ==> theme::levels(#[trigger] s.theme.current@[i]) == theme::shown(
            before.theme,
            i,
            now,
        )
    &&& s.lyrics.synced && s.lyrics.track_id@ == demo_faces().track && s.lyrics.note@.len() == 0
    &&& s.queue.fresh && s.queue.source_track_id@ == demo_faces().track
    &&& s.facts.track_id@ == demo_faces().track && s.facts.source@ == "demo"@
        && s.facts.note@.len() == 0
    &&& s.messages == (Messages {
        unread_count: 2,
        items: s.messages.items,
        ..before.messages
    })
    &&& s.signal == (Messages { unread_count: 1, items: s.signal.items, ..before.signal })
    &&& s.msg_ui.active && s.msg_ui.calm()
    &&& s.discord == (Discord {
        voice: s.discord.voice,
        text: s.discord.text,
        voice_join_at: Some(now),
        ..before.discord
    })
    &&& s.live.fresh
    &&& s.doctor == (Doctor {
        running: false,
        last_outcome: s.doctor.last_outcome,
        ..before.doctor
    }) && s.doctor.last_outcome@ == "resolved"@
    &&& s.git.last_hash@ == "c0ffee1"@ && s.git.last_rel@ == "12 minutes ago"@
    &&& s.git == (GitStats {
        repo: s.git.repo,
        branch: s.git.branch,
        last_hash: s.git.last_hash,
        last_msg: s.git.last_msg,
        last_rel: s.git.last_rel,
        commits_today: 9,
        loc_added: 412,
        loc_removed: 88,
        merges_main: 1,
        pr_count: 3,
        ..before.git
    })
    &&& s.weather == (Weather { location: s.weather.location, ..before.weather })
}

/// Replaces everything in a scene that names a person, a message, a song or a place by
/// something invented; readings keep their values.
pub fn demo_anonymize(s: &mut Scene, now: u64)
    ensures
        invented(*old(s), now, *final(s)),
{
    s.music = invent_music(now);
    let id = s.music.track_id();
    s.cover = art::glowing(id.as_str());
    theme::dress(&mut s.theme, &s.cover, now);
    s.lyrics =
    Lyrics { lines: invent_lyrics(), synced: true, track_id: id.clone(), note: String::new() };
    s.queue = Queue { fresh: true, source_track_id: id.clone(), items: invent_queue() };
    s.facts =
    MusicFacts {
        track_id: id,
        lines: invent_facts(),
        note: String::new(),
        source: "demo".to_string(),
    };
    s.messages.unread_count = 2;
    s.messages.items = invent_messages();
    s.msg_ui = MsgUi::default();
    s.msg_ui.active = true;
    s.signal.unread_count = 1;
    s.signal.items = invent_signal();
    s.discord.voice = invent_voice();
    s.discord.text = invent_channels();
    s.discord.voice_join_at = Some(now);
    s.live = LiveSessions { fresh: true, sessions: invent_sessions() };
    s.doctor.running = false;
    s.doctor.last_outcome = "resolved".to_string();
    s.git.repo = "aurora-ui".to_string();
    s.git.branch = "main".to_string();
    s.git.last_hash = "c0ffee1".to_string();
    s.git.last_msg = "feat(ui): glide the resource wave".to_string();
    s.git.last_rel = "12 minutes ago".to_string();
    s.git.commits_today = 9;
    s.git.loc_added = 412;
    s.git.loc_removed = 88;
    s.git.merges_main = 1;
    s.git.pr_count = 3;
    s.weather.location = "Harbor City".to_string();
    proof {
        assert(s.msg_ui.draft@ =~= seq![]);
        assert(s.lyrics.note@ =~= seq![] && s.facts.note@ =~= seq![]);
        assert(faces(*s) =~= demo_faces());
    }
}

/// A message that leads to nobody, and holds no more than its preview shows.
pub open spec fn nobodys(m: MessageItem) -> bool {
    &&& m.handle@.len() == 0 && m.guid@.len() == 0 && m.full_text@ == m.preview@
    &&& m.chat_id == 0 && m.rowid == 0 && m.ts_unix == 0 && !m.is_rich && !m.is_shortcode
}

/// The demonstration never shows anything real: whatever the boards held, they end up
/// naming the same people, messages, songs and places under the same cover and in the
/// colours of that cover, and no message leads to anybody.
pub proof fn demo_shows_nothing_real(a: Scene, b: Scene, now: u64, x: Scene, y: Scene)
    requires
        invented(a, now, x),
        invented(b, now, y),
    ensures
        faces(x) == faces(y),
        x.cover.track_id@ == y.cover.track_id@,
        forall|i: int|
            0 <= i < 3 ==> theme::levels(#[trigger] x.theme.target@[i]) == theme::levels(
                y.theme.target@[i],
            ),
        x.music.watch.blank() && y.music.watch.blank(),
        forall|i: int|
            0 <= i < x.messages.items@.len() ==> nobodys(#[trigger] x.messages.items@[i]),
        forall|i: int| 0 <= i < x.signal.items@.len() ==> nobodys(#[trigger] x.signal.items@[i]),
{
    assert(seen_messages(x.messages.items@) == demo_messages());
    assert(seen_messages(x.signal.items@) == demo_signal());
    assert(seen_messages(x.messages.items@).len() == 5);
    assert(seen_messages(x.signal.items@).len() == 3);
    assert forall|i: int| 0 <= i < x.messages.items@.len() implies nobodys(
        #[trigger] x.messages.items@[i],
    ) by {
        assert(demo_messages()[i] == seen_message(x.messages.items@[i]));
        assert(i == 0 || i == 1 || i == 2 || i == 3 || i == 4);
    }
    assert forall|i: int| 0 <= i < x.signal.items@.len() implies nobodys(
        #[trigger] x.signal.items@[i],
    ) by {
        assert(demo_signal()[i] == seen_message(x.signal.items@[i]));
        assert(i == 0 || i == 1 || i == 2);
    }
}

/// The cards of the demonstration agree about the track: the cover, the theme, the
/// lyrics, the facts and the queue are those of what plays.
pub proof fn demo_is_about_one_track(a: Scene, now: u64, x: Scene)
    requires
        invented(a, now, x),
    ensures
        x.cover.track_id@ == state::identity(x.music),
        x.theme.source_track_id@ == state::identity(x.music),
        x.lyrics.track_id@ == state::identity(x.music),
        x.facts.track_id@ == state::identity(x.music),
        x.queue.source_track_id@ == state::identity(x.music),
{
    assert(faces(x).track == demo_faces().track);
}

/// The lyrics of the demonstration belong to its track, and their times run forward.
pub proof fn demo_lyrics_can_be_sung(a: Scene, now: u64, x: Scene)
    requires
        invented(a, now, x),
    ensures
        x.lyrics.track_id@ == state::identity(x.music),
        lrc::ordered(lrc::cues(x.lyrics.lines@)),
{
    assert(lrc::cues(x.lyrics.lines@) == demo_lyrics());
    assert(lrc::ordered(demo_lyrics()));
}

/// The counts agree with the conversations: as many are unread as the cards say, and these stand
/// first.
pub proof fn demo_counts_agree(a: Scene, now: u64, x: Scene, i: int)
    requires
        invented(a, now, x),
    ensures
        0 <= i < x.messages.items@.len() ==> x.messages.items@[i].unread == (i
            < x.messages.unread_count),
        0 <= i < x.signal.items@.len() ==> x.signal.items@[i].unread == (i
            < x.signal.unread_count),
        x.messages.unread_count <= x.messages.items@.len(),
        x.signal.unread_count <= x.signal.items@.len(),
{
    assert(faces(x).messages == demo_messages());
    assert(faces(x).signal == demo_signal());
    assert(seen_messages(x.messages.items@).len() == 5);
    assert(seen_messages(x.signal.items@).len() == 3);
    if 0 <= i < x.messages.items@.len() {
        assert(seen_messages(x.messages.items@)[i] == demo_messages()[i]);
    }
    if 0 <= i < x.signal.items@.len() {
        assert(seen_messages(x.signal.items@)[i] == demo_signal()[i]);
    }
}

/// The lyrics of the demonstration come every eight and a half seconds and end before the track
/// does; the track plays from its start.
pub proof fn demo_lyrics_come_evenly(a: Scene, now: u64, x: Scene, i: int)
    requires
        invented(a, now, x),
        0 <= i < lrc::cues(x.lyrics.lines@).len(),
    ensures
        lrc::cues(x.lyrics.lines@)[i].0 == 8_500_000_000 * i,
        lrc::cues(x.lyrics.lines@)[i].0 < x.music.duration,
        state::position_at(x.music, now) == 0,
{
    assert(faces(x).lyrics == demo_lyrics());
}

} // verus!
