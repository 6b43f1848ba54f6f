//! The scene of a picture: contents that look real, for frames that are drawn without any
//! source.

use vstd::prelude::*;
use crate::art;
use crate::demo;
use crate::demo::{Scene, SeenTrack};
use crate::digits;
use crate::discord;
use crate::discord::Voice;
use crate::imessage;
use crate::lrc;
use crate::lrc::{LyricLine, Lyrics};
use crate::lyrics;
use crate::options;
use crate::state;
use crate::state::{
    ActionKind, Discord, Doctor, GitStats, KeyGroup, Keybinds, LiveSession, LiveSessions,
    MediaSource, MessageItem, Messages, MsgPhase, MsgUi, MusicFacts, MusicStats, Queue, QueueTrack,
    TextChannel, VoiceChannel, WatchInfo, WatchMeta, Weather,
};
use crate::text;
use crate::theme;
use crate::theme::DynamicTheme;
use crate::usage::UsageStats;

verus! {

/// What a picture is to show beside the usual.
#[derive(Clone, Copy, Debug, PartialEq, Eq, Structural)]
pub struct Wish {
    /// The reply input is open.
    pub compose: bool,
    /// A film or an episode is watched.
    pub watch: Watch,
    /// The doctor is at work.
    pub triage: bool,
    /// Somebody talks.
    pub speaking: bool,
}

/// What is watched in a picture.
#[derive(Clone, Copy, Debug, PartialEq, Eq, Structural)]
pub enum Watch {
    Nothing,
    Movie,
    Episode,
}

/// What is wished, from the words that say so: `movie` names a film and any other word an
/// episode, `running` sets the doctor to work, and any word that is not blank lets somebody
/// talk.
pub open spec fn wish_in(
    compose: bool,
    watch: Option<Seq<char>>,
    doctor: Option<Seq<char>>,
    talk: Option<Seq<char>>,
) -> Wish {
    Wish {
        compose,
        watch: match watch {
            None => Watch::Nothing,
            Some(kind) => if kind == "movie"@ {
                Watch::Movie
            } else {
                Watch::Episode
            },
        },
        triage: doctor == Some("running"@),
        speaking: talk is Some && !text::blank(talk->0),
    }
}

/// The text of an optional word.
pub open spec fn word(s: Option<String>) -> Option<Seq<char>> {
    match s {
        Some(w) => Some(w@),
        None => None,
    }
}

/// Reads what a picture is to show.
pub fn wish(
    compose: bool,
    watch: Option<String>,
    doctor: Option<String>,
    talk: Option<String>,
) -> (r: Wish)
    ensures
        r == wish_in(compose, word(watch), word(doctor), word(talk)),
{
    let watched = match &watch {
        None => Watch::Nothing,
        Some(kind) => if text::same_str(kind.as_str(), "movie") {
            Watch::Movie
        } else {
            Watch::Episode
        },
    };
    let triage = match &doctor {
        None => false,
        Some(step) => text::same_str(step.as_str(), "running"),
    };
    let speaking = match &talk {
        None => false,
        Some(t) => {
            let letters = text::chars_of(t.as_str());
            !text::is_blank(letters.as_slice())
        },
    };
    Wish { compose, watch: watched, triage, speaking }
}

/// The contents of a picture.
pub struct Sample {
    pub scene: Scene,
    pub watch_info: WatchInfo,
    pub keybinds: Keybinds,
    pub usage: UsageStats,
}

// ---------------------------------------------------------------------------
// Conversations.
// ---------------------------------------------------------------------------

/// A message says this.
pub open spec fn message_is(
    m: MessageItem,
    id: int,
    sender: Seq<char>,
    handle: Seq<char>,
    full: Seq<char>,
    rel: Seq<char>,
) -> bool {
    &&& m.chat_id == id && m.rowid == id
    &&& m.sender@ == sender && m.handle@ == handle && m.guid@.len() == 0
    &&& m.full_text@ == full && m.rel@ == rel && m.ts_unix == 0 && !m.is_shortcode
}

/// A message is marked like this.
pub open spec fn marked(m: MessageItem, rich: bool, unread: bool, from_me: bool) -> bool {
    m.is_rich == rich && m.unread == unread && m.from_me == from_me
}

/// The preview of a sampled message.
pub open spec fn preview_of(full: Seq<char>, from_me: bool) -> Seq<char> {
    let flat = imessage::one_line(full, imessage::PREVIEW_BUDGET as nat);
    if from_me {
        "You: "@ + flat
    } else {
        flat
    }
}

fn message(id: i64, sender: &str, handle: &str, preview: String, full: &str, rel: &str) -> (r:
    MessageItem)
    ensures
        message_is(r, id as int, sender@, handle@, full@, rel@),
        marked(r, false, false, false),
        r.preview == preview,
{
    MessageItem {
        chat_id: id,
        rowid: id,
        sender: sender.to_string(),
        handle: handle.to_string(),
        guid: String::new(),
        preview,
        full_text: full.to_string(),
        ts_unix: 0,
        rel: rel.to_string(),
        is_rich: false,
        unread: false,
        from_me: false,
        is_shortcode: false,
    }
}

/// What Mom wrote.
pub open spec fn long_text() -> Seq<char> {
    "can you call me when you get a chance? want to talk about the trip next month and what time works for everyone"@
}

/// The sampled conversations.
pub open spec fn chats(v: Seq<MessageItem>) -> bool {
    &&& v.len() == 5
    &&& message_is(v[0], 0, "Mom"@, "+15555550111"@, long_text(), "2m"@)
    &&& message_is(v[1], 1, "Family"@, ""@, "Dad: who's picking up grandma sunday?"@, "8m"@)
    &&& message_is(v[2], 2, "🦧 The Crew"@, ""@, "Josh: check mate 😎"@, "4h"@)
    &&& message_is(
        v[3],
        3,
        "Alex Rivera"@,
        "alex@example.com"@,
        "sounds good, see you then"@,
        "12m"@,
    )
    &&& message_is(v[4], 4, "Dad"@, "dad@example.com"@, "ok 👍"@, "yd"@)
    &&& forall|i: int|
        0 <= i < 5 ==> marked(#[trigger] v[i], false, i < 2, i == 4) && v[i].preview@
            == preview_of(v[i].full_text@, i == 4)
}

fn chat(id: i64, sender: &str, handle: &str, full: &str, rel: &str, unread: bool, from_me: bool) -> (r:
    MessageItem)
    ensures
        message_is(r, id as int, sender@, handle@, full@, rel@),
        marked(r, false, unread, from_me),
        r.preview@ == preview_of(full@, from_me),
{
    let flat = imessage::smart_preview(full, imessage::PREVIEW_BUDGET);
    let preview = if from_me {
        text::concat2("You: ", flat.as_str())
    } else {
        flat
    };
    let mut m = message(id, sender, handle, preview, full, rel);
    m.unread = unread;
    m.from_me = from_me;
    m
}

fn sample_chats() -> (r: Vec<MessageItem>)
    ensures
        chats(r@),
{
    let a = chat(
        0,
        "Mom",
        "+15555550111",
        "can you call me when you get a chance? want to talk about the trip next month and what time works for everyone",
        "2m",
        true,
        false,
    );
    let b = chat(1, "Family", "", "Dad: who's picking up grandma sunday?", "8m", true, false);
    let c = chat(2, "🦧 The Crew", "", "Josh: check mate 😎", "4h", false, false);
    let d = chat(
        3,
        "Alex Rivera",
        "alex@example.com",
        "sounds good, see you then",
        "12m",
        false,
        false,
    );
    let e = chat(4, "Dad", "dad@example.com", "ok 👍", "yd", false, true);
    let v: Vec<MessageItem> = vec![a, b, c, d, e];
    v
}

/// A Signal conversation says this; its preview is its text.
pub open spec fn signal_is(
    m: MessageItem,
    sender: Seq<char>,
    full: Seq<char>,
    rel: Seq<char>,
) -> bool {
    message_is(m, 0, sender, ""@, full, rel) && m.preview@ == full
}

/// The sampled Signal conversations.
pub open spec fn signals(v: Seq<MessageItem>) -> bool {
    &&& v.len() == 5
    &&& signal_is(v[0], "The Other CW Back Channel"@, "Elijah: [photo]"@, "6m"@)
    &&& signal_is(v[1], "Alex Stalmakov"@, "You: Feels bad man"@, "1h"@)
    &&& signal_is(v[2], "Marcin W"@, "You: Lmao"@, "9h"@)
    &&& signal_is(v[3], "Rob"@, "Oh cool! I was wondering what exists"@, "yd"@)
    &&& signal_is(v[4], "Adam"@, "You: Jesus"@, "yd"@)
    &&& forall|i: int|
        0 <= i < 5 ==> marked(#[trigger] v[i], i == 0, i == 0, i == 1 || i == 2 || i == 4)
}

fn signal(sender: &str, full: &str, rel: &str, fresh: bool, from_me: bool) -> (r: MessageItem)
    ensures
        signal_is(r, sender@, full@, rel@),
        marked(r, fresh, fresh, from_me),
{
    let mut m = message(0, sender, "", full.to_string(), full, rel);
    m.is_rich = fresh;
    m.unread = fresh;
    m.from_me = from_me;
    m
}

fn sample_signals() -> (r: Vec<MessageItem>)
    ensures
        signals(r@),
{
    let v: Vec<MessageItem> = vec![
        signal("The Other CW Back Channel", "Elijah: [photo]", "6m", true, false),
        signal("Alex Stalmakov", "You: Feels bad man", "1h", false, true),
        signal("Marcin W", "You: Lmao", "9h", false, true),
        signal("Rob", "Oh cool! I was wondering what exists", "yd", false, false),
        signal("Adam", "You: Jesus", "yd", false, true),
    ];
    v
}

/// The sampled voice channels.
pub open spec fn sample_voices() -> Seq<Voice> {
    seq![
        Voice { name: "200 club"@, members: seq!["Tehreet"@, "Cassie"@, "Marcin"@] },
        Voice { name: "gaming"@, members: seq!["Erik"@] },
    ]
}

/// A text channel says this.
pub open spec fn channel_is(
    c: TextChannel,
    name: Seq<char>,
    author: Seq<char>,
    preview: Seq<char>,
    rel: Seq<char>,
    unread: bool,
) -> bool {
    c.name@ == name && c.author@ == author && c.preview@ == preview && c.rel@ == rel && c.unread
        == unread
}

/// The sampled servers.
pub open spec fn servers(d: Discord, speaking: bool) -> bool {
    &&& d.fresh && d.available && d.voice_join_at is None && d.voice_speaking == speaking
    &&& !d.voice_speaking_tap && !d.voice_e2ee_blocked
    &&& discord::voices(d.voice@) == sample_voices()
    &&& d.text@.len() == 3
    &&& channel_is(
        d.text@[0],
        "battlestation"@,
        "mac-doctor"@,
        "load spike was a Steam shader compile"@,
        "4m"@,
        true,
    )
    &&& channel_is(d.text@[1], "actual-degenery"@, "Tehreet"@, "[image]"@, "53m"@, false)
    &&& channel_is(d.text@[2], "normies"@, "Tehreet"@, "[image]"@, "14h"@, false)
}

fn channel(name: &str, author: &str, preview: &str, rel: &str, unread: bool) -> (r: TextChannel)
    ensures
        channel_is(r, name@, author@, preview@, rel@, unread),
{
    TextChannel {
        name: name.to_string(),
        author: author.to_string(),
        preview: preview.to_string(),
        rel: rel.to_string(),
        unread,
    }
}

fn sample_servers(speaking: bool) -> (r: Discord)
    ensures
        servers(r, speaking),
{
    let club: Vec<String> = vec![
        "Tehreet".to_string(),
        "Cassie".to_string(),
        "Marcin".to_string(),
    ];
    let games: Vec<String> = vec!["Erik".to_string()];
    proof {
        assert(text::texts(club@) =~= seq!["Tehreet"@, "Cassie"@, "Marcin"@]);
        assert(text::texts(games@) =~= seq!["Erik"@]);
    }
    let voice: Vec<VoiceChannel> = vec![
        VoiceChannel { name: "200 club".to_string(), members: club },
        VoiceChannel { name: "gaming".to_string(), members: games },
    ];
    proof {
        assert(discord::voices(voice@) =~= sample_voices());
    }
    let channels: Vec<TextChannel> = vec![
        channel(
            "battlestation",
            "mac-doctor",
            "load spike was a Steam shader compile",
            "4m",
            true,
        ),
        channel("actual-degenery", "Tehreet", "[image]", "53m", false),
        channel("normies", "Tehreet", "[image]", "14h", false),
    ];
    Discord {
        fresh: true,
        available: true,
        voice,
        text: channels,
        voice_join_at: None,
        voice_speaking: speaking,
        voice_speaking_tap: false,
        voice_e2ee_blocked: false,
    }
}

// ---------------------------------------------------------------------------
// Music and film.
// ---------------------------------------------------------------------------

/// What plays in a picture.
pub open spec fn plays(m: MusicStats, w: Watch, now: u64) -> bool {
    &&& m.running && m.playing && m.polled && m.sampled_at == now
    &&& match w {
        Watch::Nothing => {
            &&& m.source == MediaSource::Music && m.watch.blank()
            &&& m.track@ == "Started From the Bottom"@ && m.artist@ == "Drake"@
            &&& m.album@ == "Nothing Was the Same (Deluxe)"@
            &&& m.duration == 173_900_000_000 && m.base_pos == 11_000_000_000
        },
        Watch::Movie => {
            &&& m.source == MediaSource::Tv && m.artist@.len() == 0 && m.album@.len() == 0
            &&& m.track@ == "Dune: Part Two"@ && m.watch.show@.len() == 0
            &&& m.duration == 9_966_000_000_000 && m.base_pos == 3_727_000_000_000
            &&& m.watch.season == 0 && m.watch.episode == 0 && m.watch.poster_url@.len() == 0
            &&& m.watch.year@ == "2024"@ && m.watch.genre@ == "Sci-Fi"@
            &&& m.watch.director@ == "Denis Villeneuve"@ && m.watch.kind@ == "movie"@
        },
        Watch::Episode => {
            &&& m.source == MediaSource::Tv && m.artist@.len() == 0 && m.album@.len() == 0
            &&& m.track@ == "Cold Harbor"@ && m.watch.show@ == "Severance"@
            &&& m.duration == 2_890_000_000_000 && m.base_pos == 1_042_000_000_000
            &&& m.watch.season == 2 && m.watch.episode == 10 && m.watch.poster_url@.len() == 0
            &&& m.watch.year@ == "2025"@ && m.watch.genre@ == "Thriller"@
            &&& m.watch.director@ == "Ben Stiller"@ && m.watch.kind@ == "TV show"@
        },
    }
}

fn sample_music(w: Watch, now: u64) -> (r: MusicStats)
    ensures
        plays(r, w, now),
{
    let mut m = MusicStats::new(now);
    m.running = true;
    m.playing = true;
    m.polled = true;
    match w {
        Watch::Nothing => {
            m.track = "Started From the Bottom".to_string();
            m.artist = "Drake".to_string();
            m.album = "Nothing Was the Same (Deluxe)".to_string();
            m.duration = 173_900_000_000;
            m.base_pos = 11_000_000_000;
        },
        Watch::Movie => {
            m.source = MediaSource::Tv;
            m.track = "Dune: Part Two".to_string();
            m.duration = 9_966_000_000_000;
            m.base_pos = 3_727_000_000_000;
            m.watch =
            WatchMeta {
                show: String::new(),
                season: 0,
                episode: 0,
                year: "2024".to_string(),
                genre: "Sci-Fi".to_string(),
                director: "Denis Villeneuve".to_string(),
                kind: "movie".to_string(),
                poster_url: String::new(),
            };
        },
        Watch::Episode => {
            m.source = MediaSource::Tv;
            m.track = "Cold Harbor".to_string();
            m.duration = 2_890_000_000_000;
            m.base_pos = 1_042_000_000_000;
            m.watch =
            WatchMeta {
                show: "Severance".to_string(),
                season: 2,
                episode: 10,
                year: "2025".to_string(),
                genre: "Thriller".to_string(),
                director: "Ben Stiller".to_string(),
                kind: "TV show".to_string(),
                poster_url: String::new(),
            };
        },
    }
    m
}

/// The sampled facts.
pub open spec fn sample_facts(tv: bool) -> Seq<Seq<char>> {
    if tv {
        seq![
            "Ben Stiller directs most of the series and shapes its eerie tone."@,
            "Adam Scott and Britt Lower lead as severed Lumon employees."@,
            "The Lumon offices were shot in Bell Labs' Holmdel, NJ complex."@,
            "The score is by Theodore Shapiro; the title sequence won an Emmy."@,
        ]
    } else {
        seq![
            "Drake's first solo #1 on the Billboard Hot 100."@,
            "The beat samples Whitney Houston's \"I'm Every Woman\" ad-libs."@,
            "Recorded in a single late-night session in Toronto."@,
            "The phrase became a meme long before the song dropped."@,
        ]
    }
}

fn facts_lines(tv: bool) -> (r: Vec<String>)
    ensures
        text::texts(r@) == sample_facts(tv),
{
    let v: Vec<String> = if tv {
        vec![
            "Ben Stiller directs most of the series and shapes its eerie tone.".to_string(),
            "Adam Scott and Britt Lower lead as severed Lumon employees.".to_string(),
            "The Lumon offices were shot in Bell Labs' Holmdel, NJ complex.".to_string(),
            "The score is by Theodore Shapiro; the title sequence won an Emmy.".to_string(),
        ]
    } else {
        vec![
            "Drake's first solo #1 on the Billboard Hot 100.".to_string(),
            "The beat samples Whitney Houston's \"I'm Every Woman\" ad-libs.".to_string(),
            "Recorded in a single late-night session in Toronto.".to_string(),
            "The phrase became a meme long before the song dropped.".to_string(),
        ]
    };
    proof {
        assert(text::texts(v@) =~= sample_facts(tv));
    }
    v
}

/// The sampled queue.
pub open spec fn sample_queue(tv: bool) -> Seq<SeenTrack> {
    if tv {
        seq![]
    } else {
        seq![
            SeenTrack {
                track: "NEW MAGIC WAND"@,
                artist: "Tyler, The Creator"@,
                duration: 195_000_000_000,
            },
            SeenTrack {
                track: "BagBak"@,
                artist: "Vince Staples"@,
                duration: 160_000_000_000,
            },
            SeenTrack {
                track: "Surround Sound (feat. 21 Savage & Baby Tate)"@,
                artist: "JID"@,
                duration: 229_000_000_000,
            },
        ]
    }
}

fn queue_items(tv: bool) -> (r: Vec<QueueTrack>)
    ensures
        demo::seen_tracks(r@) == sample_queue(tv),
{
    let v: Vec<QueueTrack> = if tv {
        Vec::new()
    } else {
        vec![
            demo::queued("NEW MAGIC WAND", "Tyler, The Creator", 195_000_000_000),
            demo::queued("BagBak", "Vince Staples", 160_000_000_000),
            demo::queued(
                "Surround Sound (feat. 21 Savage & Baby Tate)",
                "JID",
                229_000_000_000,
            ),
        ]
    };
    proof {
        assert(demo::seen_tracks(v@) =~= sample_queue(tv));
    }
    v
}

/// The sampled lyrics.
pub open spec fn sample_lyrics(tv: bool) -> Seq<(int, Seq<char>)> {
    if tv {
        seq![]
    } else {
        seq![
            (7_410_000_000int, "Started"@),
            (9_680_000_000, "(Zombie on the track)"@),
            (10_750_000_000, "Started from the bottom now we're here"@),
            (13_710_000_000, "Started from the bottom now my whole team here"@),
            (16_540_000_000, "Started from the bottom now we're here"@),
            (19_310_000_000, "Started from the bottom now the whole team here"@),
        ]
    }
}

fn lyric_lines(tv: bool) -> (r: Vec<LyricLine>)
    ensures
        lrc::cues(r@) == sample_lyrics(tv),
{
    let v: Vec<LyricLine> = if tv {
        Vec::new()
    } else {
        vec![
            demo::cue_line(7_410_000_000, "Started"),
            demo::cue_line(9_680_000_000, "(Zombie on the track)"),
            demo::cue_line(10_750_000_000, "Started from the bottom now we're here"),
            demo::cue_line(13_710_000_000, "Started from the bottom now my whole team here"),
            demo::cue_line(16_540_000_000, "Started from the bottom now we're here"),
            demo::cue_line(19_310_000_000, "Started from the bottom now the whole team here"),
        ]
    };
    proof {
        assert(lrc::cues(v@) =~= sample_lyrics(tv));
    }
    v
}

/// What is known of a sampled film.
pub open spec fn film_notes(w: WatchInfo, tv: bool, id: Seq<char>) -> bool {
    if tv {
        &&& w.track_id@ == id && w.note@.len() == 0 && w.director@ == "Ben Stiller"@
        &&& w.synopsis@
            == "A severed Lumon employee on the testing floor races to complete the mysterious Cold Harbor file as the boundary between his work and home selves collapses."@
        &&& text::texts(w.cast@) == seq![
            "Adam Scott"@,
            "Britt Lower"@,
            "Tramell Tillman"@,
            "Patricia Arquette"@,
            "John Turturro"@,
            "Christopher Walken"@,
            "Zach Cherry"@,
        ]
        &&& text::texts(w.producers@) == seq!["Ben Stiller"@, "Dan Erickson"@, "Mark Friedman"@]
    } else {
        &&& w.track_id@.len() == 0 && w.note@.len() == 0 && w.director@.len() == 0
        &&& w.synopsis@.len() == 0 && w.cast@.len() == 0 && w.producers@.len() == 0
    }
}

fn sample_film(tv: bool, id: String) -> (r: WatchInfo)
    ensures
        film_notes(r, tv, id@),
{
    if !tv {
        return WatchInfo {
            track_id: String::new(),
            synopsis: String::new(),
            director: String::new(),
            cast: Vec::new(),
            producers: Vec::new(),
            note: String::new(),
        };
    }
    let cast: Vec<String> = vec![
        "Adam Scott".to_string(),
        "Britt Lower".to_string(),
        "Tramell Tillman".to_string(),
        "Patricia Arquette".to_string(),
        "John Turturro".to_string(),
        "Christopher Walken".to_string(),
        "Zach Cherry".to_string(),
    ];
    let producers: Vec<String> = vec![
        "Ben Stiller".to_string(),
        "Dan Erickson".to_string(),
        "Mark Friedman".to_string(),
    ];
    proof {
        assert(text::texts(cast@) =~= seq![
            "Adam Scott"@,
            "Britt Lower"@,
            "Tramell Tillman"@,
            "Patricia Arquette"@,
            "John Turturro"@,
            "Christopher Walken"@,
            "Zach Cherry"@,
        ]);
        assert(text::texts(producers@) =~= seq![
            "Ben Stiller"@,
            "Dan Erickson"@,
            "Mark Friedman"@,
        ]);
    }
    WatchInfo {
        track_id: id,
        synopsis:
            "A severed Lumon employee on the testing floor races to complete the mysterious Cold Harbor file as the boundary between his work and home selves collapses.".to_string(),
        director: "Ben Stiller".to_string(),
        cast,
        producers,
        note: String::new(),
    }
}

// ---------------------------------------------------------------------------
// Work.
// ---------------------------------------------------------------------------

/// A session says this.
pub open spec fn session_is(
    s: LiveSession,
    project: Seq<char>,
    model: Seq<char>,
    kind: ActionKind,
    action: Seq<char>,
    age: u64,
) -> bool {
    demo::seen_session(s) == demo::working(project, model, kind, action, age)
}

/// The sampled sessions.
pub open spec fn sessions(v: Seq<LiveSession>) -> bool {
    &&& v.len() == 5
    &&& session_is(
        v[0],
        "battlestation"@,
        "Opus"@,
        ActionKind::Edit,
        "editing ui.rs"@,
        1_400_000_000,
    )
    &&& session_is(
        v[1],
        "battlestation"@,
        "Opus"@,
        ActionKind::Run,
        "cargo build --release"@,
        4_200_000_000,
    )
    &&& session_is(
        v[2],
        "dotfiles"@,
        "Sonnet"@,
        ActionKind::Read,
        "grep spawn_live"@,
        9_000_000_000,
    )
    &&& session_is(v[3], "syswatch"@, "Haiku"@, ActionKind::Think, "thinking"@, 17_000_000_000)
    &&& session_is(
        v[4],
        "homelab"@,
        "Sonnet"@,
        ActionKind::Idle,
        "awaiting you"@,
        48_000_000_000,
    )
}

fn sample_sessions() -> (r: Vec<LiveSession>)
    ensures
        sessions(r@),
{
    let v: Vec<LiveSession> = vec![
        demo::session("battlestation", "Opus", ActionKind::Edit, "editing ui.rs", 1_400_000_000),
        demo::session(
            "battlestation",
            "Opus",
            ActionKind::Run,
            "cargo build --release",
            4_200_000_000,
        ),
        demo::session("dotfiles", "Sonnet", ActionKind::Read, "grep spawn_live", 9_000_000_000),
        demo::session("syswatch", "Haiku", ActionKind::Think, "thinking", 17_000_000_000),
        demo::session("homelab", "Sonnet", ActionKind::Idle, "awaiting you", 48_000_000_000),
    ];
    v
}

/// The sampled doctor.
pub open spec fn doctor_is(d: Doctor, triage: bool) -> bool {
    &&& d.available && d.running == triage && d.incidents_total == 11 && d.today_cost == 34_000_000
        && d.last_actions@.len() == 0
    &&& d.step@ == (if triage {
        "local triage (qwen2.5:14b)…"@
    } else {
        ""@
    })
    &&& d.trigger@ == "runaway: rustc at 356% ≥ 220% · load1 28.0 ≥ 28.0"@
    &&& d.last_title@ == "rustc compile burst — self-resolved, system all-clear"@
    &&& d.last_outcome@ == "no-action-needed"@ && d.last_severity@ == "info"@
    &&& d.last_model@ == (if triage {
        "sonnet"@
    } else {
        "qwen2.5:14b"@
    })
    &&& d.last_rel@ == "12m"@
}

fn sample_doctor(triage: bool) -> (r: Doctor)
    ensures
        doctor_is(r, triage),
{
    Doctor {
        available: true,
        running: triage,
        step: if triage {
            "local triage (qwen2.5:14b)…".to_string()
        } else {
            "".to_string()
        },
        trigger: "runaway: rustc at 356% ≥ 220% · load1 28.0 ≥ 28.0".to_string(),
        last_title: "rustc compile burst — self-resolved, system all-clear".to_string(),
        last_outcome: "no-action-needed".to_string(),
        last_severity: "info".to_string(),
        last_model: if triage {
            "sonnet".to_string()
        } else {
            "qwen2.5:14b".to_string()
        },
        last_actions: Vec::new(),
        last_rel: "12m".to_string(),
        today_cost: 34_000_000,
        incidents_total: 11,
    }
}

/// The sampled repository.
pub open spec fn repository(g: GitStats) -> bool {
    &&& g.fresh && g.ok && g.branch@ == "main"@ && g.repo@ == "battlestation"@
    &&& g.dirty == 11 && g.untracked == 1 && g.staged == 0 && g.ahead == 2 && g.behind == 0
    &&& g.last_hash@ == "9a554a6"@ && g.last_rel@ == "16 minutes ago"@
    &&& g.last_msg@ == "feat(overseer): merge Robots Working card"@
    &&& g.commits_today == 7 && g.pr_count == 0 && g.loc_added == 10 && g.loc_removed == 0
    &&& g.branch_commits == 8 && g.merges_main == 0
}

fn sample_repository() -> (r: GitStats)
    ensures
        repository(r),
{
    GitStats {
        fresh: true,
        ok: true,
        branch: "main".to_string(),
        dirty: 11,
        untracked: 1,
        staged: 0,
        ahead: 2,
        behind: 0,
        last_hash: "9a554a6".to_string(),
        last_msg: "feat(overseer): merge Robots Working card".to_string(),
        last_rel: "16 minutes ago".to_string(),
        commits_today: 7,
        pr_count: 0,
        repo: "battlestation".to_string(),
        loc_added: 10,
        loc_removed: 0,
        branch_commits: 8,
        merges_main: 0,
    }
}

/// The sampled weather.
pub open spec fn fair(w: Weather) -> bool {
    &&& w.fresh && w.location@ == "Fond du Lac, WI"@ && w.desc@ == "Sunny"@ && w.icon@ == "☀"@
    &&& w.temp_f == 62 && w.feels_f == 62 && w.hi_f == 74 && w.lo_f == 49 && w.humidity == 62
    &&& w.wind_mph == 8 && w.wind_dir@ == "NW"@ && w.precip_chance == 12 && w.uv == 5
    &&& w.pressure_mb == 1014 && w.sunrise@ == "06:21"@ && w.sunset@ == "20:14"@
    &&& w.temp_strip@ == seq![58u64, 60, 63, 66, 70, 72, 74, 71, 67, 62, 57, 53]
}

fn sample_weather() -> (r: Weather)
    ensures
        fair(r),
{
    let strip: Vec<u64> = vec![58, 60, 63, 66, 70, 72, 74, 71, 67, 62, 57, 53];
    proof {
        assert(strip@ =~= seq![58u64, 60, 63, 66, 70, 72, 74, 71, 67, 62, 57, 53]);
    }
    Weather {
        fresh: true,
        location: "Fond du Lac, WI".to_string(),
        temp_f: 62,
        feels_f: 62,
        desc: "Sunny".to_string(),
        icon: "☀".to_string(),
        hi_f: 74,
        lo_f: 49,
        humidity: 62,
        wind_mph: 8,
        wind_dir: "NW".to_string(),
        precip_chance: 12,
        uv: 5,
        pressure_mb: 1014,
        sunrise: "06:21".to_string(),
        sunset: "20:14".to_string(),
        temp_strip: strip,
    }
}

/// The sampled usage; the cost is four dollars and ten cents.
pub open spec fn busy(u: UsageStats) -> bool {
    &&& u.fresh && u.today_input == 7_200_000 && u.today_output == 818_000
    &&& u.today_cache_read == 17_957_000 && u.today_cache_write == 3_519_000
    &&& u.today_cost == 410_000_000 && u.today_messages == 342 && u.top_model@ == "Opus"@
    &&& u.sessions_today == 6 && u.tokens_7d == 1_840_000_000 && u.tokens_30d == 7_320_000_000
    &&& u.sessions_30d == 73
    &&& u.hourly@ == seq![
        0u64,
        0,
        0,
        0,
        0,
        0,
        0,
        12,
        40,
        88,
        120,
        64,
        30,
        55,
        90,
        140,
        110,
        70,
        0,
        0,
        0,
        0,
        0,
        0,
    ]
}

fn sample_usage() -> (r: UsageStats)
    ensures
        busy(r),
{
    let hourly: Vec<u64> = vec![
        0,
        0,
        0,
        0,
        0,
        0,
        0,
        12,
        40,
        88,
        120,
        64,
        30,
        55,
        90,
        140,
        110,
        70,
        0,
        0,
        0,
        0,
        0,
        0,
    ];
    UsageStats {
        fresh: true,
        today_input: 7_200_000,
        today_output: 818_000,
        today_cache_read: 17_957_000,
        today_cache_write: 3_519_000,
        today_cost: 410_000_000,
        today_messages: 342,
        top_model: "Opus".to_string(),
        sessions_today: 6,
        tokens_7d: 1_840_000_000,
        tokens_30d: 7_320_000_000,
        sessions_30d: 73,
        hourly,
    }
}

// ---------------------------------------------------------------------------
// Key bindings.
// ---------------------------------------------------------------------------

/// The texts of pairs.
pub open spec fn words_of(v: Seq<(&str, &str)>) -> Seq<(Seq<char>, Seq<char>)> {
    Seq::new(v.len(), |i: int| (v[i].0@, v[i].1@))
}

/// A group says this.
pub open spec fn group_is(
    g: KeyGroup,
    name: Seq<char>,
    binds: Seq<(Seq<char>, Seq<char>)>,
) -> bool {
    g.name@ == name && lyrics::pairs(g.binds@) == binds
}

fn group(name: &str, list: Vec<(&str, &str)>) -> (r: KeyGroup)
    ensures
        group_is(r, name@, words_of(list@)),
{
    let mut binds: Vec<(String, String)> = Vec::new();
    let mut i: usize = 0;
    while i < list.len()
        invariant
            i <= list@.len(),
            lyrics::pairs(binds@) == words_of(list@).take(i as int),
        decreases list@.len() - i,
    {
        let bind = list[i];
        let ghost before = binds@;
        binds.push((bind.0.to_string(), bind.1.to_string()));
        proof {
            assert(lyrics::pairs(binds@) =~= lyrics::pairs(before).push(words_of(list@)[i as int]));
            assert(words_of(list@).take(i + 1) =~= words_of(list@).take(i as int).push(
                words_of(list@)[i as int],
            ));
        }
        i += 1;
    }
    proof {
        assert(words_of(list@).take(i as int) =~= words_of(list@));
    }
    KeyGroup { name: name.to_string(), binds }
}

/// The bindings that open programs.
pub open spec fn app_keys() -> Seq<(Seq<char>, Seq<char>)> {
    seq![
        ("T"@, "Warp"@),
        ("C"@, "Google Chrome"@),
        ("F"@, "Finder"@),
        ("D"@, "Discord"@),
        ("M"@, "Music"@),
        ("N"@, "Music · next song"@),
        ("="@, "Music · volume +10%"@),
        ("-"@, "Music · volume -10%"@),
    ]
}

/// The bindings that place windows.
pub open spec fn window_keys() -> Seq<(Seq<char>, Seq<char>)> {
    seq![
        ("←"@, "left half"@),
        ("→"@, "right half"@),
        ("↑"@, "maximize"@),
        ("↓"@, "center 70%"@),
        ("1"@, "left third"@),
        ("2"@, "middle third"@),
        ("3"@, "right third"@),
        ("Z"@, "undo last move"@),
        ("V"@, "clipboard history"@),
        ("H"@, "toggle cheat sheet"@),
    ]
}

/// The bindings of the window mode.
pub open spec fn mode_keys() -> Seq<(Seq<char>, Seq<char>)> {
    seq![
        ("←"@, "left half"@),
        ("→"@, "right half"@),
        ("↑"@, "maximize"@),
        ("↓"@, "center 70%"@),
        ("hjkl"@, "nudge"@),
        ("escape"@, "exit"@),
    ]
}

/// The bindings that control windows.
pub open spec fn control_keys() -> Seq<(Seq<char>, Seq<char>)> {
    seq![
        ("←"@, "all windows → extended"@),
        ("→"@, "gather → main"@),
        ("R"@, "reload config"@),
        ("C"@, "close window"@),
        ("M"@, "minimize"@),
        ("↑"@, "maximize"@),
        ("↓"@, "restore 70%"@),
        ("= / −"@, "grow / shrink"@),
    ]
}

/// The bindings that switch displays.
pub open spec fn display_keys() -> Seq<(Seq<char>, Seq<char>)> {
    seq![
        ("["@, "Studio → LEFT · RIGHT to MacBook"@),
        ("]"@, "Studio → RIGHT · LEFT to MacBook"@),
        ("0"@, "bailout · reclaim BOTH panels"@),
    ]
}

/// The bindings that capture the screen.
pub open spec fn capture_keys() -> Seq<(Seq<char>, Seq<char>)> {
    seq![
        ("S"@, "selection screenshot → clipboard"@),
        ("R"@, "record window → Desktop"@),
    ]
}

/// The abbreviations that expand.
pub open spec fn text_keys() -> Seq<(Seq<char>, Seq<char>)> {
    seq![("@@"@, "email"@), (";dt"@, "date"@), (";shrug"@, "¯\\_(ツ)_/¯"@)]
}

/// The sampled key bindings.
pub open spec fn keys(k: Keybinds) -> bool {
    &&& k.available && k.hyper@ == "hold Caps Lock"@ && k.groups@.len() == 7
    &&& group_is(k.groups@[0], "Apps · Hyper+key"@, app_keys())
    &&& group_is(k.groups@[1], "Windows · Hyper+key"@, window_keys())
    &&& group_is(k.groups@[2], "Window mode · after Hyper+W"@, mode_keys())
    &&& group_is(k.groups@[3], "Controls · Ctrl+Alt+key"@, control_keys())
    &&& group_is(k.groups@[4], "Displays / KVM"@, display_keys())
    &&& group_is(k.groups@[5], "Capture · Hyper+key"@, capture_keys())
    &&& group_is(k.groups@[6], "Text expansion"@, text_keys())
}

fn sample_apps() -> (r: KeyGroup)
    ensures
        group_is(r, "Apps · Hyper+key"@, app_keys()),
{
    let v: Vec<(&str, &str)> = vec![
        ("T", "Warp"),
        ("C", "Google Chrome"),
        ("F", "Finder"),
        ("D", "Discord"),
        ("M", "Music"),
        ("N", "Music · next song"),
        ("=", "Music · volume +10%"),
        ("-", "Music · volume -10%"),
    ];
    proof {
        assert(words_of(v@) =~= app_keys());
    }
    group("Apps · Hyper+key", v)
}

fn sample_windows() -> (r: KeyGroup)
    ensures
        group_is(r, "Windows · Hyper+key"@, window_keys()),
{
    let v: Vec<(&str, &str)> = vec![
        ("←", "left half"),
        ("→", "right half"),
        ("↑", "maximize"),
        ("↓", "center 70%"),
        ("1", "left third"),
        ("2", "middle third"),
        ("3", "right third"),
        ("Z", "undo last move"),
        ("V", "clipboard history"),
        ("H", "toggle cheat sheet"),
    ];
    proof {
        assert(words_of(v@) =~= window_keys());
    }
    group("Windows · Hyper+key", v)
}

fn sample_mode() -> (r: KeyGroup)
    ensures
        group_is(r, "Window mode · after Hyper+W"@, mode_keys()),
{
    let v: Vec<(&str, &str)> = vec![
        ("←", "left half"),
        ("→", "right half"),
        ("↑", "maximize"),
        ("↓", "center 70%"),
        ("hjkl", "nudge"),
        ("escape", "exit"),
    ];
    proof {
        assert(words_of(v@) =~= mode_keys());
    }
    group("Window mode · after Hyper+W", v)
}

fn sample_controls() -> (r: KeyGroup)
    ensures
        group_is(r, "Controls · Ctrl+Alt+key"@, control_keys()),
{
    let v: Vec<(&str, &str)> = vec![
        ("←", "all windows → extended"),
        ("→", "gather → main"),
        ("R", "reload config"),
        ("C", "close window"),
        ("M", "minimize"),
        ("↑", "maximize"),
        ("↓", "restore 70%"),
        ("= / −", "grow / shrink"),
    ];
    proof {
        assert(words_of(v@) =~= control_keys());
    }
    group("Controls · Ctrl+Alt+key", v)
}

fn sample_rest() -> (r: (KeyGroup, KeyGroup, KeyGroup))
    ensures
        group_is(r.0, "Displays / KVM"@, display_keys()),
        group_is(r.1, "Capture · Hyper+key"@, capture_keys()),
        group_is(r.2, "Text expansion"@, text_keys()),
{
    let displays: Vec<(&str, &str)> = vec![
        ("[", "Studio → LEFT · RIGHT to MacBook"),
        ("]", "Studio → RIGHT · LEFT to MacBook"),
        ("0", "bailout · reclaim BOTH panels"),
    ];
    let capture: Vec<(&str, &str)> = vec![
        ("S", "selection screenshot → clipboard"),
        ("R", "record window → Desktop"),
    ];
    let expand: Vec<(&str, &str)> = vec![
        ("@@", "email"),
        (";dt", "date"),
        (";shrug", "¯\\_(ツ)_/¯"),
    ];
    proof {
        assert(words_of(displays@) =~= display_keys());
        assert(words_of(capture@) =~= capture_keys());
        assert(words_of(expand@) =~= text_keys());
    }
    (
        group("Displays / KVM", displays),
        group("Capture · Hyper+key", capture),
        group("Text expansion", expand),
    )
}

fn sample_keys() -> (r: Keybinds)
    ensures
        keys(r),
{
    let rest = sample_rest();
    let groups: Vec<KeyGroup> = vec![
        sample_apps(),
        sample_windows(),
        sample_mode(),
        sample_controls(),
        rest.0,
        rest.1,
        rest.2,
    ];
    Keybinds { available: true, hyper: "hold Caps Lock".to_string(), groups }
}

// ---------------------------------------------------------------------------
// The picture.
// ---------------------------------------------------------------------------

/// The inbox of a picture: focused, and with a reply open where that is wished.
pub open spec fn inbox_is(u: MsgUi, compose: bool, now: u64) -> bool {
    &&& u.active && u.last_key_at is None && u.last_click_at is None
    &&& u.last_click_chat is None && u.send_failed_at is None
    &&& if compose {
        &&& u.composing && u.focus_chat_id == Some(0i64) && u.draft@ == "on my way"@
        &&& u.phase == MsgPhase::Opening && u.anim_start == Some(now)
    } else {
        u.calm()
    }
}

fn sample_inbox(compose: bool, first: i64, now: u64) -> (r: MsgUi)
    ensures
        first == 0 ==> inbox_is(r, compose, now),
{
    let mut u = MsgUi::default();
    u.active = true;
    if compose {
        u.focus_chat_id = Some(first);
        u.composing = true;
        u.draft = "on my way".to_string();
        u.phase = MsgPhase::Opening;
        u.anim_start = Some(now);
    }
    u
}

/// The contents of a picture are the sampled ones, and the cards agree about the track.
pub open spec fn sampled(
    w: Wish,
    writer: Seq<char>,
    kept: Seq<[u8; 3]>,
    now: u64,
    r: Sample,
) -> bool {
    let s = r.scene;
    let tv = w.watch != Watch::Nothing;
    let id = state::identity(s.music);
    &&& plays(s.music, w.watch, now)
    &&& art::square(s.cover, id, art::sample_cover(kept))
    &&& theme::follows(s.theme, s.cover, now)
    &&& theme::levels(s.theme.current@[0]) == theme::levels(theme::ACCENT_BASE)
    &&& theme::levels(s.theme.current@[1]) == theme::levels(theme::CYAN_BASE)
    &&& theme::levels(s.theme.current@[2]) == theme::levels(theme::PINK_BASE)
    &&& lrc::cues(s.lyrics.lines@) == sample_lyrics(tv) && s.lyrics.synced == !tv
    &&& s.lyrics.track_id@ == id && s.lyrics.note@ == (if tv {
        "▶ now watching"@
    } else {
        ""@
    })
    &&& s.queue.fresh && demo::seen_tracks(s.queue.items@) == sample_queue(tv)
    &&& s.queue.source_track_id@ == (if tv {
        ""@
    } else {
        id
    })
    &&& text::texts(s.facts.lines@) == sample_facts(tv) && s.facts.track_id@ == id
    &&& s.facts.source@ == writer && s.facts.note@.len() == 0
    &&& s.messages.fresh && s.messages.available && s.messages.unread_count == 2
    &&& chats(s.messages.items@)
    &&& inbox_is(s.msg_ui, w.compose, now)
    &&& s.signal.fresh && s.signal.available && s.signal.unread_count == 1
    &&& signals(s.signal.items@)
    &&& servers(s.discord, w.speaking)
    &&& s.live.fresh && sessions(s.live.sessions@)
    &&& doctor_is(s.doctor, w.triage)
    &&& repository(s.git)
    &&& fair(s.weather)
    &&& film_notes(r.watch_info, tv, id)
    &&& keys(r.keybinds)
    &&& busy(r.usage)
}

proof fn fresh_theme_shows_the_house(t: DynamicTheme, now: u64)
    requires
        t.blend_start == now,
    ensures
        forall|i: int| 0 <= i < 3 ==> #[trigger] theme::shown(t, i, now) == theme::levels(t.current@[i]),
{
    assert forall|i: int| 0 <= i < 3 implies #[trigger] theme::shown(t, i, now) == theme::levels(
        t.current@[i],
    ) by {
        let a = t.current@[i];
        let b = t.target@[i];
        theme::fading_has_ends(a.0, b.0, 0);
        theme::fading_has_ends(a.1, b.1, 0);
        theme::fading_has_ends(a.2, b.2, 0);
    }
}

/// The contents of a picture at a moment. The facts are signed by `writer`; `kept` are the
/// pixels of the last cover that was kept, none where none was.
pub fn sample_data(w: Wish, writer: &str, kept: Vec<[u8; 3]>, now: u64) -> (r: Sample)
    ensures
        sampled(w, writer@, kept@, now, r),
{
    let tv = match w.watch {
        Watch::Nothing => false,
        _ => true,
    };
    let music = sample_music(w.watch, now);
    let id = music.track_id();
    let cover = art::sample_album_art(id.as_str(), kept);
    let mut colours = DynamicTheme::new(now);
    let ghost house = colours;
    theme::dress(&mut colours, &cover, now);
    proof {
        fresh_theme_shows_the_house(house, now);
    }
    let lyrics = Lyrics {
        lines: lyric_lines(tv),
        synced: !tv,
        track_id: id.clone(),
        note: if tv {
            "▶ now watching".to_string()
        } else {
            "".to_string()
        },
    };
    let queue = Queue {
        fresh: true,
        source_track_id: if tv {
            "".to_string()
        } else {
            id.clone()
        },
        items: queue_items(tv),
    };
    let facts = MusicFacts {
        track_id: id.clone(),
        lines: facts_lines(tv),
        note: String::new(),
        source: writer.to_string(),
    };
    let chats = sample_chats();
    let first: i64 = chats[0].chat_id;
    let scene = Scene {
        music,
        cover,
        theme: colours,
        lyrics,
        queue,
        facts,
        messages: Messages { fresh: true, available: true, unread_count: 2, items: chats },
        msg_ui: sample_inbox(w.compose, first, now),
        signal: Messages {
            fresh: true,
            available: true,
            unread_count: 1,
            items: sample_signals(),
        },
        discord: sample_servers(w.speaking),
        live: LiveSessions { fresh: true, sessions: sample_sessions() },
        doctor: sample_doctor(w.triage),
        git: sample_repository(),
        weather: sample_weather(),
    };
    Sample {
        scene,
        watch_info: sample_film(tv, id),
        keybinds: sample_keys(),
        usage: sample_usage(),
    }
}

/// The scene as arguments ask for it: `--idle` pauses, `--nolyrics` shows that none were
/// found, `qopen=0` empties the queue, and a track that plays has run on by `t=`.
pub open spec fn posed(args: Seq<Seq<char>>, now: u64, before: Scene, after: Scene) -> bool {
    let plays = before.music.playing && !options::given(args, "--idle"@);
    &&& after.music == (if plays {
        MusicStats {
            base_pos: digits::bounded(before.music.base_pos + options::time_shown(args)) as i64,
            sampled_at: now,
            ..before.music
        }
    } else {
        MusicStats { playing: false, ..before.music }
    })
    &&& if options::given(args, "--nolyrics"@) {
        &&& after.lyrics.lines@.len() == 0 && !after.lyrics.synced
        &&& after.lyrics.track_id@ == state::identity(before.music)
        &&& after.lyrics.note@ == "no lyrics found"@
    } else {
        after.lyrics == before.lyrics
    }
    &&& if options::queue_shown(args) matches Some(q) && q.2 {
        &&& after.queue.items@.len() == 0 && after.queue.fresh == before.queue.fresh
        &&& after.queue.source_track_id == before.queue.source_track_id
    } else {
        after.queue == before.queue
    }
    &&& after.cover == before.cover && after.theme == before.theme
    &&& after.facts == before.facts && after.messages == before.messages && after.msg_ui == before.msg_ui
    &&& after.signal == before.signal && after.discord == before.discord && after.live == before.live
    &&& after.doctor == before.doctor && after.git == before.git && after.weather == before.weather
}

/// Arranges a scene as arguments ask for it.
pub fn pose(s: &mut Scene, args: &Vec<String>, now: u64)
    ensures
        posed(text::texts(args@), now, *old(s), *final(s)),
{
    if options::has(args, "--idle") {
        s.music.playing = false;
    }
    match options::queue_preview(args) {
        Some(q) => {
            if q.2 {
                s.queue.items = Vec::new();
            }
        },
        None => {},
    }
    if options::has(args, "--nolyrics") {
        s.lyrics =
        Lyrics {
            lines: Vec::new(),
            synced: false,
            track_id: s.music.track_id(),
            note: "no lyrics found".to_string(),
        };
    }
    let t: i64 = options::time_preview(args);
    if s.music.playing {
        s.music.base_pos = digits::bound(s.music.base_pos as i128 + t as i128);
        s.music.sampled_at = now;
    }
}

/// The sampled song is sung at its sampled place: the lyrics belong to the track, their
/// times run forward, and a line has begun when the picture is taken.
pub proof fn sample_is_sung(w: Wish, writer: Seq<char>, kept: Seq<[u8; 3]>, now: u64, r: Sample)
    requires
        w.watch == Watch::Nothing,
        sampled(w, writer, kept, now, r),
    ensures
        r.scene.lyrics.track_id@ == state::identity(r.scene.music),
        lrc::ordered(lrc::cues(r.scene.lyrics.lines@)),
        lrc::cues(r.scene.lyrics.lines@)[2].0 <= state::position_at(r.scene.music, now)
            < lrc::cues(r.scene.lyrics.lines@)[3].0,
{
    assert(lrc::cues(r.scene.lyrics.lines@) == sample_lyrics(false));
    assert(lrc::ordered(sample_lyrics(false)));
}

/// The counts of a picture agree with its conversations: as many are unread as the cards say.
pub proof fn sample_counts_agree(
    w: Wish,
    writer: Seq<char>,
    kept: Seq<[u8; 3]>,
    now: u64,
    r: Sample,
)
    requires
        sampled(w, writer, kept, now, r),
    ensures
        r.scene.messages.items@.filter(|m: MessageItem| m.unread).len()
            == r.scene.messages.unread_count,
        r.scene.signal.items@.filter(|m: MessageItem| m.unread).len()
            == r.scene.signal.unread_count,
{
    reveal_with_fuel(Seq::filter, 6);
    let v = r.scene.messages.items@;
    let s = r.scene.signal.items@;
    let f = |m: MessageItem| m.unread;
    assert(v.drop_last().drop_last().drop_last().drop_last().drop_last() =~= Seq::<
        MessageItem,
    >::empty());
    assert(s.len() <= 5);
}

/// A picture that is not idle shows its track so far on as the time says; an idle one stands
/// still.
pub proof fn pictures_run_on_by_the_time(
    args: Seq<Seq<char>>,
    now: u64,
    before: Scene,
    after: Scene,
)
    requires
        posed(args, now, before, after),
        before.music.playing,
        before.music.sampled_at == now,
        0 <= before.music.base_pos,
        0 <= options::time_shown(args),
        before.music.base_pos + options::time_shown(args) <= before.music.duration,
        before.music.base_pos + options::time_shown(args) <= digits::TIME_LIMIT,
    ensures
        !args.contains("--idle"@) ==> after.music.playing && state::position_at(after.music, now)
            == state::position_at(before.music, now) + options::time_shown(args),
        args.contains("--idle"@) ==> !after.music.playing && state::position_at(after.music, now)
            == state::position_at(before.music, now),
{
}

} // verus!
