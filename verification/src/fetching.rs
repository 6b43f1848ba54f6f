//! The course of one search for lyrics.
//!
//! Two LRCLIB requests run at the same time. The first synced answer ends the
//! search; when both came to nothing, or the time is up, NetEase is asked for
//! synced lines, then the plain text of the exact record is taken, then
//! NetEase's plain text. The performing side makes the requests and reports
//! what came back.

use vstd::prelude::*;
use crate::catalogue;
use crate::json::Json;
use crate::lrc;
use crate::lrc::{LyricLine, Lyrics};
use crate::text;

verus! {

/// How long the two LRCLIB requests are waited for, in nanoseconds.
pub const FETCH_BUDGET: u64 = 13_000_000_000;

/// What became of the miss log.
#[derive(Clone, Copy, Debug, PartialEq, Eq, Structural)]
pub enum MissNote {
    /// Nothing was looked for.
    Leave,
    /// The track is resolved: drop it from the log.
    Clear,
    /// Nothing was found: log the track.
    Log,
}

/// The end of a search.
pub struct Outcome {
    pub lyrics: Lyrics,
    pub miss: MissNote,
}

/// The search while LRCLIB is being waited for.
pub struct Listening {
    /// How many of the two requests have reported.
    pub received: u8,
    /// The exact record, if one came without synced lines.
    pub exact: Option<Json>,
}

/// What is heard from the two LRCLIB requests.
pub enum Report {
    /// The exact lookup is done.
    Get(Option<Json>),
    /// The search is done.
    Search(Option<Vec<LyricLine>>),
    /// The time is up, or nobody is left to report.
    Quiet,
}

/// What to do next.
pub enum Step {
    /// Wait for the next report.
    Listen(Listening),
    /// Ask NetEase for synced lines; the exact record is kept for later.
    AskSynced(Option<Json>),
    /// Ask NetEase for plain lines.
    AskPlain,
    /// The search is over.
    Done(Outcome),
}

impl Listening {
    /// At most one of the two requests has reported.
    pub open spec fn wf(self) -> bool {
        self.received <= 1
    }
}

/// An outcome with these lyrics.
pub open spec fn ends_with(
    o: Outcome,
    lines: Seq<(int, Seq<char>)>,
    synced: bool,
    id: Seq<char>,
    note: Seq<char>,
    miss: MissNote,
) -> bool {
    &&& lrc::cues(o.lyrics.lines@) == lines
    &&& o.lyrics.synced == synced
    &&& o.lyrics.track_id@ == id
    &&& o.lyrics.note@ == note
    &&& o.miss == miss
}

fn outcome(lines: Vec<LyricLine>, synced: bool, track_id: &str, note: &str, miss: MissNote) -> (r:
    Outcome)
    ensures
        ends_with(r, lrc::cues(lines@), synced, track_id@, note@, miss),
{
    Outcome {
        lyrics: Lyrics { lines, synced, track_id: track_id.to_string(), note: note.to_string() },
        miss,
    }
}

/// Starts a search. Without a title there is nothing to look for.
pub fn start(track: &str, track_id: &str) -> (r: Step)
    ensures
        track@.len() == 0 ==> (r matches Step::Done(o) && ends_with(
            o,
            seq![],
            false,
            track_id@,
            "no track"@,
            MissNote::Leave,
        )),
        track@.len() > 0 ==> (r matches Step::Listen(s) && s.received == 0 && s.exact is None),
{
    let v = text::chars_of(track);
    if v.len() == 0 {
        let lines: Vec<LyricLine> = Vec::new();
        proof {
            assert(lrc::cues(lines@) =~= seq![]);
        }
        Step::Done(outcome(lines, false, track_id, "no track", MissNote::Leave))
    } else {
        Step::Listen(Listening { received: 0, exact: None })
    }
}

/// The search goes on with what is known: it listens on until both requests
/// have reported.
pub open spec fn goes_on(r: Step, received: int, exact: Option<Json>) -> bool {
    if received < 2 {
        r matches Step::Listen(s) && s.received == received && s.exact == exact
    } else {
        r matches Step::AskSynced(e) && e == exact
    }
}

/// What a report leads to.
pub open spec fn heard(s: Listening, report: Report, id: Seq<char>, r: Step) -> bool {
    match report {
        Report::Quiet => r matches Step::AskSynced(e) && e == s.exact,
        Report::Search(Some(lines)) => r matches Step::Done(o) && ends_with(
            o,
            lrc::cues(lines@),
            true,
            id,
            ""@,
            MissNote::Clear,
        ),
        Report::Search(None) => goes_on(r, s.received + 1, s.exact),
        Report::Get(None) => goes_on(r, s.received + 1, None),
        Report::Get(Some(v)) => if catalogue::instrumental(v) {
            r matches Step::Done(o) && ends_with(
                o,
                seq![],
                false,
                id,
                "🎵 instrumental"@,
                MissNote::Clear,
            )
        } else if catalogue::synced_lines(v) is Some {
            r matches Step::Done(o) && ends_with(
                o,
                catalogue::synced_lines(v)->0,
                true,
                id,
                ""@,
                MissNote::Clear,
            )
        } else {
            goes_on(r, s.received + 1, Some(v))
        },
    }
}

fn go_on(received: u8, exact: Option<Json>) -> (r: Step)
    ensures
        goes_on(r, received as int, exact),
{
    if received < 2 {
        Step::Listen(Listening { received, exact })
    } else {
        Step::AskSynced(exact)
    }
}

/// Takes in one report. The first synced answer from either request ends the
/// search.
pub fn hear(s: Listening, report: Report, track_id: &str) -> (r: Step)
    requires
        s.wf(),
    ensures
        heard(s, report, track_id@, r),
        r matches Step::Listen(next) ==> next.wf(),
{
    match report {
        Report::Quiet => Step::AskSynced(s.exact),
        Report::Search(found) => match found {
            Some(lines) => Step::Done(outcome(lines, true, track_id, "", MissNote::Clear)),
            None => go_on(s.received + 1, s.exact),
        },
        Report::Get(answer) => match answer {
            None => go_on(s.received + 1, None),
            Some(v) => {
                if catalogue::is_instrumental(&v) {
                    let lines: Vec<LyricLine> = Vec::new();
                    proof {
                        assert(lrc::cues(lines@) =~= seq![]);
                    }
                    return Step::Done(
                        outcome(lines, false, track_id, "🎵 instrumental", MissNote::Clear),
                    );
                }
                match catalogue::synced_from(&v) {
                    Some(lines) => Step::Done(outcome(lines, true, track_id, "", MissNote::Clear)),
                    None => go_on(s.received + 1, Some(v)),
                }
            },
        },
    }
}

/// The plain lines of the exact record, where there is one.
pub open spec fn exact_plain(exact: Option<Json>) -> Option<Seq<(int, Seq<char>)>> {
    match exact {
        Some(v) => catalogue::plain_lines(v),
        None => None,
    }
}

/// What NetEase's synced lines lead to, beside the exact record.
pub open spec fn decided(
    exact: Option<Json>,
    found: Option<Vec<LyricLine>>,
    id: Seq<char>,
    r: Step,
) -> bool {
    match found {
        Some(lines) => r matches Step::Done(o) && ends_with(
            o,
            lrc::cues(lines@),
            true,
            id,
            "synced · netease"@,
            MissNote::Clear,
        ),
        None => match exact_plain(exact) {
            Some(lines) => r matches Step::Done(o) && ends_with(
                o,
                lines,
                false,
                id,
                "plain (no synced found)"@,
                MissNote::Clear,
            ),
            None => r is AskPlain,
        },
    }
}

/// Takes in NetEase's synced lines. They read better than plain text, so the
/// plain text of the exact record comes after them.
pub fn after_synced(exact: Option<Json>, found: Option<Vec<LyricLine>>, track_id: &str) -> (r: Step)
    ensures
        decided(exact, found, track_id@, r),
{
    match found {
        Some(lines) => {
            Step::Done(outcome(lines, true, track_id, "synced · netease", MissNote::Clear))
        },
        None => match exact {
            None => Step::AskPlain,
            Some(v) => match catalogue::plain_from(&v) {
                Some(lines) => Step::Done(
                    outcome(lines, false, track_id, "plain (no synced found)", MissNote::Clear),
                ),
                None => Step::AskPlain,
            },
        },
    }
}

/// What NetEase's plain lines lead to.
pub open spec fn last_resort(found: Option<Vec<LyricLine>>, id: Seq<char>, o: Outcome) -> bool {
    match found {
        Some(lines) => ends_with(
            o,
            lrc::cues(lines@),
            false,
            id,
            "plain · netease"@,
            MissNote::Clear,
        ),
        None => ends_with(o, seq![], false, id, "no lyrics found"@, MissNote::Log),
    }
}

/// Takes in NetEase's plain lines, the last resort. Without them the track is a
/// miss.
pub fn after_plain(found: Option<Vec<LyricLine>>, track_id: &str) -> (r: Outcome)
    ensures
        last_resort(found, track_id@, r),
{
    match found {
        Some(lines) => outcome(lines, false, track_id, "plain · netease", MissNote::Clear),
        None => {
            let lines: Vec<LyricLine> = Vec::new();
            proof {
                assert(lrc::cues(lines@) =~= seq![]);
            }
            outcome(lines, false, track_id, "no lyrics found", MissNote::Log)
        },
    }
}

/// A synced answer ends the search at once, whichever request it comes from and
/// whatever the other one reported before.
pub proof fn first_synced_answer_wins(s: Listening, report: Report, id: Seq<char>, r: Step)
    requires
        s.wf(),
        heard(s, report, id, r),
        match report {
            Report::Search(found) => found is Some,
            Report::Get(Some(v)) => !catalogue::instrumental(v) && catalogue::synced_lines(
                v,
            ) is Some,
            _ => false,
        },
    ensures
        r matches Step::Done(o) && o.lyrics.synced && o.miss == MissNote::Clear,
{
}

/// While the search listens no miss is logged: it ends in a hit or goes on.
pub proof fn listening_never_logs_a_miss(s: Listening, report: Report, id: Seq<char>, r: Step)
    requires
        s.wf(),
        heard(s, report, id, r),
    ensures
        r matches Step::Done(o) ==> o.miss == MissNote::Clear,
        !(r is AskPlain),
{
}

/// Both requests reporting nothing, in either order, leads on to NetEase.
pub proof fn two_empty_reports_lead_on(
    first: Report,
    second: Report,
    id: Seq<char>,
    a: Step,
    b: Step,
)
    requires
        first == Report::Get(None) && second == Report::Search(None) || first == Report::Search(
            None,
        ) && second == Report::Get(None),
        heard((Listening { received: 0, exact: None }), first, id, a),
        a matches Step::Listen(s) && heard(s, second, id, b),
    ensures
        b matches Step::AskSynced(e) && e is None,
{
}

/// A synced answer of the backup beats plain text, whatever the exact record holds.
pub proof fn synced_backup_beats_plain_text(
    exact: Option<Json>,
    found: Option<Vec<LyricLine>>,
    id: Seq<char>,
    r: Step,
)
    requires
        found is Some,
        decided(exact, found, id, r),
    ensures
        r matches Step::Done(o) && o.lyrics.synced && lrc::cues(o.lyrics.lines@) == lrc::cues(
            found->0@,
        ),
{
}

/// A track is logged as a miss exactly when no source had anything: no synced lines of the
/// backup, no plain text in the exact record, and no plain lines of the backup.
pub proof fn miss_means_nothing_was_found(
    exact: Option<Json>,
    synced: Option<Vec<LyricLine>>,
    plain: Option<Vec<LyricLine>>,
    id: Seq<char>,
    r: Step,
    end: Outcome,
)
    requires
        decided(exact, synced, id, r),
        match r {
            Step::Done(o) => end == o,
            _ => last_resort(plain, id, end),
        },
    ensures
        (end.miss == MissNote::Log) == (synced is None && exact_plain(exact) is None && plain is None),
        end.miss == MissNote::Log || end.miss == MissNote::Clear,
        end.lyrics.track_id@ == id,
{
}

/// What the exact lookup brings decides in this order: a record without words ends the search
/// with a note; synced lines end it with those lines; anything else is kept for its plain text,
/// and the search goes on, to the backup once both requests have reported.
pub proof fn exact_record_is_weighed(s: Listening, v: Json, id: Seq<char>, r: Step)
    requires
        s.wf(),
        heard(s, Report::Get(Some(v)), id, r),
    ensures
        ({
            let wordless = v.at("instrumental"@) == Some(Json::Bool(true));
            let synced = catalogue::synced_lines(v);
            &&& wordless ==> (r matches Step::Done(o) && o.lyrics.lines@.len() == 0
                && !o.lyrics.synced && o.lyrics.note@ == "🎵 instrumental"@ && o.lyrics.track_id@
                == id && o.miss == MissNote::Clear)
            &&& !wordless && synced is Some ==> (r matches Step::Done(o) && lrc::cues(
                o.lyrics.lines@,
            ) == synced->0 && o.lyrics.synced && o.lyrics.note@ == ""@ && o.lyrics.track_id@ == id
                && o.miss == MissNote::Clear)
            &&& !wordless && synced is None && s.received == 0 ==> (r matches Step::Listen(n)
                && n.received == 1 && n.exact == Some(v))
            &&& !wordless && synced is None && s.received == 1 ==> (r matches Step::AskSynced(e)
                && e == Some(v))
        }),
{
    if v.at("instrumental"@) == Some(Json::Bool(true)) {
        assert(catalogue::instrumental(v));
        let o = r->Done_0;
        assert(lrc::cues(o.lyrics.lines@).len() == o.lyrics.lines@.len());
    }
}

/// What the search brings ends the search with those lines; a search that found nothing leaves
/// what the exact lookup brought untouched, and silence leads to the backup at once.
pub proof fn search_results_are_taken(s: Listening, lines: Vec<LyricLine>, id: Seq<char>, r: Step)
    requires
        s.wf(),
    ensures
        heard(s, Report::Search(Some(lines)), id, r) ==> (r matches Step::Done(o) && lrc::cues(
            o.lyrics.lines@,
        ) == lrc::cues(lines@) && o.lyrics.synced && o.lyrics.track_id@ == id && o.miss
            == MissNote::Clear),
        heard(s, Report::Search(None), id, r) ==> (if s.received == 0 {
            r matches Step::Listen(n) && n.received == 1 && n.exact == s.exact
        } else {
            r matches Step::AskSynced(e) && e == s.exact
        }),
        heard(s, Report::Quiet, id, r) ==> (r matches Step::AskSynced(e) && e == s.exact),
{
}

/// Behind the first two requests the order is: synced lines of the backup, plain text of the
/// exact record, plain text of the backup, and at last a note that nothing was found. Only
/// synced lines are shown as synced, and all of it belongs to the track that was asked for.
pub proof fn backups_come_in_order(
    exact: Option<Json>,
    synced: Option<Vec<LyricLine>>,
    plain: Option<Vec<LyricLine>>,
    id: Seq<char>,
    r: Step,
    end: Outcome,
)
    requires
        decided(exact, synced, id, r),
        r is AskPlain ==> last_resort(plain, id, end),
        r matches Step::Done(o) ==> end == o,
    ensures
        ({
            let own = match exact {
                Some(v) => catalogue::plain_lines(v),
                None => None,
            };
            let shown = lrc::cues(end.lyrics.lines@);
            &&& end.lyrics.track_id@ == id
            &&& end.lyrics.synced == (synced is Some)
            &&& synced matches Some(l) ==> shown == lrc::cues(l@) && end.lyrics.note@
                == "synced · netease"@
            &&& synced is None && own is Some ==> shown == own->0 && end.lyrics.note@
                == "plain (no synced found)"@
            &&& synced is None && own is None && plain is Some ==> shown == lrc::cues(plain->0@)
                && end.lyrics.note@ == "plain · netease"@
            &&& synced is None && own is None && plain is None ==> shown.len() == 0
                && end.lyrics.note@ == "no lyrics found"@ && end.miss == MissNote::Log
            &&& synced is Some || own is Some || plain is Some ==> end.miss == MissNote::Clear
        }),
{
}

} // verus!
