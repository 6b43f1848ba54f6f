//! The card of the robots at work: live sessions, token totals, and the pulse of the
//! active branch.

use vstd::prelude::*;
use crate::digits;
use crate::panel;
use crate::panel::{Area, Bit, Hue, Ink, Piece};
use crate::state::{ActionKind, Doctor, GitStats, LiveSession, LiveSessions};
use crate::text;
use crate::usage::UsageStats;
use crate::width;

verus! {

/// How many sessions are shown at most.
pub const MAX_SESSIONS: usize = 5;

/// Below this age a session counts as hot.
pub const HOT: u64 = 6_000_000_000;

fn left(a: usize, b: usize) -> (r: usize)
    ensures
        r == panel::minus(a as int, b as int),
{
    if a > b {
        a - b
    } else {
        0
    }
}

fn text_len(s: &str) -> (r: usize)
    ensures
        r == s@.len(),
{
    text::chars_of(s).len()
}

// ---------------------------------------------------------------------------
// Sessions.
// ---------------------------------------------------------------------------

/// The glyph of what a session does.
pub open spec fn kind_mark(k: ActionKind) -> Seq<char> {
    match k {
        ActionKind::Idle => "○"@,
        ActionKind::Think => "✶"@,
        ActionKind::Run => "❯"@,
        ActionKind::Edit => "✎"@,
        ActionKind::Read => "▤"@,
        ActionKind::Web => "◍"@,
        ActionKind::Agent => "✦"@,
        ActionKind::Tool => "⚙"@,
        ActionKind::Respond => "✺"@,
    }
}

/// The hue of what a session does.
pub open spec fn kind_hue(k: ActionKind) -> Hue {
    match k {
        ActionKind::Idle => Hue::Faint,
        ActionKind::Think => Hue::Accent,
        ActionKind::Run => Hue::Cyan,
        ActionKind::Edit => Hue::Green,
        ActionKind::Read => Hue::Accent,
        ActionKind::Web => Hue::Cyan,
        ActionKind::Agent => Hue::Pink,
        ActionKind::Tool => Hue::Cyan,
        ActionKind::Respond => Hue::Pink,
    }
}

/// The glyph and the hue of what a session does.
pub fn kind_glyph(k: ActionKind) -> (r: (&'static str, Hue))
    ensures
        r.0@ == kind_mark(k),
        r.1 == kind_hue(k),
{
    match k {
        ActionKind::Idle => ("○", Hue::Faint),
        ActionKind::Think => ("✶", Hue::Accent),
        ActionKind::Run => ("❯", Hue::Cyan),
        ActionKind::Edit => ("✎", Hue::Green),
        ActionKind::Read => ("▤", Hue::Accent),
        ActionKind::Web => ("◍", Hue::Cyan),
        ActionKind::Agent => ("✦", Hue::Pink),
        ActionKind::Tool => ("⚙", Hue::Cyan),
        ActionKind::Respond => ("✺", Hue::Pink),
    }
}

/// The larger of a number and one.
pub open spec fn one_at_least(n: int) -> nat {
    if n > 1 {
        n as nat
    } else {
        1
    }
}

/// The cells for the project of a session: nearly half of the middle, six to sixteen,
/// and at least four less than the middle.
pub open spec fn project_cells(middle: int) -> int {
    let share = middle * 9 / 20;
    let wish = if share < 6 {
        6
    } else if share > 16 {
        16
    } else {
        share
    };
    if wish < panel::minus(middle, 4) {
        wish
    } else {
        panel::minus(middle, 4)
    }
}

fn project_budget(middle: usize) -> (r: usize)
    requires
        middle <= u16::MAX,
    ensures
        r == project_cells(middle as int),
{
    let share: usize = middle * 9 / 20;
    let wish: usize = if share < 6 {
        6
    } else if share > 16 {
        16
    } else {
        share
    };
    let room: usize = left(middle, 4);
    if wish < room {
        wish
    } else {
        room
    }
}

/// The icon of a session: it beats while the session works, bold while it is hot.
pub open spec fn icon_bit(s: LiveSession, i: usize) -> Bit {
    let mark = kind_mark(s.kind) + " "@;
    if s.kind == ActionKind::Idle {
        panel::flat(mark, Hue::Faint)
    } else if s.age < HOT {
        panel::strong(mark, Ink::Pulse(kind_hue(s.kind), s.age, i))
    } else {
        panel::inked(mark, Ink::Pulse(kind_hue(s.kind), s.age, i))
    }
}

/// One session: icon, project, action, the model where there is room, and the age at
/// the right edge.
pub open spec fn session_row(s: LiveSession, w: int, i: usize) -> Seq<Bit> {
    let idle = s.kind == ActionKind::Idle;
    let age = crate::format::age_text(s.age as nat);
    let middle = panel::minus(w, age.len() + 3int);
    let project = width::fitted(s.project@, one_at_least(project_cells(middle)));
    let room = panel::minus(middle, width::cells(project) + 1int);
    let action = width::fitted(s.action@, one_at_least(room));
    let rest = panel::minus(room, width::cells(action) as int);
    let named = s.model@.len() > 0 && rest >= width::cells(s.model@) + 2;
    let gap = if named {
        rest - width::cells(s.model@) - 2
    } else {
        rest
    };
    seq![
        icon_bit(s, i),
        panel::bold(
            project,
            if idle {
                Hue::Dim
            } else {
                Hue::Accent
            },
        ),
        panel::flat(
            " "@ + action,
            if idle {
                Hue::Faint
            } else {
                Hue::Text
            },
        ),
    ] + (if named {
        seq![panel::flat(" ·"@ + s.model@, Hue::Faint)]
    } else {
        seq![]
    }) + (if gap > 0 {
        seq![panel::raw(text::repeated(' ', gap))]
    } else {
        seq![]
    }) + seq![panel::flat(" "@ + age, Hue::Faint)]
}

/// The line of one session.
pub fn session_line(s: &LiveSession, w: u16, i: usize) -> (r: Vec<Piece>)
    ensures
        panel::bits(r@) == session_row(*s, w as int, i),
{
    let idle = match s.kind {
        ActionKind::Idle => true,
        _ => false,
    };
    let (glyph, hue) = kind_glyph(s.kind);
    let age = crate::format::fmt_age(s.age);
    let age_w: usize = text_len(age.as_str());
    let middle: usize = left(left(w as usize, age_w), 3);
    let budget: usize = project_budget(middle);
    let project = width::fit_width(
        s.project.as_str(),
        if budget > 1 {
            budget
        } else {
            1
        },
    );
    let room: usize = left(left(middle, width::dwidth(project.as_str())), 1);
    let action = width::fit_width(
        s.action.as_str(),
        if room > 1 {
            room
        } else {
            1
        },
    );
    let rest: usize = left(room, width::dwidth(action.as_str()));
    let model_w: usize = width::dwidth(s.model.as_str());
    let named = text_len(s.model.as_str()) > 0 && rest >= 2 && rest - 2 >= model_w;
    let gap: usize = if named {
        rest - 2 - model_w
    } else {
        rest
    };
    let mark = text::concat2(glyph, " ");
    let mut line = panel::line();
    if idle {
        panel::push_flat(&mut line, mark.as_str(), Hue::Faint);
    } else if s.age < HOT {
        panel::push_strong(&mut line, mark, Ink::Pulse(hue, s.age, i));
    } else {
        panel::push_ink(&mut line, mark, Ink::Pulse(hue, s.age, i));
    }
    panel::push_bold(
        &mut line,
        project.as_str(),
        if idle {
            Hue::Dim
        } else {
            Hue::Accent
        },
    );
    panel::push_flat(
        &mut line,
        text::concat2(" ", action.as_str()).as_str(),
        if idle {
            Hue::Faint
        } else {
            Hue::Text
        },
    );
    if named {
        panel::push_flat(
            &mut line,
            text::concat2(" ·", s.model.as_str()).as_str(),
            Hue::Faint,
        );
    }
    if gap > 0 {
        panel::push_raw(&mut line, text::repeat(' ', gap).as_str());
    }
    panel::push_flat(&mut line, text::concat2(" ", age.as_str()).as_str(), Hue::Faint);
    proof {
        assert(panel::bits(line@) =~= session_row(*s, w as int, i));
    }
    line
}

// ---------------------------------------------------------------------------
// The doctor.
// ---------------------------------------------------------------------------

/// The doctor shows in the feed: it is at work, or the last incident needs somebody.
pub open spec fn alerting(d: Doctor) -> bool {
    d.available && (d.running || d.last_outcome@ == "needs-user"@ || d.last_outcome@
        == "unresolved"@)
}

/// Does the doctor show in the feed?
pub fn doctor_alert(d: &Doctor) -> (r: bool)
    ensures
        r == alerting(*d),
{
    d.available && (d.running || text::same_str(d.last_outcome.as_str(), "needs-user")
        || text::same_str(d.last_outcome.as_str(), "unresolved"))
}

/// The hue of an incident.
pub open spec fn severity_hue(d: Doctor) -> Hue {
    if d.last_severity@ == "critical"@ {
        Hue::Red
    } else if d.last_severity@ == "warn"@ {
        Hue::Pink
    } else {
        Hue::Accent
    }
}

/// What the doctor does, or what was wrong.
pub open spec fn doctor_action(d: Doctor) -> Seq<char> {
    if d.running {
        if d.step@.len() == 0 {
            "investigating…"@
        } else {
            d.step@
        }
    } else if d.trigger@.len() > 0 {
        d.trigger@
    } else if d.last_title@.len() > 0 {
        d.last_title@
    } else {
        "needs a look"@
    }
}

/// When the doctor last had something to say.
pub open spec fn doctor_age(d: Doctor) -> Seq<char> {
    if d.running {
        "now"@
    } else if d.last_rel@.len() == 0 {
        "—"@
    } else {
        d.last_rel@
    }
}

/// The doctor's row: only a run in flight shimmers.
pub open spec fn doctor_row(d: Doctor, w: int) -> Seq<Bit> {
    let age = doctor_age(d);
    let name = "mac-doctor"@;
    let middle = panel::minus(w, age.len() + 3int);
    let wish = width::cells(name) as int;
    let limit = one_at_least(panel::minus(middle, 4)) as int;
    let project = width::fitted(
        name,
        one_at_least(
            if wish < limit {
                wish
            } else {
                limit
            },
        ),
    );
    let room = panel::minus(middle, width::cells(project) + 1int);
    let action = width::fitted(doctor_action(d), one_at_least(room));
    let gap = panel::minus(room, width::cells(action) as int);
    let label = "✚ "@ + project + " "@ + action;
    seq![
        if d.running {
            panel::strong(label, Ink::Urgent(severity_hue(d)))
        } else {
            panel::flat(label, Hue::Dim)
        },
    ] + (if gap > 0 {
        seq![panel::raw(text::repeated(' ', gap))]
    } else {
        seq![]
    }) + seq![panel::flat(" "@ + age, Hue::Faint)]
}

/// The doctor's line.
#[verifier::rlimit(40)]
pub fn doctor_feed_line(d: &Doctor, w: u16) -> (r: Vec<Piece>)
    ensures
        panel::bits(r@) == doctor_row(*d, w as int),
{
    let hue = if text::same_str(d.last_severity.as_str(), "critical") {
        Hue::Red
    } else if text::same_str(d.last_severity.as_str(), "warn") {
        Hue::Pink
    } else {
        Hue::Accent
    };
    let doing: String = if d.running {
        if text_len(d.step.as_str()) == 0 {
            "investigating…".to_string()
        } else {
            d.step.clone()
        }
    } else if text_len(d.trigger.as_str()) > 0 {
        d.trigger.clone()
    } else if text_len(d.last_title.as_str()) > 0 {
        d.last_title.clone()
    } else {
        "needs a look".to_string()
    };
    let age: String = if d.running {
        "now".to_string()
    } else if text_len(d.last_rel.as_str()) == 0 {
        "—".to_string()
    } else {
        d.last_rel.clone()
    };
    let name = "mac-doctor";
    let age_w: usize = text_len(age.as_str());
    let middle: usize = left(left(w as usize, age_w), 3);
    let wish: usize = width::dwidth(name);
    let room4: usize = left(middle, 4);
    let limit: usize = if room4 > 1 {
        room4
    } else {
        1
    };
    let budget: usize = if wish < limit {
        wish
    } else {
        limit
    };
    let project = width::fit_width(
        name,
        if budget > 1 {
            budget
        } else {
            1
        },
    );
    let room: usize = left(left(middle, width::dwidth(project.as_str())), 1);
    let action = width::fit_width(
        doing.as_str(),
        if room > 1 {
            room
        } else {
            1
        },
    );
    let gap: usize = left(room, width::dwidth(action.as_str()));
    let mut label = text::concat3("✚ ", project.as_str(), " ");
    label.append(action.as_str());
    let mut line = panel::line();
    if d.running {
        panel::push_strong(&mut line, label, Ink::Urgent(hue));
    } else {
        panel::push_flat(&mut line, label.as_str(), Hue::Dim);
    }
    if gap > 0 {
        panel::push_raw(&mut line, text::repeat(' ', gap).as_str());
    }
    panel::push_flat(&mut line, text::concat2(" ", age.as_str()).as_str(), Hue::Faint);
    proof {
        assert(panel::bits(line@) =~= doctor_row(*d, w as int));
    }
    line
}

// ---------------------------------------------------------------------------
// The feed.
// ---------------------------------------------------------------------------

/// How many sessions have room below the doctor's row.
pub open spec fn session_count(h: int, d: Doctor, l: LiveSessions) -> int {
    let room = panel::minus(h, if alerting(d) {
        1
    } else {
        0
    });
    let cap = if room < MAX_SESSIONS {
        room
    } else {
        MAX_SESSIONS as int
    };
    if l.sessions@.len() < cap {
        l.sessions@.len() as int
    } else {
        cap
    }
}

/// The feed: the doctor above the sessions, the newest first.
pub open spec fn feed_rows(h: int, w: int, l: LiveSessions, d: Doctor) -> Seq<Seq<Bit>> {
    if h == 0 || w < 6 {
        seq![]
    } else {
        let top: Seq<Seq<Bit>> = if alerting(d) {
            seq![doctor_row(d, w)]
        } else {
            seq![]
        };
        if !l.fresh {
            if alerting(d) {
                top
            } else {
                seq![seq![panel::flat("scanning robots…"@, Hue::Dim)]]
            }
        } else if l.sessions@.len() == 0 {
            if alerting(d) {
                top
            } else {
                seq![seq![panel::flat("no active sessions"@, Hue::Dim)]]
            }
        } else {
            top + Seq::new(
                session_count(h, d, l) as nat,
                |i: int| session_row(l.sessions@[i], w, i as usize),
            )
        }
    }
}

/// The lines of the feed in an area of `w` by `h` cells.
pub fn live_feed(h: u16, w: u16, l: &LiveSessions, d: &Doctor) -> (r: Vec<Vec<Piece>>)
    ensures
        panel::rows(r@) == feed_rows(h as int, w as int, *l, *d),
{
    let mut lines: Vec<Vec<Piece>> = Vec::new();
    let ghost want = feed_rows(h as int, w as int, *l, *d);
    proof {
        assert(panel::rows(lines@) =~= Seq::<Seq<Bit>>::empty());
    }
    if h == 0 || w < 6 {
        return lines;
    }
    let alert = doctor_alert(d);
    if alert {
        panel::push_row(&mut lines, doctor_feed_line(d, w));
    }
    let ghost top = panel::rows(lines@);
    proof {
        assert(alert ==> top =~= seq![doctor_row(*d, w as int)]);
    }
    if !l.fresh {
        if !alert {
            panel::push_row(&mut lines, panel::flat_line("scanning robots…", Hue::Dim));
        }
        proof {
            assert(panel::rows(lines@) =~= want);
        }
        return lines;
    }
    if l.sessions.len() == 0 {
        if !alert {
            panel::push_row(&mut lines, panel::flat_line("no active sessions", Hue::Dim));
        }
        proof {
            assert(panel::rows(lines@) =~= want);
        }
        return lines;
    }
    let room: usize = left(
        h as usize,
        if alert {
            1
        } else {
            0
        },
    );
    let cap: usize = if room < MAX_SESSIONS {
        room
    } else {
        MAX_SESSIONS
    };
    let n: usize = if l.sessions.len() < cap {
        l.sessions.len()
    } else {
        cap
    };
    let mut i: usize = 0;
    proof {
        assert(panel::rows(lines@) =~= want.take(top.len() as int));
    }
    while i < n
        invariant
            i <= n <= l.sessions@.len(),
            n == session_count(h as int, *d, *l),
            want == top + Seq::new(
                n as nat,
                |i: int| session_row(l.sessions@[i], w as int, i as usize),
            ),
            panel::rows(lines@) == want.take(top.len() + i),
        decreases n - i,
    {
        let l1 = session_line(&l.sessions[i], w, i);
        proof {
            let at = top.len() + i;
            assert(panel::bits(l1@) == want[at]);
            assert(want.take(at + 1) =~= want.take(at).push(want[at]));
        }
        panel::push_row(&mut lines, l1);
        i += 1;
    }
    proof {
        assert(want.take(top.len() + i) =~= want);
    }
    lines
}

// ---------------------------------------------------------------------------
// The card.
// ---------------------------------------------------------------------------

/// Lines and where they are drawn.
pub struct Placed {
    pub lines: Vec<Vec<Piece>>,
    pub at: Area,
}

/// Lines and where they are drawn, as a mathematical value.
pub struct Block {
    pub lines: Seq<Seq<Bit>>,
    pub at: Area,
}

/// Placed lines as a mathematical value.
pub open spec fn block(p: Placed) -> Block {
    Block { lines: panel::rows(p.lines@), at: p.at }
}

/// The inside of the card: the feed, the totals, the rule between the halves, and the
/// branch.
pub struct RobotsBody {
    pub feed: Placed,
    pub totals: Placed,
    /// The column of the rule.
    pub rule: u16,
    pub branch: Option<Placed>,
}

/// A label and its value.
pub open spec fn cell(label: Seq<char>, value: Seq<char>, hue: Hue) -> Seq<Bit> {
    seq![panel::flat(label + " "@, Hue::Dim), panel::bold(value, hue)]
}

fn push_cell(line: &mut Vec<Piece>, label: &str, value: &str, hue: Hue)
    ensures
        panel::bits(final(line)@) == panel::bits(old(line)@) + cell(label@, value@, hue),
{
    panel::push_flat(line, text::concat2(label, " ").as_str(), Hue::Dim);
    panel::push_bold(line, value, hue);
    proof {
        assert(panel::bits(line@) =~= panel::bits(old(line)@) + cell(label@, value@, hue));
    }
}

/// All tokens of today.
pub open spec fn today_tokens(u: UsageStats) -> int {
    u.today_input + u.today_output + u.today_cache_read + u.today_cache_write
}

/// The token totals in two rows; until the records at `source` are read, that they
/// are being read.
pub open spec fn totals_rows(u: UsageStats, source: Seq<char>) -> Seq<Seq<Bit>> {
    if !u.fresh {
        seq![seq![panel::flat("scanning "@ + source + "…"@, Hue::Dim)]]
    } else {
        seq![
            cell("today"@, crate::format::tokens_text(today_tokens(u) as nat), Hue::Cyan) + seq![
                panel::raw("  "@),
            ] + cell("wk"@, crate::format::tokens_text(u.tokens_7d as nat), Hue::Accent),
            cell("month"@, crate::format::tokens_text(u.tokens_30d as nat), Hue::Pink) + seq![
                panel::raw("  "@),
            ] + cell("sess"@, digits::dec(u.sessions_30d as nat), Hue::Text),
        ]
    }
}

fn totals_lines(u: &UsageStats, source: &str) -> (r: Vec<Vec<Piece>>)
    requires
        today_tokens(*u) <= u64::MAX,
    ensures
        panel::rows(r@) == totals_rows(*u, source@),
{
    let mut lines: Vec<Vec<Piece>> = Vec::new();
    if !u.fresh {
        let note = text::concat3("scanning ", source, "…");
        panel::push_row(&mut lines, panel::flat_line(note.as_str(), Hue::Dim));
        proof {
            assert(panel::rows(lines@) =~= totals_rows(*u, source@));
        }
        return lines;
    }
    let today: u64 = u.today_input + u.today_output + u.today_cache_read + u.today_cache_write;
    let mut one = panel::line();
    push_cell(&mut one, "today", crate::format::fmt_tokens(today).as_str(), Hue::Cyan);
    panel::push_raw(&mut one, "  ");
    push_cell(&mut one, "wk", crate::format::fmt_tokens(u.tokens_7d).as_str(), Hue::Accent);
    let mut two = panel::line();
    push_cell(&mut two, "month", crate::format::fmt_tokens(u.tokens_30d).as_str(), Hue::Pink);
    panel::push_raw(&mut two, "  ");
    push_cell(&mut two, "sess", digits::dec_string(u.sessions_30d).as_str(), Hue::Text);
    proof {
        assert(panel::bits(one@) =~= totals_rows(*u, source@)[0]);
        assert(panel::bits(two@) =~= totals_rows(*u, source@)[1]);
    }
    panel::push_row(&mut lines, one);
    panel::push_row(&mut lines, two);
    proof {
        assert(panel::rows(lines@) =~= totals_rows(*u, source@));
    }
    lines
}

/// The branch row: the repository, and as much of the branch as fits.
pub open spec fn branch_row(g: GitStats, w: int) -> Seq<Bit> {
    let used = if g.repo@.len() > 0 {
        g.repo@.len() + 1int
    } else {
        0
    };
    let room = if panel::minus(w, used) > 3 {
        panel::minus(w, used)
    } else {
        3
    };
    (if g.repo@.len() > 0 {
        seq![panel::flat(g.repo@ + "/"@, Hue::Dim)]
    } else {
        seq![]
    }) + seq![panel::bold(width::truncated(g.branch@, room as nat), Hue::Accent)]
}

/// The pulse of the branch: its name, its last commit, and what happened today.
pub open spec fn git_rows(g: GitStats, w: int) -> Seq<Seq<Bit>> {
    if !g.fresh {
        seq![seq![panel::flat("reading repo…"@, Hue::Dim)]]
    } else if !g.ok {
        seq![seq![panel::flat("no git repo"@, Hue::Dim)]]
    } else {
        seq![
            branch_row(g, w),
            seq![
                panel::flat(g.last_hash@ + " "@, Hue::Cyan),
                panel::flat(
                    width::truncated(
                        g.last_msg@,
                        panel::minus(w, g.last_hash@.len() + 1int) as nat,
                    ),
                    Hue::Text,
                ),
            ],
            seq![
                panel::flat(
                    if g.last_rel@.len() == 0 {
                        "—"@
                    } else {
                        g.last_rel@
                    },
                    Hue::Faint,
                ),
            ],
            seq![],
            seq![
                panel::bold("+"@ + digits::dec(g.loc_added as nat), Hue::Green),
                panel::flat(
                    " -"@ + digits::dec(g.loc_removed as nat),
                    if g.loc_removed > 0 {
                        Hue::Red
                    } else {
                        Hue::Faint
                    },
                ),
                panel::flat(" loc today"@, Hue::Faint),
            ],
            seq![
                panel::bold(digits::dec(g.commits_today as nat), Hue::Text),
                panel::flat(" commits today"@, Hue::Dim),
            ],
            seq![
                panel::bold(digits::dec(g.pr_count as nat), Hue::Pink),
                panel::flat(" PRs"@, Hue::Dim),
            ],
            seq![
                panel::bold(
                    digits::dec(g.merges_main as nat),
                    if g.merges_main > 0 {
                        Hue::Green
                    } else {
                        Hue::Text
                    },
                ),
                panel::flat(" merges today"@, Hue::Dim),
            ],
        ]
    }
}

fn branch_line(g: &GitStats, w: usize) -> (r: Vec<Piece>)
    ensures
        panel::bits(r@) == branch_row(*g, w as int),
{
    let mut line = panel::line();
    let repo_w: usize = text_len(g.repo.as_str());
    let rest: usize = if repo_w > 0 {
        panel::push_flat(&mut line, text::concat2(g.repo.as_str(), "/").as_str(), Hue::Dim);
        left(left(w, repo_w), 1)
    } else {
        w
    };
    let room: usize = if rest > 3 {
        rest
    } else {
        3
    };
    panel::push_bold(&mut line, width::truncate(g.branch.as_str(), room).as_str(), Hue::Accent);
    proof {
        assert(panel::bits(line@) =~= branch_row(*g, w as int));
    }
    line
}

fn metric_line(lead: &str, hue: Hue, rest: &str) -> (r: Vec<Piece>)
    ensures
        panel::bits(r@) == seq![panel::bold(lead@, hue), panel::flat(rest@, Hue::Dim)],
{
    let mut line = panel::line();
    panel::push_bold(&mut line, lead, hue);
    panel::push_flat(&mut line, rest, Hue::Dim);
    proof {
        assert(panel::bits(line@) =~= seq![
            panel::bold(lead@, hue),
            panel::flat(rest@, Hue::Dim),
        ]);
    }
    line
}

fn commit_line(g: &GitStats, w: usize) -> (r: Vec<Piece>)
    requires
        g.fresh && g.ok,
    ensures
        panel::bits(r@) == git_rows(*g, w as int)[1],
{
    let mut line = panel::line();
    panel::push_flat(&mut line, text::concat2(g.last_hash.as_str(), " ").as_str(), Hue::Cyan);
    let room: usize = left(left(w, text_len(g.last_hash.as_str())), 1);
    panel::push_flat(
        &mut line,
        width::truncate(g.last_msg.as_str(), room).as_str(),
        Hue::Text,
    );
    proof {
        assert(panel::bits(line@) =~= git_rows(*g, w as int)[1]);
    }
    line
}

fn loc_line(g: &GitStats, w: usize) -> (r: Vec<Piece>)
    requires
        g.fresh && g.ok,
    ensures
        panel::bits(r@) == git_rows(*g, w as int)[4],
{
    let mut line = panel::line();
    let plus = text::concat2("+", digits::dec_string(g.loc_added as u64).as_str());
    let minus = text::concat2(" -", digits::dec_string(g.loc_removed as u64).as_str());
    panel::push_bold(&mut line, plus.as_str(), Hue::Green);
    panel::push_flat(
        &mut line,
        minus.as_str(),
        if g.loc_removed > 0 {
            Hue::Red
        } else {
            Hue::Faint
        },
    );
    panel::push_flat(&mut line, " loc today", Hue::Faint);
    proof {
        assert(panel::bits(line@) =~= git_rows(*g, w as int)[4]);
    }
    line
}

fn git_lines(g: &GitStats, w: usize) -> (r: Vec<Vec<Piece>>)
    ensures
        panel::rows(r@) == git_rows(*g, w as int),
{
    let mut lines: Vec<Vec<Piece>> = Vec::new();
    if !g.fresh {
        panel::push_row(&mut lines, panel::flat_line("reading repo…", Hue::Dim));
        proof {
            assert(panel::rows(lines@) =~= git_rows(*g, w as int));
        }
        return lines;
    }
    if !g.ok {
        panel::push_row(&mut lines, panel::flat_line("no git repo", Hue::Dim));
        proof {
            assert(panel::rows(lines@) =~= git_rows(*g, w as int));
        }
        return lines;
    }
    panel::push_row(&mut lines, branch_line(g, w));
    panel::push_row(&mut lines, commit_line(g, w));
    let rel = if text_len(g.last_rel.as_str()) == 0 {
        panel::flat_line("—", Hue::Faint)
    } else {
        panel::flat_line(g.last_rel.as_str(), Hue::Faint)
    };
    panel::push_row(&mut lines, rel);
    panel::push_row(&mut lines, panel::line());
    panel::push_row(&mut lines, loc_line(g, w));
    let commits = digits::dec_string(g.commits_today as u64);
    panel::push_row(&mut lines, metric_line(commits.as_str(), Hue::Text, " commits today"));
    let prs = digits::dec_string(g.pr_count as u64);
    panel::push_row(&mut lines, metric_line(prs.as_str(), Hue::Pink, " PRs"));
    let merges = digits::dec_string(g.merges_main as u64);
    panel::push_row(
        &mut lines,
        metric_line(
            merges.as_str(),
            if g.merges_main > 0 {
                Hue::Green
            } else {
                Hue::Text
            },
            " merges today",
        ),
    );
    proof {
        assert(panel::rows(lines@) =~= git_rows(*g, w as int));
    }
    lines
}

/// The cells of the left half: two fifths, eighteen at least, and twenty-two stay for
/// the right half.
pub open spec fn left_half(iw: int) -> int {
    let wish = if iw * 42 / 100 > 18 {
        iw * 42 / 100
    } else {
        18
    };
    if wish < panel::minus(iw, 22) {
        wish
    } else {
        panel::minus(iw, 22)
    }
}

/// The inside of the card, `a` being what is inside its border.
pub open spec fn robots_inside(
    a: Area,
    u: UsageStats,
    g: GitStats,
    l: LiveSessions,
    d: Doctor,
    source: Seq<char>,
    r: Option<RobotsBody>,
) -> bool {
    if a.height < 2 || a.width < 24 {
        r is None
    } else {
        let lw = left_half(a.width as int);
        let fh = a.height - 2;
        let rx = a.x + lw + 3;
        let rw = panel::minus(a.x + a.width, rx);
        r matches Some(b) && {
            &&& block(b.feed) == Block {
                lines: feed_rows(fh, lw, l, d),
                at: Area { x: a.x, y: a.y, width: lw as u16, height: fh as u16 },
            }
            &&& block(b.totals) == Block {
                lines: totals_rows(u, source),
                at: Area { x: a.x, y: (a.y + fh) as u16, width: lw as u16, height: 2 },
            }
            &&& b.rule == a.x + lw + 1
            &&& if rw < 8 {
                b.branch is None
            } else {
                b.branch matches Some(p) && block(p) == Block {
                    lines: git_rows(g, rw),
                    at: Area { x: rx as u16, y: a.y, width: rw as u16, height: a.height },
                }
            }
        }
    }
}

/// The card of the robots at work. `area` is the whole card; `source` names the place
/// where the usage records lie.
pub fn robots_card(
    area: Area,
    u: &UsageStats,
    g: &GitStats,
    l: &LiveSessions,
    d: &Doctor,
    source: &str,
) -> (r: Option<RobotsBody>)
    requires
        area.wf(),
        today_tokens(*u) <= u64::MAX,
    ensures
        robots_inside(panel::inside(area), *u, *g, *l, *d, source@, r),
{
    let a = panel::inner(area);
    if a.height < 2 || a.width < 24 {
        return None;
    }
    let iw: u32 = a.width as u32;
    let share: u32 = iw * 42 / 100;
    let wish: u32 = if share > 18 {
        share
    } else {
        18
    };
    let lw: u16 = if wish < iw - 22 {
        wish as u16
    } else {
        a.width - 22
    };
    let fh: u16 = a.height - 2;
    let rx: u16 = a.x + lw + 3;
    let right: u16 = a.x + a.width;
    let rw: u16 = if right > rx {
        right - rx
    } else {
        0
    };
    let feed = Placed {
        lines: live_feed(fh, lw, l, d),
        at: Area { x: a.x, y: a.y, width: lw, height: fh },
    };
    let totals = Placed {
        lines: totals_lines(u, source),
        at: Area { x: a.x, y: a.y + fh, width: lw, height: 2 },
    };
    let branch = if rw < 8 {
        None
    } else {
        Some(
            Placed {
                lines: git_lines(g, rw as usize),
                at: Area { x: rx, y: a.y, width: rw, height: a.height },
            },
        )
    };
    Some(RobotsBody { feed, totals, rule: a.x + lw + 1, branch })
}

/// The feed never overflows its half of the card.
pub proof fn feed_fits(h: int, w: int, l: LiveSessions, d: Doctor)
    requires
        h >= 0,
    ensures
        feed_rows(h, w, l, d).len() <= h,
        feed_rows(h, w, l, d).len() <= MAX_SESSIONS + 1,
{
}

/// The halves do not touch: between them stand a gap, the rule and another gap.
pub proof fn halves_stay_apart(iw: int)
    requires
        iw >= 24,
    ensures
        0 < left_half(iw),
        left_half(iw) + 3 <= iw - 19,
{
}

/// What a session does has its own glyph.
pub proof fn actions_have_their_glyphs()
    ensures
        kind_mark(ActionKind::Idle) == "○"@,
        kind_mark(ActionKind::Think) == "✶"@,
        kind_mark(ActionKind::Run) == "❯"@,
        kind_mark(ActionKind::Edit) == "✎"@,
        kind_mark(ActionKind::Read) == "▤"@,
        kind_mark(ActionKind::Web) == "◍"@,
        kind_mark(ActionKind::Agent) == "✦"@,
        kind_mark(ActionKind::Tool) == "⚙"@,
        kind_mark(ActionKind::Respond) == "✺"@,
        kind_hue(ActionKind::Edit) == Hue::Green,
        kind_hue(ActionKind::Agent) == Hue::Pink && kind_hue(ActionKind::Respond) == Hue::Pink,
        kind_hue(ActionKind::Run) == Hue::Cyan && kind_hue(ActionKind::Web) == Hue::Cyan
            && kind_hue(ActionKind::Tool) == Hue::Cyan,
        kind_hue(ActionKind::Think) == Hue::Accent && kind_hue(ActionKind::Read) == Hue::Accent,
        kind_hue(ActionKind::Idle) == Hue::Faint,
{
}

/// A session beats while it works, and is bold in the first six seconds; one that is idle does
/// neither.
pub proof fn sessions_beat_while_they_work(s: LiveSession, i: usize)
    ensures
        s.kind == ActionKind::Idle ==> icon_bit(s, i).ink == Ink::Flat(Hue::Faint) && !icon_bit(
            s,
            i,
        ).bold,
        s.kind != ActionKind::Idle ==> icon_bit(s, i).ink == Ink::Pulse(
            kind_hue(s.kind),
            s.age,
            i,
        ) && icon_bit(s, i).bold == (s.age < 6_000_000_000),
{
}

/// A session shows its glyph, its project, what it does, and at the end its age.
pub proof fn sessions_show_what_they_do(s: LiveSession, w: int, i: usize)
    ensures
        ({
            let r = session_row(s, w, i);
            &&& 4 <= r.len() <= 6
            &&& r[0].text == kind_mark(s.kind) + " "@
            &&& r.last().text == " "@ + crate::format::age_text(s.age as nat)
            &&& width::cells(s.project@) <= project_cells(
                panel::minus(w, crate::format::age_text(s.age as nat).len() + 3int),
            ) ==> r[1].text == s.project@
        }),
{
}

/// The project has about nine twentieths of the middle, six cells at least and sixteen at most,
/// and leaves four.
pub proof fn projects_have_their_share(middle: int)
    requires
        middle >= 10,
    ensures
        6 <= project_cells(middle) <= 16,
        project_cells(middle) <= middle - 4,
        6 < project_cells(middle) < 16 ==> 20 * project_cells(middle) <= 9 * middle < 20
            * project_cells(middle) + 20,
        9 * middle >= 320 ==> project_cells(middle) == 16,
{
}

/// The doctor shows exactly while it is at work or where its last incident needs somebody.
pub proof fn doctors_show_when_needed(d: Doctor)
    ensures
        !d.available ==> !alerting(d),
        d.available && d.running ==> alerting(d),
        d.available && d.last_outcome@ == "needs-user"@ ==> alerting(d),
        d.available && d.last_outcome@ == "unresolved"@ ==> alerting(d),
        alerting(d) ==> d.running || d.last_outcome@ == "needs-user"@ || d.last_outcome@
            == "unresolved"@,
        d.last_severity@ == "critical"@ ==> severity_hue(d) == Hue::Red,
{
}

/// The doctor says what it does while it runs, else what was wrong, by the first that is known
/// of the trigger and the title.
pub proof fn doctors_say_what_they_do(d: Doctor)
    ensures
        d.running && d.step@.len() > 0 ==> doctor_action(d) == d.step@,
        d.running && d.step@.len() == 0 ==> doctor_action(d) == "investigating…"@,
        !d.running && d.trigger@.len() > 0 ==> doctor_action(d) == d.trigger@,
        !d.running && d.trigger@.len() == 0 && d.last_title@.len() > 0 ==> doctor_action(d)
            == d.last_title@,
        d.running ==> doctor_age(d) == "now"@,
        !d.running && d.last_rel@.len() > 0 ==> doctor_age(d) == d.last_rel@,
{
}

/// The feed shows the doctor first where it shows at all, and below it the sessions from the
/// first on, five at most and no more than have room.
pub proof fn feed_shows_the_first_sessions(h: int, w: int, l: LiveSessions, d: Doctor, i: int)
    requires
        h >= 2,
        w >= 6,
        l.fresh,
        0 <= i < l.sessions@.len(),
        i < 5,
        i + 1 < h,
    ensures
        alerting(d) ==> feed_rows(h, w, l, d).len() > i + 1 && feed_rows(h, w, l, d)[0]
            == doctor_row(d, w) && feed_rows(h, w, l, d)[i + 1] == session_row(
            l.sessions@[i],
            w,
            i as usize,
        ),
        !alerting(d) ==> feed_rows(h, w, l, d).len() > i && feed_rows(h, w, l, d)[i]
            == session_row(l.sessions@[i], w, i as usize),
{
}

/// Today counts all four kinds of tokens; the week, the month and the sessions are told beside.
pub proof fn totals_tell_today_week_and_month(u: UsageStats, source: Seq<char>)
    requires
        u.fresh,
    ensures
        ({
            let t = totals_rows(u, source);
            &&& t.len() == 2
            &&& t[0].len() == 5 && t[1].len() == 5
            &&& t[0][0].text == "today"@ + " "@
            &&& t[0][1].text == crate::format::tokens_text(
                (u.today_input + u.today_output + u.today_cache_read + u.today_cache_write) as nat,
            )
            &&& t[0][3].text == "wk"@ + " "@
            &&& t[0][4].text == crate::format::tokens_text(u.tokens_7d as nat)
            &&& t[1][0].text == "month"@ + " "@
            &&& t[1][1].text == crate::format::tokens_text(u.tokens_30d as nat)
            &&& t[1][3].text == "sess"@ + " "@
            &&& t[1][4].text == digits::dec(u.sessions_30d as nat)
        }),
{
}

/// The branch tells its last commit and what happened today, line by line.
pub proof fn branch_tells_its_day(g: GitStats, w: int)
    requires
        g.fresh,
        g.ok,
    ensures
        ({
            let r = git_rows(g, w);
            &&& r.len() == 8
            &&& r[1][0].text == g.last_hash@ + " "@
            &&& g.last_rel@.len() > 0 ==> r[2][0].text == g.last_rel@
            &&& r[4][0].text == "+"@ + digits::dec(g.loc_added as nat)
            &&& r[4][1].text == " -"@ + digits::dec(g.loc_removed as nat)
            &&& (r[4][1].ink == Ink::Flat(Hue::Red)) == (g.loc_removed > 0)
            &&& r[5][0].text == digits::dec(g.commits_today as nat) && r[5][1].text
                == " commits today"@
            &&& r[6][0].text == digits::dec(g.pr_count as nat) && r[6][1].text == " PRs"@
            &&& r[7][0].text == digits::dec(g.merges_main as nat) && r[7][1].text
                == " merges today"@
        }),
        g.repo@.len() > 0 ==> branch_row(g, w).len() == 2 && branch_row(g, w)[0].text == g.repo@
            + "/"@,
        g.repo@.len() > 0 && g.repo@.len() + 4 + g.branch@.len() <= w ==> branch_row(g, w)[1].text
            == g.branch@,
        g.repo@.len() == 0 ==> branch_row(g, w).len() == 1,
{
    let room = if panel::minus(w, g.repo@.len() + 1int) > 3 {
        panel::minus(w, g.repo@.len() + 1int)
    } else {
        3
    };
    width::truncating_keeps_the_front(g.branch@, room as nat);
}

/// The left half has 42 hundredths of the card, eighteen cells at least, and leaves twenty-two.
pub proof fn halves_have_their_share(iw: int)
    requires
        iw >= 40,
    ensures
        18 <= left_half(iw) <= iw - 22,
        18 < left_half(iw) && left_half(iw) < iw - 22 ==> 100 * left_half(iw) <= 42 * iw < 100
            * left_half(iw) + 100,
{
}

} // verus!
