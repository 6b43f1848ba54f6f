//! The pulse of a repository, read from what git prints.

use vstd::prelude::*;
use crate::digits;
use crate::state::GitStats;
use crate::text;

verus! {

/// A count that git printed; zero where it printed none.
pub open spec fn count_in(s: Seq<char>) -> int {
    match digits::unsigned_upto(s, u32::MAX as int) {
        Some(n) => n,
        None => 0,
    }
}

fn read_field(s: &[char]) -> (r: u32)
    ensures
        r == count_in(s@),
{
    match digits::read_unsigned(s, 0xffff_ffff) {
        Some(n) => n as u32,
        None => 0,
    }
}

/// Reads a count that git printed on a line.
pub fn read_count(s: &str) -> (r: u32)
    ensures
        r == count_in(text::trimmed(s@)),
{
    let chars = text::chars_of(s);
    read_field(text::trim(chars.as_slice()))
}

/// A count that a tool printed, where it printed one.
pub open spec fn number_in(s: Seq<char>) -> Option<int> {
    digits::unsigned_upto(text::trimmed(s), u32::MAX as int)
}

/// Reads the count of pull requests, or that there is none.
pub fn gh_pr_count(bytes: &[u8]) -> (r: Option<u32>)
    ensures
        match r {
            Some(n) => number_in(text::lossy(bytes@)) == Some(n as int),
            None => number_in(text::lossy(bytes@)) is None,
        },
{
    let raw = text::decode_lossy(bytes);
    let chars = text::chars_of(raw.as_str());
    match digits::read_unsigned(text::trim(chars.as_slice()), 0xffff_ffff) {
        Some(n) => Some(n as u32),
        None => None,
    }
}

/// The text that git printed, without white space around it.
pub fn printed(bytes: &[u8]) -> (r: String)
    ensures
        r@ == text::trimmed(text::lossy(bytes@)),
{
    let raw = text::decode_lossy(bytes);
    text::trim_str(raw.as_str())
}

// ---------------------------------------------------------------------------
// The most recent branch.
// ---------------------------------------------------------------------------

/// Field `i` of a line, empty where there is none.
pub open spec fn field(f: Seq<Seq<char>>, i: int) -> Seq<char> {
    if i < f.len() {
        f[i]
    } else {
        seq![]
    }
}

fn field_of<'a>(f: &Vec<&'a [char]>, i: usize) -> (r: String)
    ensures
        r@ == field(text::views(f@), i as int),
{
    proof {
        assert(text::views(f@).len() == f@.len());
    }
    if i < f.len() {
        proof {
            assert(text::views(f@)[i as int] == f@[i as int]@);
        }
        text::string_of(f[i])
    } else {
        String::new()
    }
}

/// The branch, its last commit and its age: fields between unit separators.
pub struct Branch {
    pub name: String,
    pub hash: String,
    pub subject: String,
    pub age: String,
}

/// A branch is what a line says.
pub open spec fn branch_says(line: Seq<char>, b: Branch) -> bool {
    let f = text::fields(line, '\u{1f}');
    &&& b.name@ == text::trimmed(field(f, 0))
    &&& b.hash@ == field(f, 1)
    &&& b.subject@ == field(f, 2)
    &&& b.age@ == text::trimmed(field(f, 3))
}

/// Reads the branch that was worked on last. None where git printed nothing.
pub fn read_branch(line: &str) -> (r: Option<Branch>)
    ensures
        r is Some == !text::blank(line@),
        r matches Some(b) ==> branch_says(line@, b),
{
    let chars = text::chars_of(line);
    if text::is_blank(chars.as_slice()) {
        return None;
    }
    let f = text::split(chars.as_slice(), '\u{1f}');
    Some(
        Branch {
            name: text::trim_str(field_of(&f, 0).as_str()),
            hash: field_of(&f, 1),
            subject: field_of(&f, 2),
            age: text::trim_str(field_of(&f, 3).as_str()),
        },
    )
}

// ---------------------------------------------------------------------------
// The working tree.
// ---------------------------------------------------------------------------

/// A line of the status names a file that git does not know.
pub open spec fn is_untracked(l: Seq<char>) -> bool {
    l.len() >= 2 && l[0] == '?' && l[1] == '?'
}

/// A line of the status names a file that is staged.
pub open spec fn is_staged(l: Seq<char>) -> bool {
    !is_untracked(l) && l.len() > 0 && l[0] != ' '
}

/// How many lines are untracked.
pub open spec fn untracked_in(l: Seq<Seq<char>>) -> nat
    decreases l.len(),
{
    if l.len() == 0 {
        0
    } else {
        untracked_in(l.drop_last()) + if is_untracked(l.last()) {
            1nat
        } else {
            0
        }
    }
}

/// How many lines are staged.
pub open spec fn staged_in(l: Seq<Seq<char>>) -> nat
    decreases l.len(),
{
    if l.len() == 0 {
        0
    } else {
        staged_in(l.drop_last()) + if is_staged(l.last()) {
            1nat
        } else {
            0
        }
    }
}

/// The counts of the working tree: changed, untracked, staged.
pub fn tree_counts(porcelain: &str) -> (r: (u32, u32, u32))
    requires
        text::line_list(porcelain@).len() <= u32::MAX,
    ensures
        r.0 == text::line_list(porcelain@).len(),
        r.1 == untracked_in(text::line_list(porcelain@)),
        r.2 == staged_in(text::line_list(porcelain@)),
{
    let chars = text::chars_of(porcelain);
    let l = text::lines(chars.as_slice());
    let ghost all = text::line_list(porcelain@);
    let mut untracked: u32 = 0;
    let mut staged: u32 = 0;
    let mut i: usize = 0;
    proof {
        assert(all.len() == l@.len());
        assert(all.take(0) =~= Seq::<Seq<char>>::empty());
    }
    while i < l.len()
        invariant
            i <= l@.len() <= u32::MAX,
            all == text::views(l@),
            untracked <= i,
            staged <= i,
            untracked == untracked_in(all.take(i as int)),
            staged == staged_in(all.take(i as int)),
        decreases l@.len() - i,
    {
        let line = l[i];
        proof {
            assert(all[i as int] == line@);
            assert(all.take(i + 1).drop_last() =~= all.take(i as int));
        }
        if line.len() >= 2 && line[0] == '?' && line[1] == '?' {
            untracked += 1;
        } else if line.len() > 0 && line[0] != ' ' {
            staged += 1;
        }
        i += 1;
    }
    proof {
        assert(all.take(i as int) =~= all);
    }
    (l.len() as u32, untracked, staged)
}

/// No file is both untracked and staged, and none is counted that did not change.
pub proof fn tree_counts_add_up(l: Seq<Seq<char>>)
    ensures
        untracked_in(l) + staged_in(l) <= l.len(),
    decreases l.len(),
{
    if l.len() > 0 {
        tree_counts_add_up(l.drop_last());
    }
}

// ---------------------------------------------------------------------------
// What the branch carries.
// ---------------------------------------------------------------------------

/// The number in column `k` of a line of the diff statistics.
pub open spec fn stat_in(line: Seq<char>, k: int) -> int {
    count_in(field(text::fields(line, '\t'), k))
}

/// The sum of column `k` over all lines.
pub open spec fn stat_sum(l: Seq<Seq<char>>, k: int) -> nat
    decreases l.len(),
{
    if l.len() == 0 {
        0
    } else {
        (stat_sum(l.drop_last(), k) + stat_in(l.last(), k)) as nat
    }
}

proof fn stat_sum_grows(l: Seq<Seq<char>>, k: int, n: int)
    requires
        0 <= n <= l.len(),
    ensures
        stat_sum(l.take(n), k) <= stat_sum(l, k),
    decreases l.len() - n,
{
    if n < l.len() {
        stat_sum_grows(l, k, n + 1);
        assert(l.take(n + 1).drop_last() =~= l.take(n));
    } else {
        assert(l.take(n) =~= l);
    }
}

/// The lines added and removed, summed over the files; binary files count nothing.
pub fn loc_counts(numstat: &str) -> (r: (u32, u32))
    requires
        stat_sum(text::line_list(numstat@), 0) <= u32::MAX,
        stat_sum(text::line_list(numstat@), 1) <= u32::MAX,
    ensures
        r.0 == stat_sum(text::line_list(numstat@), 0),
        r.1 == stat_sum(text::line_list(numstat@), 1),
{
    let chars = text::chars_of(numstat);
    let l = text::lines(chars.as_slice());
    let ghost all = text::line_list(numstat@);
    let mut added: u32 = 0;
    let mut removed: u32 = 0;
    let mut i: usize = 0;
    proof {
        assert(all.len() == l@.len());
        assert(all.take(0) =~= Seq::<Seq<char>>::empty());
    }
    while i < l.len()
        invariant
            i <= l@.len() == all.len(),
            all == text::views(l@),
            stat_sum(all, 0) <= u32::MAX,
            stat_sum(all, 1) <= u32::MAX,
            added == stat_sum(all.take(i as int), 0),
            removed == stat_sum(all.take(i as int), 1),
        decreases l@.len() - i,
    {
        let f = text::split(l[i], '\t');
        let plus: u32 = read_field(text::chars_of(field_of(&f, 0).as_str()).as_slice());
        let minus: u32 = read_field(text::chars_of(field_of(&f, 1).as_str()).as_slice());
        proof {
            assert(all[i as int] == l@[i as int]@);
            assert(all.take(i + 1).drop_last() =~= all.take(i as int));
            stat_sum_grows(all, 0, i + 1);
            stat_sum_grows(all, 1, i + 1);
        }
        added += plus;
        removed += minus;
        i += 1;
    }
    proof {
        assert(all.take(i as int) =~= all);
    }
    (added, removed)
}

/// The names under which the main line is looked for, in that order.
pub open spec fn base_names() -> Seq<Seq<char>> {
    seq!["origin/main"@, "origin/master"@, "main"@, "master"@]
}

/// Name `i` of the main line, while there is one.
pub fn base_name(i: usize) -> (r: Option<String>)
    ensures
        match r {
            Some(s) => i < base_names().len() && s@ == base_names()[i as int],
            None => i >= base_names().len(),
        },
{
    if i == 0 {
        Some("origin/main".to_string())
    } else if i == 1 {
        Some("origin/master".to_string())
    } else if i == 2 {
        Some("main".to_string())
    } else if i == 3 {
        Some("master".to_string())
    } else {
        None
    }
}

/// A name stands for a commit where git printed one for it.
pub fn is_base(hash: &Option<String>) -> (r: bool)
    ensures
        r == (hash matches Some(h) && !text::blank(h@)),
{
    match hash {
        Some(h) => {
            let chars = text::chars_of(h.as_str());
            !text::is_blank(chars.as_slice())
        },
        None => false,
    }
}

/// The range of commits that a branch carries beyond its base.
pub fn beyond(base: &str, symmetric: bool) -> (r: String)
    ensures
        r@ == base@ + (if symmetric {
            "...HEAD"@
        } else {
            "..HEAD"@
        }),
{
    if symmetric {
        text::concat2(base, "...HEAD")
    } else {
        text::concat2(base, "..HEAD")
    }
}

/// Nothing known of a repository yet, but that it was looked at.
pub fn no_repo() -> (r: GitStats)
    ensures
        r.fresh && !r.ok,
        empty(r),
{
    GitStats {
        fresh: true,
        ok: false,
        branch: String::new(),
        dirty: 0,
        untracked: 0,
        staged: 0,
        ahead: 0,
        behind: 0,
        last_hash: String::new(),
        last_msg: String::new(),
        last_rel: String::new(),
        commits_today: 0,
        pr_count: 0,
        repo: String::new(),
        loc_added: 0,
        loc_removed: 0,
        branch_commits: 0,
        merges_main: 0,
    }
}

/// What git printed, each part where git succeeded.
pub struct Printed {
    pub heads: Option<String>,
    pub today: Option<String>,
    pub status: Option<String>,
    pub ahead: Option<String>,
    pub merges: Option<String>,
    pub numstat: Option<String>,
    pub prs: Option<u32>,
}

/// The count in a part, zero where git failed.
pub open spec fn count_of(s: Option<String>) -> int {
    match s {
        Some(t) => count_in(text::trimmed(t@)),
        None => 0,
    }
}

/// The lines of a part, none where git failed.
pub open spec fn lines_in(s: Option<String>) -> Seq<Seq<char>> {
    match s {
        Some(t) => text::line_list(t@),
        None => seq![],
    }
}

/// The counts of what git printed fit.
pub open spec fn countable(p: Printed) -> bool {
    &&& lines_in(p.status).len() <= u32::MAX
    &&& stat_sum(lines_in(p.numstat), 0) <= u32::MAX
    &&& stat_sum(lines_in(p.numstat), 1) <= u32::MAX
}

/// Do the numbers in column `k` add up to a number of 32 bits?
fn sums_up(l: &Vec<&[char]>, k: usize) -> (r: bool)
    ensures
        r == (stat_sum(text::views(l@), k as int) <= u32::MAX),
{
    let ghost all = text::views(l@);
    let mut sum: u32 = 0;
    let mut i: usize = 0;
    proof {
        assert(all.take(0) =~= Seq::<Seq<char>>::empty());
    }
    while i < l.len()
        invariant
            i <= l@.len() == all.len(),
            all == text::views(l@),
            sum == stat_sum(all.take(i as int), k as int),
        decreases l@.len() - i,
    {
        let f = text::split(l[i], '\t');
        let n: u32 = read_field(text::chars_of(field_of(&f, k).as_str()).as_slice());
        proof {
            assert(all[i as int] == l@[i as int]@);
            assert(all.take(i + 1).drop_last() =~= all.take(i as int));
            stat_sum_grows(all, k as int, i + 1);
        }
        if n > 0xffff_ffff - sum {
            return false;
        }
        sum += n;
        i += 1;
    }
    proof {
        assert(all.take(i as int) =~= all);
    }
    true
}

/// Do the counts of what git printed fit?
pub fn can_count(p: &Printed) -> (r: bool)
    ensures
        r == countable(*p),
{
    let tree = match &p.status {
        Some(s) => {
            let chars = text::chars_of(s.as_str());
            let l = text::lines(chars.as_slice());
            proof {
                assert(text::views(l@).len() == l@.len());
            }
            l.len() as u64 <= 0xffff_ffff
        },
        None => true,
    };
    let loc = match &p.numstat {
        Some(s) => {
            let chars = text::chars_of(s.as_str());
            let l = text::lines(chars.as_slice());
            sums_up(&l, 0) && sums_up(&l, 1)
        },
        None => true,
    };
    tree && loc
}

/// Nothing is known of a repository.
pub open spec fn empty(g: GitStats) -> bool {
    &&& g.dirty == 0 && g.untracked == 0 && g.staged == 0 && g.ahead == 0 && g.behind == 0
    &&& g.commits_today == 0 && g.pr_count == 0 && g.loc_added == 0 && g.loc_removed == 0
    &&& g.branch_commits == 0 && g.merges_main == 0
    &&& g.branch@.len() == 0 && g.last_hash@.len() == 0 && g.last_msg@.len() == 0
    &&& g.last_rel@.len() == 0 && g.repo@.len() == 0
}

/// The pulse says what git printed.
pub open spec fn pulse(repo: Seq<char>, p: Printed, g: GitStats) -> bool {
    &&& g.fresh
    &&& g.ok == (p.heads matches Some(h) && !text::blank(h@))
    &&& g.ok ==> {
        &&& g.repo@ == repo
        &&& branch_says(
            p.heads->0@,
            Branch { name: g.branch, hash: g.last_hash, subject: g.last_msg, age: g.last_rel },
        )
        &&& g.commits_today == count_of(p.today)
        &&& g.dirty == lines_in(p.status).len()
        &&& g.untracked == untracked_in(lines_in(p.status))
        &&& g.staged == staged_in(lines_in(p.status))
        &&& g.branch_commits == count_of(p.ahead)
        &&& g.merges_main == count_of(p.merges)
        &&& g.loc_added == stat_sum(lines_in(p.numstat), 0)
        &&& g.loc_removed == stat_sum(lines_in(p.numstat), 1)
        &&& g.pr_count == match p.prs {
            Some(n) => n,
            None => 0,
        }
    }
    &&& !g.ok ==> empty(g)
    &&& g.ahead == 0 && g.behind == 0
}

fn part_count(s: &Option<String>) -> (r: u32)
    ensures
        r == count_of(*s),
{
    match s {
        Some(t) => read_count(t.as_str()),
        None => 0,
    }
}

/// The pulse of a repository by its name, from what git printed.
pub fn scan_git(repo: &str, p: &Printed) -> (r: GitStats)
    requires
        countable(*p),
    ensures
        pulse(repo@, *p, r),
{
    let mut g = no_repo();
    let branch = match &p.heads {
        Some(h) => read_branch(h.as_str()),
        None => None,
    };
    match branch {
        None => g,
        Some(b) => {
            let tree: (u32, u32, u32) = match &p.status {
                Some(s) => tree_counts(s.as_str()),
                None => (0, 0, 0),
            };
            let loc: (u32, u32) = match &p.numstat {
                Some(s) => loc_counts(s.as_str()),
                None => (0, 0),
            };
            g.ok = true;
            g.repo = repo.to_string();
            g.branch = b.name;
            g.last_hash = b.hash;
            g.last_msg = b.subject;
            g.last_rel = b.age;
            g.commits_today = part_count(&p.today);
            g.dirty = tree.0;
            g.untracked = tree.1;
            g.staged = tree.2;
            g.branch_commits = part_count(&p.ahead);
            g.merges_main = part_count(&p.merges);
            g.loc_added = loc.0;
            g.loc_removed = loc.1;
            g.pr_count = match p.prs {
                Some(n) => n,
                None => 0,
            };
            g
        },
    }
}

// ---------------------------------------------------------------------------
// What git's texts say.
// ---------------------------------------------------------------------------

/// A file is untracked where its line starts with two question marks, and staged where its first
/// character is neither a space nor one of those; each counts once.
pub proof fn files_are_counted_by_their_marks(l: Seq<Seq<char>>)
    ensures
        untracked_in(l) == l.filter(|x: Seq<char>| x.len() >= 2 && x[0] == '?' && x[1] == '?').len(),
        staged_in(l) == l.filter(
            |x: Seq<char>|
                x.len() > 0 && x[0] != ' ' && !(x.len() >= 2 && x[0] == '?' && x[1] == '?'),
        ).len(),
    decreases l.len(),
{
    reveal(Seq::filter);
    if l.len() > 0 {
        files_are_counted_by_their_marks(l.drop_last());
    }
}

/// Each file adds the lines added and the lines removed that its line tells, in this order; a
/// binary file, which has a dash in their place, adds none.
pub proof fn files_add_their_lines(
    l: Seq<Seq<char>>,
    added: nat,
    removed: nat,
    name: Seq<char>,
    binary: bool,
)
    requires
        added <= u32::MAX,
        removed <= u32::MAX,
        forall|i: int| 0 <= i < name.len() ==> name[i] != '\t',
    ensures
        ({
            let a = if binary {
                seq!['-']
            } else {
                digits::dec(added)
            };
            let b = if binary {
                seq!['-']
            } else {
                digits::dec(removed)
            };
            let line = a + seq!['\t'] + b + seq!['\t'] + name;
            &&& stat_sum(l.push(line), 0) == stat_sum(l, 0) + (if binary {
                0
            } else {
                added
            })
            &&& stat_sum(l.push(line), 1) == stat_sum(l, 1) + (if binary {
                0
            } else {
                removed
            })
        }),
{
    let a = if binary {
        seq!['-']
    } else {
        digits::dec(added)
    };
    let b = if binary {
        seq!['-']
    } else {
        digits::dec(removed)
    };
    let line = a + seq!['\t'] + b + seq!['\t'] + name;
    let parts = seq![a, b, name];
    digits::dec_value(added);
    digits::dec_value(removed);
    assert forall|i: int, j: int| 0 <= i < parts.len() && 0 <= j < parts[i].len() implies parts[i][j]
        != '\t' by {
        if i == 0 && !binary {
            assert(digits::digit_value(a[j]) is Some);
        }
        if i == 1 && !binary {
            assert(digits::digit_value(b[j]) is Some);
        }
    }
    text::fields_of_joined(parts, '\t');
    assert(parts.drop_last() =~= seq![a, b]);
    assert(parts.drop_last().drop_last() =~= seq![a]);
    assert(text::joined(seq![a], seq!['\t']) == a);
    assert(text::joined(seq![a, b], seq!['\t']) =~= a + seq!['\t'] + b);
    assert(text::joined(parts, seq!['\t']) =~= line);
    assert(text::fields(line, '\t') == parts);
    if !binary {
        assert(digits::digit_value(a[0]) is Some && digits::digit_value(b[0]) is Some);
    } else {
        assert(digits::digit_value(a[0]) is None);
    }
    assert(l.push(line).drop_last() =~= l);
    assert(count_in(a) == if binary {
        0
    } else {
        added
    });
    assert(count_in(b) == if binary {
        0
    } else {
        removed
    });
}

/// The pulse of a repository shows the branch that was worked on last with its commit, and each
/// number from its own source.
pub proof fn pulse_shows_what_git_printed(
    repo: Seq<char>,
    p: Printed,
    g: GitStats,
    name: Seq<char>,
    hash: Seq<char>,
    subject: Seq<char>,
    age: Seq<char>,
)
    requires
        pulse(repo, p, g),
        p.heads is Some,
        !text::blank(p.heads->0@),
        p.heads->0@ == text::joined(seq![name, hash, subject, age], seq!['\u{1f}']),
        forall|i: int, j: int|
            0 <= i < 4 && 0 <= j < (seq![name, hash, subject, age])[i].len() ==> (seq![
                name,
                hash,
                subject,
                age,
            ])[i][j] != '\u{1f}',
    ensures
        g.ok && g.fresh && g.repo@ == repo,
        g.branch@ == text::trimmed(name),
        g.last_hash@ == hash,
        g.last_msg@ == subject,
        g.last_rel@ == text::trimmed(age),
        p.status matches Some(s) ==> g.dirty == text::line_list(s@).len() && g.untracked
            == untracked_in(text::line_list(s@)) && g.staged == staged_in(text::line_list(s@)),
        p.numstat matches Some(s) ==> g.loc_added == stat_sum(text::line_list(s@), 0)
            && g.loc_removed == stat_sum(text::line_list(s@), 1),
        forall|n: nat|
            #![trigger digits::dec(n)]
            n <= u32::MAX ==> {
                &&& (p.today matches Some(s) && text::trimmed(s@) == digits::dec(n))
                    ==> g.commits_today == n
                &&& (p.ahead matches Some(s) && text::trimmed(s@) == digits::dec(n))
                    ==> g.branch_commits == n
                &&& (p.merges matches Some(s) && text::trimmed(s@) == digits::dec(n))
                    ==> g.merges_main == n
            },
        p.prs matches Some(n) ==> g.pr_count == n,
        p.today is None ==> g.commits_today == 0,
        p.ahead is None ==> g.branch_commits == 0,
        p.merges is None ==> g.merges_main == 0,
        p.prs is None ==> g.pr_count == 0,
        p.status is None ==> g.dirty == 0,
{
    let parts = seq![name, hash, subject, age];
    text::fields_of_joined(parts, '\u{1f}');
    assert forall|n: nat| #![trigger digits::dec(n)] n <= u32::MAX implies count_in(digits::dec(n))
        == n by {
        digits::dec_value(n);
        assert(digits::digit_value(digits::dec(n)[0]) is Some);
    }
}

/// Where git names no branch, nothing is known of the repository.
pub proof fn pulse_of_no_repository_is_empty(repo: Seq<char>, p: Printed, g: GitStats)
    requires
        pulse(repo, p, g),
        p.heads is None || text::blank(p.heads->0@),
    ensures
        g.fresh && !g.ok,
        g.dirty == 0 && g.untracked == 0 && g.staged == 0 && g.commits_today == 0,
        g.branch@.len() == 0 && g.last_hash@.len() == 0 && g.last_msg@.len() == 0,
        g.loc_added == 0 && g.loc_removed == 0 && g.branch_commits == 0 && g.merges_main == 0,
{
}

/// Without a file no line has changed.
pub proof fn no_files_change_no_lines(k: int)
    ensures
        stat_sum(Seq::empty(), k) == 0,
{
}

} // verus!
