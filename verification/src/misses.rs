//! The log of tracks for which no lyrics were found.
//!
//! Misses are appended as they happen and put in order when the log is read:
//! one entry per track, the last one logged, in the order in which the tracks
//! were first logged.

use vstd::prelude::*;
use crate::text;

verus! {

/// One logged lyrics miss.
#[derive(Debug)]
pub struct Miss {
    pub track_id: String,
    pub artist: String,
    pub track: String,
    pub album: String,
    /// Unix seconds of when it was first or last logged.
    pub ts: i64,
    /// The sources that were tried, such as "lrclib,netease".
    pub tried: String,
    /// How many reconcile passes have tried this one again.
    pub retries: u32,
}

impl Clone for Miss {
    fn clone(&self) -> (r: Self)
        ensures
            r == *self,
    {
        Miss {
            track_id: self.track_id.clone(),
            artist: self.artist.clone(),
            track: self.track.clone(),
            album: self.album.clone(),
            ts: self.ts,
            tried: self.tried.clone(),
            retries: self.retries,
        }
    }
}

/// The first entry for a track, or the length.
pub open spec fn row_from(rows: Seq<Miss>, id: Seq<char>, i: int) -> int
    decreases rows.len() - i,
{
    if i < 0 || i >= rows.len() {
        rows.len() as int
    } else if rows[i].track_id@ == id {
        i
    } else {
        row_from(rows, id, i + 1)
    }
}

/// The first entry for a track, or the length.
pub open spec fn row_of(rows: Seq<Miss>, id: Seq<char>) -> int {
    row_from(rows, id, 0)
}

/// A track is in the log.
pub open spec fn logged(rows: Seq<Miss>, id: Seq<char>) -> bool {
    exists|i: int| 0 <= i < rows.len() && (#[trigger] rows[i]).track_id@ == id
}

/// One entry per track: the last one, where the first one stood.
pub open spec fn deduped(rows: Seq<Miss>) -> Seq<Miss>
    decreases rows.len(),
{
    if rows.len() == 0 {
        seq![]
    } else {
        let before = deduped(rows.drop_last());
        let k = row_of(before, rows.last().track_id@);
        if k < before.len() {
            before.update(k, rows.last())
        } else {
            before.push(rows.last())
        }
    }
}

/// [`row_of`] is the first entry for the track, and the length when there is none.
pub proof fn row_from_is_first(rows: Seq<Miss>, id: Seq<char>, i: int)
    requires
        0 <= i <= rows.len(),
    ensures
        i <= row_from(rows, id, i) <= rows.len(),
        row_from(rows, id, i) < rows.len() ==> rows[row_from(rows, id, i)].track_id@ == id,
        forall|j: int| i <= j < row_from(rows, id, i) ==> (#[trigger] rows[j]).track_id@ != id,
    decreases rows.len() - i,
{
    if i < rows.len() && rows[i].track_id@ != id {
        row_from_is_first(rows, id, i + 1);
    }
}

fn find_row(rows: &Vec<Miss>, id: &str) -> (r: usize)
    ensures
        r == row_of(rows@, id@),
        r <= rows@.len(),
{
    let mut i: usize = 0;
    while i < rows.len()
        invariant
            i <= rows@.len(),
            row_of(rows@, id@) == row_from(rows@, id@, i as int),
        decreases rows@.len() - i,
    {
        if text::same_str(rows[i].track_id.as_str(), id) {
            return i;
        }
        i += 1;
    }
    i
}

/// Puts the rows of the log in order (deduped by track, last entry wins).
pub fn load_misses(rows: &Vec<Miss>) -> (r: Vec<Miss>)
    ensures
        r@ == deduped(rows@),
{
    let mut out: Vec<Miss> = Vec::new();
    let mut i: usize = 0;
    proof {
        assert(out@ =~= deduped(rows@.take(0)));
    }
    while i < rows.len()
        invariant
            i <= rows@.len(),
            out@ == deduped(rows@.take(i as int)),
        decreases rows@.len() - i,
    {
        proof {
            assert(rows@.take(i + 1).drop_last() =~= rows@.take(i as int));
            assert(rows@.take(i + 1).last() == rows@[i as int]);
        }
        let row = rows[i].clone();
        let k: usize = find_row(&out, row.track_id.as_str());
        if k < out.len() {
            out.set(k, row);
        } else {
            out.push(row);
        }
        i += 1;
    }
    proof {
        assert(rows@.take(i as int) =~= rows@);
    }
    out
}

/// How many distinct tracks are in the log.
pub fn miss_count(rows: &Vec<Miss>) -> (r: usize)
    ensures
        r == deduped(rows@).len(),
{
    load_misses(rows).len()
}

/// The retry count that a track has in the ordered log, zero where it is not logged.
pub open spec fn retries_of(misses: Seq<Miss>, id: Seq<char>) -> u32 {
    if row_of(misses, id) < misses.len() {
        misses[row_of(misses, id)].retries
    } else {
        0
    }
}

/// The row to append for a track that was not resolved. It carries forward the
/// retry count of a track that was already logged.
pub fn log_miss(
    rows: &Vec<Miss>,
    artist: &str,
    track: &str,
    album: &str,
    track_id: &str,
    tried: &str,
    now: i64,
) -> (r: Miss)
    ensures
        r.track_id@ == track_id@,
        r.artist@ == artist@,
        r.track@ == track@,
        r.album@ == album@,
        r.tried@ == tried@,
        r.ts == now,
        r.retries == retries_of(deduped(rows@), track_id@),
{
    let misses = load_misses(rows);
    let k: usize = find_row(&misses, track_id);
    let retries: u32 = if k < misses.len() {
        misses[k].retries
    } else {
        0
    };
    Miss {
        track_id: track_id.to_string(),
        artist: artist.to_string(),
        track: track.to_string(),
        album: album.to_string(),
        ts: now,
        tried: tried.to_string(),
        retries,
    }
}

/// The entries of all other tracks, in order.
pub open spec fn without(misses: Seq<Miss>, id: Seq<char>) -> Seq<Miss>
    decreases misses.len(),
{
    if misses.len() == 0 {
        seq![]
    } else if misses.last().track_id@ == id {
        without(misses.drop_last(), id)
    } else {
        without(misses.drop_last(), id).push(misses.last())
    }
}

/// Drops a track from the log: the entries to write back, or `None` when the
/// track is not logged and nothing has to be written.
pub fn clear_miss(rows: &Vec<Miss>, track_id: &str) -> (r: Option<Vec<Miss>>)
    ensures
        r is Some == logged(deduped(rows@), track_id@),
        r matches Some(kept) ==> kept@ == without(deduped(rows@), track_id@),
{
    let misses = load_misses(rows);
    proof {
        row_from_is_first(misses@, track_id@, 0);
    }
    if find_row(&misses, track_id) == misses.len() {
        return None;
    }
    proof {
        assert(misses@[row_of(misses@, track_id@)].track_id@ == track_id@);
    }
    let mut kept: Vec<Miss> = Vec::new();
    let mut i: usize = 0;
    while i < misses.len()
        invariant
            i <= misses@.len(),
            kept@ == without(misses@.take(i as int), track_id@),
        decreases misses@.len() - i,
    {
        proof {
            assert(misses@.take(i + 1).drop_last() =~= misses@.take(i as int));
            assert(misses@.take(i + 1).last() == misses@[i as int]);
        }
        if !text::same_str(misses[i].track_id.as_str(), track_id) {
            kept.push(misses[i].clone());
        }
        i += 1;
    }
    proof {
        assert(misses@.take(i as int) =~= misses@);
    }
    Some(kept)
}

/// An entry after one more retry.
pub open spec fn retried(m: Miss, now: i64) -> Miss {
    Miss {
        retries: if m.retries < u32::MAX {
            (m.retries + 1) as u32
        } else {
            u32::MAX
        },
        ts: now,
        ..m
    }
}

/// The entries with those of one track retried.
pub open spec fn bumped(misses: Seq<Miss>, id: Seq<char>, now: i64) -> Seq<Miss> {
    Seq::new(
        misses.len(),
        |i: int|
            if misses[i].track_id@ == id {
                retried(misses[i], now)
            } else {
                misses[i]
            },
    )
}

/// Bumps the retry counter of a track: the entries to write back, or `None` when
/// the track is not logged.
pub fn bump_retry(rows: &Vec<Miss>, track_id: &str, now: i64) -> (r: Option<Vec<Miss>>)
    ensures
        r is Some == logged(deduped(rows@), track_id@),
        r matches Some(all) ==> all@ == bumped(deduped(rows@), track_id@, now),
{
    let misses = load_misses(rows);
    let mut changed: bool = false;
    let mut out: Vec<Miss> = Vec::new();
    let mut i: usize = 0;
    while i < misses.len()
        invariant
            i <= misses@.len(),
            changed == logged(misses@.take(i as int), track_id@),
            out@ == bumped(misses@, track_id@, now).take(i as int),
        decreases misses@.len() - i,
    {
        let mut m = misses[i].clone();
        proof {
            let now_rows = misses@.take(i + 1);
            assert(now_rows[i as int] == misses@[i as int]);
            assert forall|j: int| 0 <= j < i implies now_rows[j] == misses@.take(i as int)[j] by {}
            if logged(misses@.take(i as int), track_id@) {
                let j = choose|j: int|
                    0 <= j < i && (#[trigger] misses@.take(i as int)[j]).track_id@ == track_id@;
                assert(now_rows[j].track_id@ == track_id@);
            }
            if logged(now_rows, track_id@) {
                let j = choose|j: int|
                    0 <= j < i + 1 && (#[trigger] now_rows[j]).track_id@ == track_id@;
                if j < i {
                    assert(misses@.take(i as int)[j].track_id@ == track_id@);
                }
            }
        }
        if text::same_str(m.track_id.as_str(), track_id) {
            m.retries = if m.retries < u32::MAX {
                m.retries + 1
            } else {
                u32::MAX
            };
            m.ts = now;
            changed = true;
        }
        out.push(m);
        proof {
            let all = bumped(misses@, track_id@, now);
            assert(all.take(i + 1) =~= all.take(i as int).push(all[i as int]));
        }
        i += 1;
    }
    proof {
        assert(misses@.take(i as int) =~= misses@);
        let all = bumped(misses@, track_id@, now);
        assert(all.take(i as int) =~= all);
    }
    if changed {
        Some(out)
    } else {
        None
    }
}

// ---------------------------------------------------------------------------
// Laws of the log.
// ---------------------------------------------------------------------------

/// No two entries are for the same track.
pub open spec fn distinct(misses: Seq<Miss>) -> bool {
    forall|i: int, j: int|
        0 <= i < j < misses.len() ==> (#[trigger] misses[i]).track_id@ != (
        #[trigger] misses[j]).track_id@
}

/// The row that was logged last for a track.
pub open spec fn last_row(rows: Seq<Miss>, id: Seq<char>) -> Option<Miss>
    decreases rows.len(),
{
    if rows.len() == 0 {
        None
    } else if rows.last().track_id@ == id {
        Some(rows.last())
    } else {
        last_row(rows.drop_last(), id)
    }
}

/// The ordered log has one entry per track, for exactly the tracks that were
/// logged, and each entry is the last one that was logged for its track.
pub proof fn log_keeps_the_last_row(rows: Seq<Miss>, id: Seq<char>)
    ensures
        distinct(deduped(rows)),
        logged(deduped(rows), id) == logged(rows, id),
        row_of(deduped(rows), id) < deduped(rows).len() ==> last_row(rows, id) == Some(
            deduped(rows)[row_of(deduped(rows), id)],
        ),
        row_of(deduped(rows), id) == deduped(rows).len() ==> last_row(rows, id) is None,
        deduped(rows).len() <= rows.len(),
    decreases rows.len(),
{
    if rows.len() > 0 {
        let front = rows.drop_last();
        let x = rows.last();
        log_keeps_the_last_row(front, id);
        let before = deduped(front);
        let after = deduped(rows);
        let k = row_of(before, x.track_id@);
        row_from_is_first(before, x.track_id@, 0);
        row_from_is_first(before, id, 0);
        row_from_is_first(after, id, 0);
        assert(distinct(after)) by {
            assert forall|i: int, j: int| 0 <= i < j < after.len() implies (
            #[trigger] after[i]).track_id@ != (#[trigger] after[j]).track_id@ by {
                if k < before.len() {
                    assert(before[i].track_id@ != before[j].track_id@);
                } else if j < before.len() {
                    assert(before[i].track_id@ != before[j].track_id@);
                } else {
                    assert(before[i].track_id@ != x.track_id@);
                }
            }
        }
        let a = row_of(after, id);
        let b = row_of(before, id);
        if x.track_id@ == id {
            assert(rows[rows.len() - 1].track_id@ == id);
            if k < before.len() {
                assert(after[k].track_id@ == id);
                assert(after[k] == x);
                if a != k {
                    assert(a < k);
                    assert(before[a] == after[a]);
                }
            } else {
                assert(after[before.len() as int] == x);
                if a < before.len() {
                    assert(after[a] == before[a]);
                }
            }
        } else {
            if b < before.len() {
                assert(b != k);
                assert(after[b] == before[b]);
                if a < b {
                    assert(after[a].track_id@ == id);
                    assert(a == k || after[a] == before[a]);
                }
                assert(a == b);
                assert(logged(before, id));
            } else {
                if a < after.len() {
                    assert(after[a].track_id@ == id);
                    if a < before.len() && a != k {
                        assert(after[a] == before[a]);
                    }
                }
                assert(a == after.len());
            }
            if logged(front, id) {
                let j = choose|j: int| 0 <= j < front.len() && (#[trigger] front[j]).track_id@ == id;
                assert(rows[j].track_id@ == id);
            }
            if logged(rows, id) {
                let j = choose|j: int| 0 <= j < rows.len() && (#[trigger] rows[j]).track_id@ == id;
                assert(front[j].track_id@ == id);
            }
            if logged(after, id) {
                let j = choose|j: int| 0 <= j < after.len() && (#[trigger] after[j]).track_id@ == id;
                assert(a <= j);
            }
            if logged(before, id) {
                let j = choose|j: int| 0 <= j < before.len() && (#[trigger] before[j]).track_id@ == id;
                assert(b <= j);
                assert(after[a].track_id@ == id);
            }
        }
    }
}

/// A log that has one entry per track reads back as it is.
pub proof fn ordered_log_reads_back(misses: Seq<Miss>)
    requires
        distinct(misses),
    ensures
        deduped(misses) == misses,
    decreases misses.len(),
{
    if misses.len() > 0 {
        let front = misses.drop_last();
        let x = misses.last();
        assert(distinct(front)) by {
            assert forall|i: int, j: int| 0 <= i < j < front.len() implies (
            #[trigger] front[i]).track_id@ != (#[trigger] front[j]).track_id@ by {
                assert(misses[i].track_id@ != misses[j].track_id@);
            }
        }
        ordered_log_reads_back(front);
        row_from_is_first(front, x.track_id@, 0);
        let k = row_of(front, x.track_id@);
        if k < front.len() {
            assert(misses[k].track_id@ != misses[misses.len() - 1].track_id@);
        }
        assert(front.push(x) =~= misses);
    } else {
        assert(deduped(misses) =~= misses);
    }
}

/// A cleared track is gone, and the other tracks stay.
pub proof fn clearing_removes_one_track(misses: Seq<Miss>, id: Seq<char>, other: Seq<char>)
    ensures
        !logged(without(misses, id), id),
        other != id ==> logged(without(misses, id), other) == logged(misses, other),
    decreases misses.len(),
{
    if misses.len() > 0 {
        let front = misses.drop_last();
        let x = misses.last();
        clearing_removes_one_track(front, id, other);
        let before = without(front, id);
        let after = without(misses, id);
        assert(misses[misses.len() - 1] == x);
        if x.track_id@ != id {
            assert(after[before.len() as int] == x);
        }
        if logged(after, id) {
            let j = choose|j: int| 0 <= j < after.len() && (#[trigger] after[j]).track_id@ == id;
            assert(before[j].track_id@ == id);
        }
        if other != id {
            if logged(front, other) {
                let j = choose|j: int| 0 <= j < front.len() && (#[trigger] front[j]).track_id@ == other;
                assert(misses[j].track_id@ == other);
            }
            if logged(before, other) {
                let j = choose|j: int| 0 <= j < before.len() && (#[trigger] before[j]).track_id@ == other;
                assert(after[j].track_id@ == other);
            }
            if logged(misses, other) {
                let j = choose|j: int| 0 <= j < misses.len() && (#[trigger] misses[j]).track_id@ == other;
                if j < front.len() {
                    assert(front[j].track_id@ == other);
                }
            }
            if logged(after, other) {
                let j = choose|j: int| 0 <= j < after.len() && (#[trigger] after[j]).track_id@ == other;
                if j < before.len() {
                    assert(before[j].track_id@ == other);
                }
            }
        }
    }
}

/// Logging a track again after others keeps one entry for it, with the retry
/// count carried forward.
pub proof fn logging_again_carries_the_count(rows: Seq<Miss>, row: Miss)
    requires
        row.retries == retries_of(deduped(rows), row.track_id@),
    ensures
        retries_of(deduped(rows.push(row)), row.track_id@) == row.retries,
        logged(deduped(rows), row.track_id@) ==> deduped(rows.push(row)).len() == deduped(rows).len(),
{
    let id = row.track_id@;
    let all = rows.push(row);
    assert(all.drop_last() =~= rows);
    log_keeps_the_last_row(all, id);
    row_from_is_first(deduped(all), id, 0);
    row_from_is_first(deduped(rows), id, 0);
    assert(all.last() == row);
    if logged(deduped(rows), id) {
        let j = choose|j: int|
            0 <= j < deduped(rows).len() && (#[trigger] deduped(rows)[j]).track_id@ == id;
        assert(row_of(deduped(rows), id) <= j);
    }
}

// ---------------------------------------------------------------------------
// The file.
// ---------------------------------------------------------------------------

/// The lines that are not blank.
pub open spec fn visible(list: Seq<Seq<char>>) -> Seq<Seq<char>>
    decreases list.len(),
{
    if list.len() == 0 {
        seq![]
    } else if text::blank(list.last()) {
        visible(list.drop_last())
    } else {
        visible(list.drop_last()).push(list.last())
    }
}

/// The encoded rows of a log file: its lines but for blank ones.
pub fn file_rows(body: &str) -> (r: Vec<String>)
    ensures
        text::texts(r@) == visible(text::line_list(body@)),
{
    let v = text::chars_of(body);
    let rows = text::lines(v.as_slice());
    let ghost list = text::line_list(body@);
    let mut out: Vec<String> = Vec::new();
    let mut i: usize = 0;
    proof {
        assert(text::texts(out@) =~= visible(list.take(0)));
    }
    while i < rows.len()
        invariant
            i <= rows@.len(),
            list == text::views(rows@),
            text::texts(out@) == visible(list.take(i as int)),
        decreases rows@.len() - i,
    {
        let ghost before = text::texts(out@);
        proof {
            assert(list.take(i + 1).drop_last() =~= list.take(i as int));
            assert(list.take(i + 1).last() == rows@[i as int]@);
        }
        if !text::is_blank(rows[i]) {
            out.push(text::string_of(rows[i]));
            proof {
                assert(text::texts(out@) =~= before.push(rows@[i as int]@));
            }
        }
        i += 1;
    }
    proof {
        assert(list.take(i as int) =~= list);
    }
    out
}

/// The file that holds these rows: each ends in a line feed.
pub open spec fn file_text(rows: Seq<Seq<char>>) -> Seq<char> {
    if rows.len() == 0 {
        seq![]
    } else {
        text::joined(rows, "\n"@) + "\n"@
    }
}

/// The text of a log file that holds these encoded rows.
pub fn file_body(rows: &Vec<String>) -> (r: String)
    ensures
        r@ == file_text(text::texts(rows@)),
{
    if rows.len() == 0 {
        return String::new();
    }
    let mut out = text::join_strings(rows, rows.len(), "\n");
    proof {
        assert(text::texts(rows@).take(rows@.len() as int) =~= text::texts(rows@));
    }
    out.append("\n");
    out
}

/// A row that can stand on a line of its own.
pub open spec fn one_line(row: Seq<char>) -> bool {
    &&& !text::blank(row)
    &&& text::chomp(row) == row
    &&& forall|i: int| 0 <= i < row.len() ==> row[i] != '\n'
}

/// The rows that were written to a file are the rows that are read from it.
pub proof fn file_reads_back(rows: Seq<Seq<char>>)
    requires
        forall|i: int| 0 <= i < rows.len() ==> one_line(#[trigger] rows[i]),
    ensures
        visible(text::line_list(file_text(rows))) == rows,
{
    lines_of_file(rows);
    visible_keeps(rows);
}

proof fn lines_of_file(rows: Seq<Seq<char>>)
    requires
        forall|i: int| 0 <= i < rows.len() ==> one_line(#[trigger] rows[i]),
    ensures
        text::line_list(file_text(rows)) == rows,
    decreases rows.len(),
{
    reveal_strlit("\n");
    if rows.len() == 0 {
        assert(text::line_list(file_text(rows)) =~= rows);
    } else {
        let front = rows.drop_last();
        let x = rows.last();
        assert(one_line(rows[rows.len() - 1]));
        assert forall|i: int| 0 <= i < front.len() implies one_line(#[trigger] front[i]) by {
            assert(front[i] == rows[i]);
        }
        lines_of_file(front);
        text::line_of_one(x);
        assert(file_text(rows) =~= file_text(front) + x.push('\n'));
        text::lines_of_two(file_text(front), x.push('\n'));
        assert(front + seq![x] =~= rows);
    }
}

proof fn visible_keeps(rows: Seq<Seq<char>>)
    requires
        forall|i: int| 0 <= i < rows.len() ==> one_line(#[trigger] rows[i]),
    ensures
        visible(rows) == rows,
    decreases rows.len(),
{
    if rows.len() > 0 {
        let front = rows.drop_last();
        assert(one_line(rows[rows.len() - 1]));
        assert forall|i: int| 0 <= i < front.len() implies one_line(#[trigger] front[i]) by {
            assert(front[i] == rows[i]);
        }
        visible_keeps(front);
        assert(front.push(rows.last()) =~= rows);
    } else {
        assert(visible(rows) =~= rows);
    }
}

/// The ordered log keeps the order in which the tracks were first logged.
pub proof fn log_keeps_the_order_of_first_rows(rows: Seq<Miss>)
    ensures
        deduped(rows).map_values(|m: Miss| m.track_id@) == crate::lyrics::once(
            rows.map_values(|m: Miss| m.track_id@),
        ),
    decreases rows.len(),
{
    let ids = rows.map_values(|m: Miss| m.track_id@);
    if rows.len() > 0 {
        let before = rows.drop_last();
        log_keeps_the_order_of_first_rows(before);
        let short = deduped(before);
        let known = before.map_values(|m: Miss| m.track_id@);
        assert(ids.drop_last() =~= known);
        let id = rows.last().track_id@;
        assert(ids.last() == id);
        row_from_is_first(short, id, 0);
        crate::lyrics::once_keeps_each(known);
        let k = row_of(short, id);
        let names = short.map_values(|m: Miss| m.track_id@);
        if k < short.len() {
            assert(names[k] == id);
            assert(names.contains(id));
            assert(known.contains(id));
        } else {
            assert forall|j: int| 0 <= j < names.len() implies names[j] != id by {
                assert(short[j].track_id@ != id);
            }
            assert(!names.contains(id));
            assert(!known.contains(id));
        }
    }
    assert(deduped(rows).map_values(|m: Miss| m.track_id@) =~= crate::lyrics::once(ids));
}

/// Clearing a track keeps exactly the entries of the others, as they are and in their order.
pub proof fn clearing_keeps_the_others(misses: Seq<Miss>, id: Seq<char>)
    ensures
        without(misses, id) == misses.filter(|m: Miss| m.track_id@ != id),
    decreases misses.len(),
{
    reveal(Seq::filter);
    if misses.len() > 0 {
        clearing_keeps_the_others(misses.drop_last(), id);
    }
}

/// Trying a track again adds one to its count and sets its time; everything else of it, and all
/// of the other tracks, stays.
pub proof fn retrying_counts_one(misses: Seq<Miss>, id: Seq<char>, now: i64, i: int)
    requires
        0 <= i < misses.len(),
    ensures
        bumped(misses, id, now).len() == misses.len(),
        misses[i].track_id@ != id ==> bumped(misses, id, now)[i] == misses[i],
        misses[i].track_id@ == id ==> {
            let m = bumped(misses, id, now)[i];
            &&& misses[i].retries < u32::MAX ==> m.retries == misses[i].retries + 1
            &&& misses[i].retries == u32::MAX ==> m.retries == u32::MAX
            &&& m.ts == now
            &&& m.track_id == misses[i].track_id && m.artist == misses[i].artist
            &&& m.track == misses[i].track && m.album == misses[i].album
            &&& m.tried == misses[i].tried
        },
{
}

/// A track that is logged again carries on the count of the row that was logged last for it; one
/// that was never logged starts at zero.
pub proof fn counts_are_carried_from_the_last_row(rows: Seq<Miss>, id: Seq<char>, k: int)
    requires
        0 <= k < rows.len(),
        rows[k].track_id@ == id,
        forall|j: int| k < j < rows.len() ==> (#[trigger] rows[j]).track_id@ != id,
    ensures
        retries_of(deduped(rows), id) == rows[k].retries,
{
    log_keeps_the_last_row(rows, id);
    last_row_is_last(rows, id, k);
    row_from_is_first(deduped(rows), id, 0);
}

proof fn last_row_is_last(rows: Seq<Miss>, id: Seq<char>, k: int)
    requires
        0 <= k < rows.len(),
        rows[k].track_id@ == id,
        forall|j: int| k < j < rows.len() ==> (#[trigger] rows[j]).track_id@ != id,
    ensures
        last_row(rows, id) == Some(rows[k]),
    decreases rows.len(),
{
    if k < rows.len() - 1 {
        assert(rows[rows.len() - 1].track_id@ != id);
        assert forall|j: int| k < j < rows.drop_last().len() implies (
        #[trigger] rows.drop_last()[j]).track_id@ != id by {
            assert(rows.drop_last()[j] == rows[j]);
        }
        last_row_is_last(rows.drop_last(), id, k);
    }
}

/// The rows of a file are its lines that are not blank, in their order.
pub proof fn blank_lines_are_passed_over(list: Seq<Seq<char>>)
    ensures
        visible(list) == list.filter(|l: Seq<char>| text::trimmed(l).len() > 0),
    decreases list.len(),
{
    reveal(Seq::filter);
    if list.len() > 0 {
        blank_lines_are_passed_over(list.drop_last());
        text::trimmed_empty_iff_blank(list.last());
    }
}

} // verus!
