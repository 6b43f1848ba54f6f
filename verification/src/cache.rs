//! Names of the entries of the on-disk cache.
//!
//! Everything known of a track is stored under a stable hash of the track's
//! identity. The hash is shared across all kinds, so the same song has the same
//! file stem everywhere.

use std::collections::hash_map::DefaultHasher;
use std::hash::{BuildHasher, BuildHasherDefault};
use vstd::prelude::*;
use crate::digits;
use crate::text;

verus! {

/// What [`hash_of`] returns.
pub uninterp spec fn track_hash(track_id: Seq<char>) -> u64;

/// Calls `BuildHasher::hash_one` with the unseeded `DefaultHasher`, which hashes
/// a text to the same number every time. The number is named by [`track_hash`].
#[verifier::external_body]
pub(crate) fn hash_of(track_id: &str) -> (r: u64)
    ensures
        r == track_hash(track_id@),
{
    BuildHasherDefault::<DefaultHasher>::default().hash_one(track_id)
}

/// The key of a hash: sixteen lowercase hexadecimal digits.
pub fn key_of_hash(hash: u64) -> (r: String)
    ensures
        r@ == digits::hex(hash as nat, 16),
{
    let mut out = String::new();
    digits::push_hex(&mut out, hash, 16);
    proof {
        assert(Seq::<char>::empty() + digits::hex(hash as nat, 16) =~= digits::hex(
            hash as nat,
            16,
        ));
    }
    out
}

/// The key of a track.
pub open spec fn key(track_id: Seq<char>) -> Seq<char> {
    digits::hex(track_hash(track_id) as nat, 16)
}

/// Stable key of sixteen hexadecimal digits for a track identity
/// (`artist|track|album`), shared by every kind of cache entry.
pub fn track_key(track_id: &str) -> (r: String)
    ensures
        r@ == key(track_id@),
{
    key_of_hash(hash_of(track_id))
}

/// The path of an entry below the cache root.
pub open spec fn path(kind: Seq<char>, stem: Seq<char>, ext: Seq<char>) -> Seq<char> {
    kind + "/"@ + stem + "."@ + ext
}

/// Path to a cache entry below the cache root: `<kind>/<key>.<ext>`.
pub fn entry_path(kind: &str, track_id: &str, ext: &str) -> (r: String)
    ensures
        r@ == path(kind@, key(track_id@), ext@),
{
    let stem = track_key(track_id);
    let mut out = text::concat3(kind, "/", stem.as_str());
    out.append(".");
    out.append(ext);
    out
}

/// Keys have sixteen characters, and different hashes have different keys.
pub proof fn keys_tell_hashes_apart(a: u64, b: u64)
    ensures
        digits::hex(a as nat, 16).len() == 16,
        digits::hex(a as nat, 16) == digits::hex(b as nat, 16) ==> a == b,
{
    hex_len(a as nat, 16);
    hex_len(b as nat, 16);
    if digits::hex(a as nat, 16) == digits::hex(b as nat, 16) {
        assert(sixteens(16) == 0x1_0000_0000_0000_0000) by {
            reveal_with_fuel(sixteens, 17);
        }
        hex_injective(a as nat, b as nat, 16);
    }
}

spec fn sixteens(width: nat) -> nat
    decreases width,
{
    if width == 0 {
        1
    } else {
        16 * sixteens((width - 1) as nat)
    }
}

proof fn hex_len(n: nat, width: nat)
    ensures
        digits::hex(n, width).len() == width,
    decreases width,
{
    if width > 0 {
        hex_len(n / 16, (width - 1) as nat);
    }
}

proof fn hex_injective(a: nat, b: nat, width: nat)
    requires
        a < sixteens(width),
        b < sixteens(width),
        digits::hex(a, width) == digits::hex(b, width),
    ensures
        a == b,
    decreases width,
{
    if width > 0 {
        let x = digits::hex(a, width);
        let y = digits::hex(b, width);
        hex_len(a / 16, (width - 1) as nat);
        hex_len(b / 16, (width - 1) as nat);
        assert(x.drop_last() =~= digits::hex(a / 16, (width - 1) as nat));
        assert(y.drop_last() =~= digits::hex(b / 16, (width - 1) as nat));
        assert(x.last() == digits::hex_digit((a % 16) as int));
        assert(y.last() == digits::hex_digit((b % 16) as int));
        hex_injective(a / 16, b / 16, (width - 1) as nat);
        assert(a % 16 == b % 16);
    }
}

/// The path of an entry differs between two kinds only in the kind: below its
/// directory the entry of one track has the same name everywhere.
pub proof fn kinds_share_the_stem(a: Seq<char>, b: Seq<char>, track_id: Seq<char>, ext: Seq<char>)
    ensures
        path(a, key(track_id), ext).skip(a.len() as int) == path(b, key(track_id), ext).skip(
            b.len() as int,
        ),
{
    let tail = "/"@ + key(track_id) + "."@ + ext;
    assert(path(a, key(track_id), ext) =~= a + tail);
    assert(path(b, key(track_id), ext) =~= b + tail);
    assert((a + tail).skip(a.len() as int) =~= tail);
    assert((b + tail).skip(b.len() as int) =~= tail);
}

// ---------------------------------------------------------------------------
// Clearing the cache.
// ---------------------------------------------------------------------------

/// What came of removing one part of the cache.
pub enum Removal {
    /// It was removed.
    Done,
    /// There was nothing to remove.
    Missing,
    /// It could not be removed; the message says why.
    Failed(String),
}

/// The report line for a directory of `count` entries.
pub open spec fn kind_report(kind: Seq<char>, count: nat, what: Removal) -> Seq<char> {
    match what {
        Removal::Done => "removed "@ + kind + "/ ("@ + digits::dec(count) + " entries)"@,
        Removal::Missing => kind + "/ (empty)"@,
        Removal::Failed(e) => kind + "/ — error: "@ + e@,
    }
}

/// One line on what became of a kind's directory.
pub fn report_kind(kind: &str, count: usize, what: &Removal) -> (r: String)
    ensures
        r@ == kind_report(kind@, count as nat, *what),
{
    match what {
        Removal::Done => {
            let mut out = text::concat3("removed ", kind, "/ (");
            digits::push_dec(&mut out, count as u64);
            out.append(" entries)");
            out
        },
        Removal::Missing => text::concat2(kind, "/ (empty)"),
        Removal::Failed(e) => text::concat3(kind, "/ — error: ", e.as_str()),
    }
}

/// The report line for a single file.
pub open spec fn file_report(name: Seq<char>, what: Removal) -> Seq<char> {
    match what {
        Removal::Done => "removed "@ + name,
        Removal::Missing => name + " (empty)"@,
        Removal::Failed(e) => name + " — error: "@ + e@,
    }
}

/// One line on what became of a file.
pub fn report_file(name: &str, what: &Removal) -> (r: String)
    ensures
        r@ == file_report(name@, *what),
{
    match what {
        Removal::Done => text::concat2("removed ", name),
        Removal::Missing => text::concat2(name, " (empty)"),
        Removal::Failed(e) => text::concat3(name, " — error: ", e.as_str()),
    }
}

/// An entry is stored in the directory of its kind, under the sixteen digits of its track, with
/// its ending; so entries of different tracks with different hashes never share a file.
pub proof fn entries_are_told_apart(kind: Seq<char>, a: Seq<char>, b: Seq<char>, ext: Seq<char>)
    ensures
        path(kind, key(a), ext) == kind + seq!['/'] + key(a) + seq!['.'] + ext,
        key(a).len() == 16,
        track_hash(a) != track_hash(b) ==> path(kind, key(a), ext) != path(kind, key(b), ext),
{
    reveal_strlit("/");
    reveal_strlit(".");
    assert("/"@ =~= seq!['/']);
    assert("."@ =~= seq!['.']);
    keys_tell_hashes_apart(track_hash(a), track_hash(b));
    keys_tell_hashes_apart(track_hash(b), track_hash(a));
    if path(kind, key(a), ext) == path(kind, key(b), ext) {
        let n = kind.len() as int + 1;
        assert(path(kind, key(a), ext).subrange(n, n + 16) =~= key(a));
        assert(path(kind, key(b), ext).subrange(n, n + 16) =~= key(b));
    }
}

/// What is reported of a part of the cache: how many entries went, that there was nothing, or
/// why it failed.
pub proof fn clearing_is_told(kind: Seq<char>, count: nat, e: String)
    ensures
        kind_report(kind, count, Removal::Done) == "removed "@ + kind + "/ ("@ + digits::dec(count)
            + " entries)"@,
        kind_report(kind, count, Removal::Missing) == kind + "/ (empty)"@,
        kind_report(kind, count, Removal::Failed(e)) == kind + "/ — error: "@ + e@,
        file_report(kind, Removal::Done) == "removed "@ + kind,
        file_report(kind, Removal::Missing) == kind + " (empty)"@,
        file_report(kind, Removal::Failed(e)) == kind + " — error: "@ + e@,
{
}

} // verus!
