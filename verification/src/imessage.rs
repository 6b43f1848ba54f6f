//! The message store: rows, bodies, previews, and the script that sends a reply.

use vstd::prelude::*;
use vstd::slice::slice_subrange;
use crate::digits;
use crate::json;
use crate::json::Json;
use crate::music;
use crate::state::MessageItem;
use crate::text;
use crate::width;

verus! {

/// Beyond this many characters a preview is cut, or summed up.
pub const PREVIEW_BUDGET: usize = 96;

// ---------------------------------------------------------------------------
// Bodies.
// ---------------------------------------------------------------------------

/// The value of a hexadecimal digit.
pub open spec fn hex_value(c: char) -> Option<int> {
    if '0' <= c && c <= '9' {
        Some(c as int - '0' as int)
    } else if 'a' <= c && c <= 'f' {
        Some(c as int - 'a' as int + 10)
    } else if 'A' <= c && c <= 'F' {
        Some(c as int - 'A' as int + 10)
    } else {
        None
    }
}

fn hexval(c: char) -> (r: Option<u8>)
    ensures
        match r {
            Some(v) => hex_value(c) == Some(v as int) && v < 16,
            None => hex_value(c) is None,
        },
{
    if '0' <= c && c <= '9' {
        Some(c as u8 - 48)
    } else if 'a' <= c && c <= 'f' {
        Some(c as u8 - 87)
    } else if 'A' <= c && c <= 'F' {
        Some(c as u8 - 55)
    } else {
        None
    }
}

/// Every character is a hexadecimal digit.
pub open spec fn all_hex(s: Seq<char>) -> bool {
    forall|i: int| 0 <= i < s.len() ==> hex_value(#[trigger] s[i]) is Some
}

/// The byte that two hexadecimal digits denote.
pub open spec fn hex_byte(a: char, b: char) -> u8 {
    (16 * hex_value(a)->0 + hex_value(b)->0) as u8
}

/// The digits of a quoted blob: what stands between `X'` and `'`.
pub open spec fn quoted(s: Seq<char>) -> Option<Seq<char>> {
    if s.len() >= 3 && (s[0] == 'X' || s[0] == 'x') && s[1] == '\'' && s.last() == '\'' {
        Some(s.subrange(2, s.len() - 1))
    } else {
        None
    }
}

/// The bytes of a quoted blob of at least two bytes.
pub open spec fn blob(s: Seq<char>) -> Option<Seq<u8>> {
    match quoted(s) {
        None => None,
        Some(h) => if h.len() < 4 || h.len() % 2 != 0 || !all_hex(h) {
            None
        } else {
            Some(Seq::new((h.len() / 2) as nat, |i: int| hex_byte(h[2 * i], h[2 * i + 1])))
        },
    }
}

fn read_blob(s: &[char]) -> (r: Option<Vec<u8>>)
    ensures
        match r {
            Some(v) => blob(s@) == Some(v@),
            None => blob(s@) is None,
        },
{
    let n: usize = s.len();
    if n < 3 || !(s[0] == 'X' || s[0] == 'x') || s[1] != '\'' || s[n - 1] != '\'' {
        return None;
    }
    let h = slice_subrange(s, 2, n - 1);
    let m: usize = h.len();
    if m < 4 || m % 2 != 0 {
        return None;
    }
    let ghost want = Seq::new(
        (h@.len() / 2) as nat,
        |i: int| hex_byte(h@[2 * i], h@[2 * i + 1]),
    );
    let mut out: Vec<u8> = Vec::new();
    let mut i: usize = 0;
    while i < m
        invariant
            m == h@.len(),
            m % 2 == 0,
            i <= m,
            i % 2 == 0,
            quoted(s@) == Some(h@),
            m >= 4,
            forall|j: int| 0 <= j < i ==> hex_value(#[trigger] h@[j]) is Some,
            want.len() == m / 2,
            forall|k: int|
                0 <= k < m / 2 ==> #[trigger] want[k] == hex_byte(h@[2 * k], h@[2 * k + 1]),
            out@ == want.take((i / 2) as int),
        decreases m - i,
    {
        match (hexval(h[i]), hexval(h[i + 1])) {
            (Some(a), Some(b)) => {
                out.push(16 * a + b);
                proof {
                    let k = (i / 2) as int;
                    assert(want[k] == hex_byte(h@[2 * k], h@[2 * k + 1]));
                    assert(2 * k == i);
                    assert(want.take(k + 1) =~= want.take(k).push(want[k]));
                    assert((i + 2) / 2 == k + 1);
                }
            },
            _ => {
                proof {
                    assert(!all_hex(h@));
                }
                return None;
            },
        }
        i += 2;
    }
    proof {
        assert(want.take((i / 2) as int) =~= want);
        assert(all_hex(h@));
    }
    Some(out)
}

/// Bytes stand in others at a position.
pub open spec fn bytes_at(hay: Seq<u8>, needle: Seq<u8>, i: int) -> bool {
    0 <= i && i + needle.len() <= hay.len() && hay.subrange(i, i + needle.len()) == needle
}

/// The first position from `i` on at which bytes stand.
pub open spec fn bytes_from(hay: Seq<u8>, needle: Seq<u8>, i: int) -> Option<int>
    decreases hay.len() - i,
{
    if i < 0 || i + needle.len() > hay.len() {
        None
    } else if bytes_at(hay, needle, i) {
        Some(i)
    } else if i >= hay.len() {
        None
    } else {
        bytes_from(hay, needle, i + 1)
    }
}

fn same_bytes(hay: &[u8], needle: &[u8], i: usize) -> (r: bool)
    requires
        i + needle@.len() <= hay@.len(),
    ensures
        r == bytes_at(hay@, needle@, i as int),
{
    let n: usize = needle.len();
    let m: usize = hay.len();
    let mut k: usize = 0;
    while k < n
        invariant
            k <= n == needle@.len(),
            m == hay@.len(),
            i + n <= m,
            forall|j: int| 0 <= j < k ==> hay@[i + j] == needle@[j],
        decreases n - k,
    {
        if hay[i + k] != needle[k] {
            proof {
                assert(hay@.subrange(i as int, i + n)[k as int] != needle@[k as int]);
            }
            return false;
        }
        k += 1;
    }
    proof {
        assert(hay@.subrange(i as int, i + n) =~= needle@);
    }
    true
}

/// Finds the first position at which bytes stand; nothing stands nowhere.
pub fn find_subseq(hay: &[u8], needle: &[u8]) -> (r: Option<usize>)
    ensures
        needle@.len() == 0 ==> r is None,
        needle@.len() > 0 ==> match r {
            Some(i) => bytes_from(hay@, needle@, 0) == Some(i as int) && i + needle@.len()
                <= hay@.len(),
            None => bytes_from(hay@, needle@, 0) is None,
        },
{
    let n: usize = needle.len();
    let m: usize = hay.len();
    if n == 0 || m < n {
        return None;
    }
    let mut i: usize = 0;
    while i <= m - n
        invariant
            n == needle@.len(),
            m == hay@.len(),
            0 < n <= m,
            i <= m - n + 1,
            bytes_from(hay@, needle@, 0) == bytes_from(hay@, needle@, i as int),
        decreases m - i,
    {
        if same_bytes(hay, needle, i) {
            return Some(i);
        }
        i += 1;
    }
    None
}

/// A character that text consists of.
pub open spec fn printable(c: char) -> bool {
    c == ' ' || (!text::control(c) && c != '\u{fffd}')
}

/// How many bytes a character takes.
pub open spec fn char_bytes(c: char) -> nat {
    if (c as u32) < 0x80 {
        1
    } else if (c as u32) < 0x800 {
        2
    } else if (c as u32) < 0x1_0000 {
        3
    } else {
        4
    }
}

/// How many bytes a text takes.
pub open spec fn byte_len(s: Seq<char>) -> nat
    decreases s.len(),
{
    if s.len() == 0 {
        0
    } else {
        byte_len(s.drop_last()) + char_bytes(s.last())
    }
}

fn count_bytes(s: &[char]) -> (r: u128)
    ensures
        r == byte_len(s@),
{
    let mut n: u128 = 0;
    let mut i: usize = 0;
    proof {
        assert(s@.take(0) =~= Seq::<char>::empty());
    }
    while i < s.len()
        invariant
            i <= s@.len(),
            n == byte_len(s@.take(i as int)),
            n <= 4 * i,
        decreases s@.len() - i,
    {
        let c: u32 = s[i] as u32;
        proof {
            assert(s@.take(i + 1).drop_last() =~= s@.take(i as int));
        }
        n += if c < 0x80 {
            1
        } else if c < 0x800 {
            2
        } else if c < 0x1_0000 {
            3
        } else {
            4
        };
        i += 1;
    }
    proof {
        assert(s@.take(i as int) =~= s@);
    }
    n
}

/// The better of two runs: a later one only where it is longer without white space at its
/// ends.
pub open spec fn better(best: Seq<char>, run: Seq<char>) -> Seq<char> {
    if byte_len(text::trimmed(run)) > byte_len(text::trimmed(best)) {
        run
    } else {
        best
    }
}

/// The best finished run and the open one after the first `n` characters.
pub open spec fn scanned(s: Seq<char>, n: nat) -> (Seq<char>, Seq<char>)
    decreases n,
{
    if n == 0 {
        (seq![], seq![])
    } else {
        let (best, open) = scanned(s, (n - 1) as nat);
        let c = s[n - 1];
        if printable(c) {
            (best, open.push(c))
        } else {
            (better(best, open), seq![])
        }
    }
}

/// The longest run of printable characters, without white space at its ends; the first
/// one where several are equally long.
pub open spec fn longest_run(s: Seq<char>) -> Option<Seq<char>> {
    let (best, open) = scanned(s, s.len());
    let t = text::trimmed(better(best, open));
    if t.len() == 0 {
        None
    } else {
        Some(t)
    }
}

/// The longest run of printable characters of a text.
pub fn printable_run(s: &[char]) -> (r: Option<String>)
    ensures
        match r {
            Some(t) => longest_run(s@) == Some(t@),
            None => longest_run(s@) is None,
        },
{
    let n: usize = s.len();
    let mut lo: usize = 0;
    let mut hi: usize = 0;
    let mut from: usize = 0;
    let mut i: usize = 0;
    proof {
        assert(s@.subrange(0, 0) =~= Seq::<char>::empty());
    }
    while i < n
        invariant
            n == s@.len(),
            lo <= hi <= i <= n,
            from <= i,
            scanned(s@, i as nat).0 == s@.subrange(lo as int, hi as int),
            scanned(s@, i as nat).1 == s@.subrange(from as int, i as int),
        decreases n - i,
    {
        let c = s[i];
        let ok = c == ' ' || (!text::is_control(c) && c != '\u{fffd}');
        if ok {
            proof {
                assert(s@.subrange(from as int, i + 1) =~= s@.subrange(from as int, i as int).push(
                    c,
                ));
            }
        } else {
            let run = text::trim(slice_subrange(s, from, i));
            let best = text::trim(slice_subrange(s, lo, hi));
            if count_bytes(run) > count_bytes(best) {
                lo = from;
                hi = i;
            }
            from = i + 1;
            proof {
                assert(s@.subrange(i + 1, i + 1) =~= Seq::<char>::empty());
            }
        }
        i += 1;
    }
    let run = slice_subrange(s, from, n);
    let best = slice_subrange(s, lo, hi);
    let run_t = text::trim(run);
    let best_t = text::trim(best);
    let t = if count_bytes(run_t) > count_bytes(best_t) {
        run_t
    } else {
        best_t
    };
    if t.len() == 0 {
        None
    } else {
        Some(text::string_of(t))
    }
}

/// Reads bytes as text and takes the longest run of printable characters.
pub fn longest_printable_run(bytes: &[u8]) -> (r: Option<String>)
    ensures
        match r {
            Some(t) => longest_run(text::lossy(bytes@)) == Some(t@),
            None => longest_run(text::lossy(bytes@)) is None,
        },
{
    let s = text::decode_lossy(bytes);
    let c = text::chars_of(s.as_str());
    printable_run(c.as_slice())
}

/// The bytes of the class name behind which a body stands.
pub open spec fn marker() -> Seq<u8> {
    seq![78u8, 83, 83, 116, 114, 105, 110, 103]
}

/// The part of a blob that holds the body: behind the class name, or all of it.
pub open spec fn body_part(b: Seq<u8>) -> Seq<u8> {
    match bytes_from(b, marker(), 0) {
        Some(i) => b.skip(i + 8),
        None => b,
    }
}

/// The body that a text holds, two characters at least.
pub open spec fn body_in(s: Seq<char>) -> Option<Seq<char>> {
    match longest_run(s) {
        Some(t) => if t.len() >= 2 {
            Some(t)
        } else {
            None
        },
        None => None,
    }
}

/// The body that a quoted blob holds.
pub open spec fn attributed(s: Seq<char>) -> Option<Seq<char>> {
    match blob(s) {
        None => None,
        Some(b) => body_in(text::lossy(body_part(b))),
    }
}

/// Finds the body in a quoted blob: the longest run of printable text.
pub fn decode_attributed_body(hexlit: &[char]) -> (r: Option<String>)
    ensures
        match r {
            Some(t) => attributed(hexlit@) == Some(t@),
            None => attributed(hexlit@) is None,
        },
{
    let bytes = match read_blob(hexlit) {
        Some(b) => b,
        None => return None,
    };
    let mark: [u8; 8] = [78, 83, 83, 116, 114, 105, 110, 103];
    let n: usize = bytes.len();
    let from: usize = match find_subseq(bytes.as_slice(), mark.as_slice()) {
        Some(i) => i + 8,
        None => 0,
    };
    proof {
        assert(mark@ =~= marker());
    }
    let part = slice_subrange(bytes.as_slice(), from, n);
    proof {
        assert(part@ =~= body_part(bytes@));
    }
    match longest_printable_run(part) {
        Some(t) => if text::chars_of(t.as_str()).len() >= 2 {
            Some(t)
        } else {
            None
        },
        None => None,
    }
}

// ---------------------------------------------------------------------------
// Rows.
// ---------------------------------------------------------------------------

/// How many digits of a phone number are kept.
pub const LAST_DIGITS: usize = 4;

/// The digits of a handle, without the sign of an international number.
pub open spec fn number_part(h: Seq<char>) -> Seq<char> {
    if h.len() > 0 && h[0] == '+' {
        h.skip(1)
    } else {
        h
    }
}

/// A handle is a phone number: digits, more than are kept of it.
pub open spec fn is_phone(h: Seq<char>) -> bool {
    number_part(h).len() > LAST_DIGITS && digits::all_digits(number_part(h))
}

/// A handle made friendlier: the part of an address before its sign, or the last digits of a
/// phone number.
pub open spec fn friendly(h: Seq<char>) -> Seq<char> {
    if h.len() == 0 {
        "Unknown"@
    } else {
        match text::char_from(h, '@', 0) {
            Some(k) => h.take(k),
            None => if is_phone(h) {
                h.skip(h.len() - LAST_DIGITS)
            } else {
                h
            },
        }
    }
}

fn phone(h: &[char]) -> (r: bool)
    ensures
        r == is_phone(h@),
{
    let n: usize = h.len();
    let from: usize = if n > 0 && h[0] == '+' {
        1
    } else {
        0
    };
    let part = slice_subrange(h, from, n);
    proof {
        assert(part@ =~= number_part(h@));
    }
    n - from > LAST_DIGITS && digits::is_digits(part)
}

/// A handle made friendlier.
pub fn pretty_handle(h: &[char]) -> (r: String)
    ensures
        r@ == friendly(h@),
{
    if h.len() == 0 {
        return "Unknown".to_string();
    }
    match text::find_char(h, '@', 0) {
        Some(k) => {
            proof {
                assert(h@.subrange(0, k as int) =~= h@.take(k as int));
            }
            text::string_of(slice_subrange(h, 0, k))
        },
        None => if phone(h) {
            proof {
                assert(h@.subrange(h@.len() - LAST_DIGITS, h@.len() as int) =~= h@.skip(
                    h@.len() - LAST_DIGITS,
                ));
            }
            text::string_of(slice_subrange(h, h.len() - LAST_DIGITS, h.len()))
        } else {
            text::string_of(h)
        },
    }
}

/// Of a phone number only its last digits show: some, not all, and nothing but digits.
pub proof fn phone_numbers_show_their_last_digits(h: Seq<char>)
    requires
        is_phone(h),
    ensures
        0 < friendly(h).len() < h.len(),
        friendly(h) == h.skip(h.len() - friendly(h).len()),
        digits::all_digits(friendly(h)),
{
    let part = number_part(h);
    text::char_from_is_least(h, '@', 0);
    if text::char_from(h, '@', 0) is Some {
        let k = text::char_from(h, '@', 0)->0;
        assert(h[k] == '@');
        if h[0] == '+' {
            assert(part[k - 1] == '@');
        } else {
            assert(part[k] == '@');
        }
    }
    assert forall|i: int| 0 <= i < friendly(h).len() implies digits::digit_value(
        #[trigger] friendly(h)[i],
    ) is Some by {
        assert(friendly(h)[i] == h[h.len() - LAST_DIGITS + i]);
        if h[0] == '+' {
            assert(h[h.len() - LAST_DIGITS + i] == part[h.len() - LAST_DIGITS + i - 1]);
        }
    }
}

/// A text on one line, cut with an ellipsis.
pub open spec fn one_line(s: Seq<char>, max: nat) -> Seq<char> {
    width::truncated(text::joined(text::word_list(s), " "@), max)
}

/// A text on one line, cut with an ellipsis.
pub fn smart_preview(s: &str, max: usize) -> (r: String)
    ensures
        r@ == one_line(s@, max as nat),
{
    let chars = text::chars_of(s);
    let words = text::words(chars.as_slice());
    let flat = text::join(&words, " ");
    width::truncate(flat.as_str(), max)
}

/// The text of a message, and that it has none.
pub open spec fn message_text(plain: Seq<char>, rich: Seq<char>) -> (Seq<char>, bool) {
    if !text::blank(plain) {
        (plain, false)
    } else {
        match attributed(rich) {
            Some(t) => (t, false),
            None => ("[rich message]"@, true),
        }
    }
}

/// The number in a field, or another where there is none.
pub open spec fn number_or(s: Seq<char>, other: int) -> int {
    match digits::signed_upto(s, i64::MAX as int) {
        Some(n) => n,
        None => other,
    }
}

fn read_or(s: &[char], other: i64) -> (r: i64)
    ensures
        r == number_or(s@, other as int),
{
    match digits::read_signed(s, i64::MAX) {
        Some(n) => n,
        None => other,
    }
}

/// A conversation says what the fields of a row say.
pub open spec fn row_says(f: Seq<Seq<char>>, now: int, m: MessageItem) -> bool {
    let (full, rich) = message_text(f[4], f[5]);
    let ts = music::time_in(f[1]);
    &&& m.rowid == number_or(f[0], 0)
    &&& m.ts_unix == ts
    &&& m.unread == (number_or(f[2], 1) == 0)
    &&& m.handle@ == f[3]
    &&& m.sender@ == friendly(f[3])
    &&& m.full_text@ == full
    &&& m.is_rich == rich
    &&& m.preview@ == one_line(full, PREVIEW_BUDGET as nat)
    &&& m.rel@ == crate::format::rel_text(crate::format::seconds(digits::bounded(now - ts)))
    &&& m.chat_id == 0
    &&& m.guid@.len() == 0
    &&& !m.from_me
    &&& !m.is_shortcode
}

/// The rows with at least six fields.
pub open spec fn full_rows(lines: Seq<Seq<char>>) -> Seq<Seq<Seq<char>>>
    decreases lines.len(),
{
    if lines.len() == 0 {
        seq![]
    } else {
        let f = text::fields(lines.last(), '\t');
        let before = full_rows(lines.drop_last());
        if f.len() >= 6 {
            before.push(f)
        } else {
            before
        }
    }
}

/// The conversations are what the rows say, in their order.
pub open spec fn rows_say(rows: Seq<Seq<Seq<char>>>, now: int, v: Seq<MessageItem>) -> bool {
    v.len() == rows.len() && forall|i: int|
        0 <= i < rows.len() ==> row_says(#[trigger] rows[i], now, v[i])
}

fn read_row<'a>(f: &Vec<&'a [char]>, now: i64) -> (r: MessageItem)
    requires
        f@.len() >= 6,
    ensures
        row_says(text::views(f@), now as int, r),
{
    proof {
        assert(text::views(f@).len() == f@.len());
        assert(f@[0]@ == text::views(f@)[0]);
        assert(f@[1]@ == text::views(f@)[1]);
        assert(f@[2]@ == text::views(f@)[2]);
        assert(f@[3]@ == text::views(f@)[3]);
        assert(f@[4]@ == text::views(f@)[4]);
        assert(f@[5]@ == text::views(f@)[5]);
    }
    let ts: i64 = music::read_time(f[1]);
    let (full, rich) = if !text::is_blank(f[4]) {
        (text::string_of(f[4]), false)
    } else {
        match decode_attributed_body(f[5]) {
            Some(t) => (t, false),
            None => ("[rich message]".to_string(), true),
        }
    };
    let preview = smart_preview(full.as_str(), PREVIEW_BUDGET);
    MessageItem {
        chat_id: 0,
        rowid: read_or(f[0], 0),
        sender: pretty_handle(f[3]),
        handle: text::string_of(f[3]),
        guid: String::new(),
        preview,
        full_text: full,
        ts_unix: ts,
        rel: crate::format::fmt_rel(digits::bound(now as i128 - ts as i128)),
        is_rich: rich,
        unread: read_or(f[2], 1) == 0,
        from_me: false,
        is_shortcode: false,
    }
}

/// Reads the rows that the store printed, `now` being the time since the epoch. Rows with
/// fewer than six fields are left out.
pub fn read_rows(body: &str, now: i64) -> (r: Vec<MessageItem>)
    ensures
        rows_say(full_rows(text::line_list(body@)), now as int, r@),
{
    let chars = text::chars_of(body);
    let l = text::lines(chars.as_slice());
    let ghost all = text::line_list(body@);
    let mut out: Vec<MessageItem> = Vec::new();
    let mut i: usize = 0;
    proof {
        assert(all.len() == l@.len());
        assert(all.take(0) =~= Seq::<Seq<char>>::empty());
    }
    while i < l.len()
        invariant
            i <= l@.len() == all.len(),
            all == text::views(l@),
            rows_say(full_rows(all.take(i as int)), now as int, out@),
        decreases l@.len() - i,
    {
        let f = text::split(l[i], '\t');
        proof {
            assert(all[i as int] == l@[i as int]@);
            assert(all.take(i + 1).drop_last() =~= all.take(i as int));
            assert(text::views(f@).len() == f@.len());
        }
        if f.len() >= 6 {
            let ghost before = out@;
            let m = read_row(&f, now);
            out.push(m);
            proof {
                let rows = full_rows(all.take(i + 1));
                let old_rows = full_rows(all.take(i as int));
                assert forall|k: int| 0 <= k < rows.len() implies row_says(
                    #[trigger] rows[k],
                    now as int,
                    out@[k],
                ) by {
                    if k < old_rows.len() {
                        assert(rows[k] == old_rows[k]);
                        assert(out@[k] == before[k]);
                    }
                }
            }
        }
        i += 1;
    }
    proof {
        assert(all.take(i as int) =~= all);
    }
    out
}

/// Reads the bytes that the store printed.
pub fn read_messages(bytes: &[u8], now: i64) -> (r: Vec<MessageItem>)
    ensures
        rows_say(full_rows(text::line_list(text::lossy(bytes@))), now as int, r@),
{
    let body = text::decode_lossy(bytes);
    read_rows(body.as_str(), now)
}

/// The store refused to be read.
pub open spec fn denied(err: Seq<char>) -> bool {
    text::holds(err, "authorization denied"@) || text::holds(err, "unable to open"@)
}

/// Did the store refuse to be read?
pub fn is_denied(bytes: &[u8]) -> (r: bool)
    ensures
        r == denied(text::lossy(bytes@)),
{
    let err = text::decode_lossy(bytes);
    text::contains(err.as_str(), "authorization denied") || text::contains(
        err.as_str(),
        "unable to open",
    )
}

/// How many conversations are unread.
pub open spec fn unread_in(v: Seq<MessageItem>) -> nat
    decreases v.len(),
{
    if v.len() == 0 {
        0
    } else {
        unread_in(v.drop_last()) + if v.last().unread {
            1nat
        } else {
            0
        }
    }
}

/// The unread count: the store's own, or that of the conversations.
pub fn unread_count(printed: Option<u32>, items: &Vec<MessageItem>) -> (r: u32)
    requires
        items@.len() <= u32::MAX,
    ensures
        r == match printed {
            Some(n) => n as nat,
            None => unread_in(items@),
        },
{
    match printed {
        Some(n) => n,
        None => {
            let mut n: u32 = 0;
            let mut i: usize = 0;
            proof {
                assert(items@.take(0) =~= Seq::<MessageItem>::empty());
            }
            while i < items.len()
                invariant
                    n <= i <= items@.len() <= u32::MAX,
                    n == unread_in(items@.take(i as int)),
                decreases items@.len() - i,
            {
                proof {
                    assert(items@.take(i + 1).drop_last() =~= items@.take(i as int));
                }
                if items[i].unread {
                    n += 1;
                }
                i += 1;
            }
            proof {
                assert(items@.take(i as int) =~= items@);
            }
            n
        },
    }
}

// ---------------------------------------------------------------------------
// Summaries.
// ---------------------------------------------------------------------------

/// A message is worth summing up: it has text, and too much of it.
pub open spec fn too_long(m: MessageItem) -> bool {
    !m.is_rich && m.full_text@.len() > PREVIEW_BUDGET
}

/// Is a message worth summing up?
pub fn wants_summary(m: &MessageItem) -> (r: bool)
    ensures
        r == too_long(*m),
{
    !m.is_rich && text::chars_of(m.full_text.as_str()).len() > PREVIEW_BUDGET
}

/// What is asked of the model.
pub fn summary_prompt(s: &str) -> (r: String)
    ensures
        r@
            == "Summarize this text message in 8 words or fewer, no quotes, no preamble:\n\n"@ + s@,
{
    text::concat2(
        "Summarize this text message in 8 words or fewer, no quotes, no preamble:\n\n",
        s,
    )
}

/// A text without the quotes before it.
pub open spec fn unquoted_front(s: Seq<char>) -> Seq<char>
    decreases s.len(),
{
    if s.len() > 0 && s[0] == '"' {
        unquoted_front(s.skip(1))
    } else {
        s
    }
}

/// A text without the quotes behind it.
pub open spec fn unquoted_back(s: Seq<char>) -> Seq<char>
    decreases s.len(),
{
    if s.len() > 0 && s.last() == '"' {
        unquoted_back(s.drop_last())
    } else {
        s
    }
}

/// A summary without white space and quotes around it; none where nothing is left.
pub open spec fn summary_in(s: Seq<char>) -> Option<Seq<char>> {
    let t = unquoted_back(unquoted_front(text::trimmed(s)));
    if t.len() == 0 {
        None
    } else {
        Some(t)
    }
}

fn clean_summary(s: &str) -> (r: Option<String>)
    ensures
        match r {
            Some(t) => summary_in(s@) == Some(t@),
            None => summary_in(s@) is None,
        },
{
    let chars = text::chars_of(s);
    let t = text::trim(chars.as_slice());
    let n: usize = t.len();
    let mut lo: usize = 0;
    proof {
        assert(t@.skip(0) =~= t@);
    }
    while lo < n && t[lo] == '"'
        invariant
            lo <= n == t@.len(),
            unquoted_front(t@) == unquoted_front(t@.skip(lo as int)),
        decreases n - lo,
    {
        proof {
            assert(t@.skip(lo as int).skip(1) =~= t@.skip(lo + 1));
        }
        lo += 1;
    }
    let mut hi: usize = n;
    proof {
        assert(t@.subrange(lo as int, n as int) =~= t@.skip(lo as int));
    }
    while lo < hi && t[hi - 1] == '"'
        invariant
            lo <= hi <= n == t@.len(),
            unquoted_back(unquoted_front(t@)) == unquoted_back(
                t@.subrange(lo as int, hi as int),
            ),
        decreases hi - lo,
    {
        proof {
            assert(t@.subrange(lo as int, hi as int).drop_last() =~= t@.subrange(
                lo as int,
                hi - 1,
            ));
        }
        hi -= 1;
    }
    if lo == hi {
        None
    } else {
        Some(text::string_of(slice_subrange(t, lo, hi)))
    }
}

/// The summary in a reply of the model.
pub open spec fn reply_summary(v: Json) -> Option<Seq<char>> {
    match crate::weather_report::first_at(v, "content"@) {
        Some(c) => match c.text_at("text"@) {
            Some(s) => summary_in(s),
            None => None,
        },
        None => None,
    }
}

/// Reads the summary in a reply of the model.
pub fn summary_of(v: &Json) -> (r: Option<String>)
    ensures
        match r {
            Some(t) => reply_summary(*v) == Some(t@),
            None => reply_summary(*v) is None,
        },
{
    match crate::weather_report::first_of(v, "content") {
        Some(c) => match c.str_at("text") {
            Some(s) => clean_summary(s),
            None => None,
        },
        None => None,
    }
}

/// Reads the summary in the body of a reply.
pub fn summarize(body: &str) -> (r: Option<String>)
    ensures
        match json::document(body@) {
            Some(v) => match r {
                Some(t) => reply_summary(v) == Some(t@),
                None => reply_summary(v) is None,
            },
            None => r is None,
        },
{
    match json::parse_json(body) {
        Some(v) => summary_of(&v),
        None => None,
    }
}

// ---------------------------------------------------------------------------
// Replies.
// ---------------------------------------------------------------------------

/// A text made safe to stand between quotes in a script.
pub open spec fn escaped(s: Seq<char>) -> Seq<char>
    decreases s.len(),
{
    if s.len() == 0 {
        seq![]
    } else if s.last() == '\\' || s.last() == '"' {
        escaped(s.drop_last()).push('\\').push(s.last())
    } else {
        escaped(s.drop_last()).push(s.last())
    }
}

/// Makes a text safe to stand between quotes in a script.
pub fn applescript_escape(s: &str) -> (r: String)
    ensures
        r@ == escaped(s@),
{
    let chars = text::chars_of(s);
    let mut out = String::new();
    let mut i: usize = 0;
    proof {
        assert(s@.take(0) =~= Seq::<char>::empty());
    }
    while i < chars.len()
        invariant
            chars@ == s@,
            i <= chars@.len(),
            out@ == escaped(s@.take(i as int)),
        decreases chars@.len() - i,
    {
        let c = chars[i];
        proof {
            assert(s@.take(i + 1).drop_last() =~= s@.take(i as int));
        }
        if c == '\\' || c == '"' {
            out.push('\\');
        }
        out.push(c);
        i += 1;
    }
    proof {
        assert(s@.take(i as int) =~= s@);
    }
    out
}

/// A quoted text as a script reads it, behind its opening quote: its characters, and what
/// follows the closing quote. None where it is not closed.
pub open spec fn read_literal(s: Seq<char>) -> Option<(Seq<char>, Seq<char>)>
    decreases s.len(),
{
    if s.len() == 0 {
        None
    } else if s[0] == '"' {
        Some((seq![], s.skip(1)))
    } else if s[0] == '\\' && s.len() >= 2 {
        match read_literal(s.skip(2)) {
            Some((t, rest)) => Some((seq![s[1]] + t, rest)),
            None => None,
        }
    } else {
        match read_literal(s.skip(1)) {
            Some((t, rest)) => Some((seq![s[0]] + t, rest)),
            None => None,
        }
    }
}

proof fn escaped_front(s: Seq<char>)
    requires
        s.len() > 0,
    ensures
        escaped(s) == (if s[0] == '\\' || s[0] == '"' {
            seq!['\\', s[0]]
        } else {
            seq![s[0]]
        }) + escaped(s.skip(1)),
    decreases s.len(),
{
    let head = if s[0] == '\\' || s[0] == '"' {
        seq!['\\', s[0]]
    } else {
        seq![s[0]]
    };
    if s.len() == 1 {
        assert(s.drop_last() =~= Seq::<char>::empty());
        assert(s.skip(1) =~= Seq::<char>::empty());
        assert(escaped(s.drop_last()) =~= Seq::<char>::empty());
        assert(escaped(s) =~= head + escaped(s.skip(1)));
    } else {
        let front = s.drop_last();
        escaped_front(front);
        assert(front.skip(1) =~= s.skip(1).drop_last());
        assert(escaped(s) =~= head + escaped(s.skip(1)));
    }
}

/// An escaped text reads back: a script that holds it between quotes sees exactly the
/// text, and goes on right behind the closing quote. No text can break out.
pub proof fn escaped_text_reads_back(s: Seq<char>, rest: Seq<char>)
    ensures
        read_literal(escaped(s) + seq!['"'] + rest) == Some((s, rest)),
    decreases s.len(),
{
    let all = escaped(s) + seq!['"'] + rest;
    if s.len() == 0 {
        assert(all.skip(1) =~= rest);
        assert(all[0] == '"');
        assert(s =~= Seq::<char>::empty());
    } else {
        escaped_front(s);
        let tail = s.skip(1);
        let next = escaped(tail) + seq!['"'] + rest;
        escaped_text_reads_back(tail, rest);
        assert(seq![s[0]] + tail =~= s);
        if s[0] == '\\' || s[0] == '"' {
            assert(all[0] == '\\' && all[1] == s[0]);
            assert(all.skip(2) =~= next);
        } else {
            assert(all[0] == s[0]);
            assert(all.skip(1) =~= next);
        }
    }
}

/// The script up to the handle.
pub open spec fn send_head() -> Seq<char> {
    "tell application \"Messages\"\nset targetService to 1st account whose service type = iMessage\nset targetBuddy to participant \""@
}

/// The script between the handle and the text.
pub open spec fn send_middle() -> Seq<char> {
    "\" of targetService\nsend \""@
}

/// The script behind the text.
pub open spec fn send_tail() -> Seq<char> {
    "\" to targetBuddy\nend tell"@
}

/// The script that sends a reply.
pub fn send_imessage(handle: &str, body: &str) -> (r: String)
    ensures
        r@ == send_head() + escaped(handle@) + send_middle() + escaped(body@) + send_tail(),
{
    let mut out = text::concat3(
        "tell application \"Messages\"\nset targetService to 1st account whose service type = iMessage\nset targetBuddy to participant \"",
        applescript_escape(handle).as_str(),
        "\" of targetService\nsend \"",
    );
    out.append(applescript_escape(body).as_str());
    out.append("\" to targetBuddy\nend tell");
    out
}

// ---------------------------------------------------------------------------
// What the store is read as.
// ---------------------------------------------------------------------------

/// A blob is read as the bytes whose hexadecimal digits stand between its quotes.
pub proof fn blobs_are_their_bytes(h: Seq<char>, b: Seq<u8>)
    requires
        b.len() >= 2,
        h.len() == 2 * b.len(),
        forall|i: int|
            0 <= i < b.len() ==> #[trigger] h[2 * i] == digits::hex_digit(b[i] as int / 16),
        forall|i: int|
            0 <= i < b.len() ==> #[trigger] h[2 * i + 1] == digits::hex_digit(b[i] as int % 16),
    ensures
        blob(seq!['X', '\''] + h + seq!['\'']) == Some(b),
        blob(seq!['x', '\''] + h + seq!['\'']) == Some(b),
{
    assert forall|d: int| 0 <= d < 16 implies hex_value(#[trigger] digits::hex_digit(d)) == Some(
        d,
    ) by {}
    assert forall|i: int| 0 <= i < h.len() implies hex_value(#[trigger] h[i]) is Some by {
        let k = i / 2;
        if i % 2 == 0 {
            assert(i == 2 * k);
            assert(h[2 * k] == digits::hex_digit(b[k] as int / 16));
        } else {
            assert(i == 2 * k + 1);
            assert(h[2 * k + 1] == digits::hex_digit(b[k] as int % 16));
        }
    }
    let upper = seq!['X', '\''] + h + seq!['\''];
    let lower = seq!['x', '\''] + h + seq!['\''];
    assert(upper.subrange(2, upper.len() - 1) =~= h);
    assert(lower.subrange(2, lower.len() - 1) =~= h);
    let read = Seq::new((h.len() / 2) as nat, |i: int| hex_byte(h[2 * i], h[2 * i + 1]));
    assert forall|i: int| 0 <= i < b.len() implies read[i] == b[i] by {
        assert(h[2 * i] == digits::hex_digit(b[i] as int / 16));
        assert(h[2 * i + 1] == digits::hex_digit(b[i] as int % 16));
    }
    assert(read =~= b);
}

/// A stretch of printable characters that is bounded on both sides.
pub open spec fn run(s: Seq<char>, a: int, b: int) -> bool {
    &&& 0 <= a <= b <= s.len()
    &&& forall|i: int| a <= i < b ==> printable(#[trigger] s[i])
    &&& a == 0 || !printable(s[a - 1])
    &&& b == s.len() || !printable(s[b])
}

/// The body of a message is one of its runs of printable characters, without white space around
/// it, and none of the runs is longer.
pub proof fn longest_run_is_longest(s: Seq<char>, a: int, b: int)
    requires
        run(s, a, b),
    ensures
        longest_run(s) matches Some(t) ==> byte_len(text::trimmed(s.subrange(a, b))) <= byte_len(t),
        longest_run(s) is None ==> text::blank(s.subrange(a, b)),
        longest_run(s) matches Some(t) ==> exists|x: int, y: int| #[trigger]
            run(s, x, y) && t == text::trimmed(s.subrange(x, y)),
{
    let (best, open) = scanned(s, s.len());
    let from = runs_so_far(s, s.len());
    let t = text::trimmed(better(best, open));
    if b == s.len() {
        assert(a == from) by {
            if a < from {
                assert(printable(s[from - 1]));
            }
            if from < a {
                assert(printable(s[a - 1]));
            }
        }
        assert(s.subrange(a, b) =~= open);
    } else {
        assert(ended(s, s.len(), a, b));
    }
    text::trimmed_empty_iff_blank(s.subrange(a, b));
    length_of_nothing(text::trimmed(s.subrange(a, b)));
    length_of_nothing(t);
    if longest_run(s) is Some {
        if better(best, open) == open {
            assert(s.subrange(from, s.len() as int) =~= open);
            assert(run(s, from, s.len() as int));
        } else {
            assert(better(best, open) == best);
            if best.len() == 0 {
                text::trimmed_empty_iff_blank(best);
            }
            let (x, y) = choose|x: int, y: int| #[trigger]
                ended(s, s.len(), x, y) && best == s.subrange(x, y);
            assert(run(s, x, y));
        }
    }
}

/// A run that ended before position `n`.
spec fn ended(s: Seq<char>, n: nat, a: int, b: int) -> bool {
    0 <= a <= b < n && run(s, a, b)
}

proof fn length_of_nothing(s: Seq<char>)
    ensures
        (byte_len(s) == 0) == (s.len() == 0),
    decreases s.len(),
{
    if s.len() > 0 {
        length_of_nothing(s.drop_last());
    }
}

proof fn runs_so_far(s: Seq<char>, n: nat) -> (from: int)
    requires
        n <= s.len(),
    ensures
        0 <= from <= n,
        from == 0 || !printable(s[from - 1]),
        forall|i: int| from <= i < n ==> printable(#[trigger] s[i]),
        scanned(s, n).1 == s.subrange(from, n as int),
        forall|a: int, b: int| #[trigger]
            ended(s, n, a, b) ==> byte_len(text::trimmed(s.subrange(a, b))) <= byte_len(
                text::trimmed(scanned(s, n).0),
            ),
        scanned(s, n).0.len() == 0 || exists|a: int, b: int| #[trigger]
            ended(s, n, a, b) && scanned(s, n).0 == s.subrange(a, b),
    decreases n,
{
    if n == 0 {
        assert(scanned(s, 0).1 =~= s.subrange(0, 0));
        0
    } else {
        let m = (n - 1) as nat;
        let from = runs_so_far(s, m);
        let (best, open) = scanned(s, m);
        let c = s[n - 1];
        if printable(c) {
            assert(scanned(s, n).1 =~= s.subrange(from, n as int));
            assert forall|a: int, b: int| #[trigger] ended(s, n, a, b) implies byte_len(
                text::trimmed(s.subrange(a, b)),
            ) <= byte_len(text::trimmed(best)) by {
                assert(b != n - 1);
                assert(ended(s, m, a, b));
            }
            if best.len() > 0 {
                let (a, b) = choose|a: int, b: int| #[trigger]
                    ended(s, m, a, b) && best == s.subrange(a, b);
                assert(ended(s, n, a, b));
            }
            from
        } else {
            let new = better(best, open);
            assert forall|a: int, b: int| #[trigger] ended(s, n, a, b) implies byte_len(
                text::trimmed(s.subrange(a, b)),
            ) <= byte_len(text::trimmed(new)) by {
                if b == n - 1 {
                    if a < from {
                        assert(printable(s[from - 1]));
                    }
                    if from < a {
                        assert(printable(s[a - 1]));
                    }
                    assert(s.subrange(a, b) =~= open);
                } else {
                    assert(ended(s, m, a, b));
                }
            }
            if new.len() > 0 {
                if new == open {
                    assert(ended(s, n, from, n - 1));
                    assert(open =~= s.subrange(from, n - 1));
                } else {
                    let (a, b) = choose|a: int, b: int| #[trigger]
                        ended(s, m, a, b) && best == s.subrange(a, b);
                    assert(ended(s, n, a, b));
                }
            }
            assert(scanned(s, n).1 =~= s.subrange(n as int, n as int));
            n as int
        }
    }
}

/// A handle is shown without what identifies it further: an address by the part before its sign, a
/// phone number by its last four digits, an unknown one as unknown; others stay.
pub proof fn handles_are_made_friendly(name: Seq<char>, rest: Seq<char>, number: Seq<char>)
    requires
        forall|i: int| 0 <= i < name.len() ==> name[i] != '@',
        digits::all_digits(number),
        number.len() > 4,
    ensures
        friendly(seq![]) == "Unknown"@,
        friendly(name + seq!['@'] + rest) == name,
        friendly(number) == number.skip(number.len() - 4),
        friendly(seq!['+'] + number) == number.skip(number.len() - 4),
        name.len() > 0 && !digits::all_digits(name) && name[0] != '+' ==> friendly(name) == name,
{
    let address = name + seq!['@'] + rest;
    first_sign(name, rest, 0);
    assert(address.take(name.len() as int) =~= name);
    assert forall|i: int| 0 <= i < number.len() implies number[i] != '@' && number[i] != '+' by {
        assert(digits::digit_value(number[i]) is Some);
    }
    let plus = seq!['+'] + number;
    assert forall|i: int| 0 <= i < plus.len() implies plus[i] != '@' by {
        if i > 0 {
            assert(plus[i] == number[i - 1]);
        }
    }
    text::char_from_is_least(number, '@', 0);
    text::char_from_is_least(plus, '@', 0);
    text::char_from_is_least(name, '@', 0);
    assert(plus.skip(1) =~= number);
    assert(number[0] != '+');
    assert(plus.skip(plus.len() - 4) =~= number.skip(number.len() - 4));
}

proof fn first_sign(a: Seq<char>, b: Seq<char>, from: int)
    requires
        forall|i: int| 0 <= i < a.len() ==> a[i] != '@',
        0 <= from <= a.len(),
    ensures
        text::char_from(a + seq!['@'] + b, '@', from) == Some(a.len() as int),
    decreases a.len() - from,
{
    let whole = a + seq!['@'] + b;
    if from < a.len() {
        assert(whole[from] == a[from]);
        first_sign(a, b, from + 1);
    } else {
        assert(whole[from] == '@');
    }
}

/// Rows are the lines of at least six fields, in their order, cut at the tabs.
pub proof fn short_rows_are_passed_over(lines: Seq<Seq<char>>)
    ensures
        full_rows(lines) == lines.map_values(|l: Seq<char>| text::fields(l, '\t')).filter(
            |f: Seq<Seq<char>>| f.len() >= 6,
        ),
    decreases lines.len(),
{
    reveal(Seq::filter);
    let all = lines.map_values(|l: Seq<char>| text::fields(l, '\t'));
    if lines.len() > 0 {
        short_rows_are_passed_over(lines.drop_last());
        assert(all.drop_last() =~= lines.drop_last().map_values(
            |l: Seq<char>| text::fields(l, '\t'),
        ));
        assert(all.last() == text::fields(lines.last(), '\t'));
    }
}

/// A row is read in order: its number, its time in seconds, whether it was read, whom it is from,
/// its text, and its rich body, which counts only where the text is blank.
pub proof fn rows_are_read_in_order(f: Seq<Seq<char>>, now: int, m: MessageItem, id: nat, read: nat)
    requires
        row_says(f, now, m),
        f.len() >= 6,
        id <= i64::MAX,
        read <= i64::MAX,
        f[0] == digits::dec(id),
        f[2] == digits::dec(read),
    ensures
        m.rowid == id,
        m.unread <==> read == 0,
        digits::nanos(f[1]) matches Some(t) ==> m.ts_unix == t,
        m.handle@ == f[3],
        m.sender@ == friendly(f[3]),
        !text::blank(f[4]) ==> m.full_text@ == f[4] && !m.is_rich,
        text::blank(f[4]) && attributed(f[5]) is Some ==> m.full_text@ == attributed(f[5])->0
            && !m.is_rich,
        text::blank(f[4]) && attributed(f[5]) is None ==> m.is_rich,
        m.preview@.len() <= 96,
        !m.from_me,
{
    digits::dec_value(id);
    digits::dec_value(read);
    assert(digits::digit_value(f[0][0]) is Some);
    assert(digits::digit_value(f[2][0]) is Some);
}

/// A rich body is the longest run behind the class name in its blob, where that has two
/// characters or more.
pub proof fn bodies_stand_behind_the_class_name(s: Seq<char>, b: Seq<u8>, name: Seq<u8>, i: int)
    requires
        blob(s) == Some(b),
        name == seq![78u8, 83, 83, 116, 114, 105, 110, 103],
    ensures
        bytes_at(b, name, i) && (forall|j: int| 0 <= j < i ==> !(#[trigger] bytes_at(b, name, j)))
            ==> attributed(s) == body_in(text::lossy(b.skip(i + 8))),
        (forall|j: int| !(#[trigger] bytes_at(b, name, j))) ==> attributed(s) == body_in(
            text::lossy(b),
        ),
        forall|t: Seq<char>| #[trigger]
            body_in(t) is Some <==> (longest_run(t) matches Some(r) && r.len() >= 2),
        forall|t: Seq<char>| #[trigger] body_in(t) is Some ==> body_in(t) == longest_run(t),
{
    assert(marker() =~= name);
    if bytes_at(b, name, i) && (forall|j: int| 0 <= j < i ==> !(#[trigger] bytes_at(b, name, j))) {
        bytes_are_found(b, name, i, 0);
    }
    if forall|j: int| !(#[trigger] bytes_at(b, name, j)) {
        bytes_are_nowhere(b, name, 0);
    }
}

proof fn bytes_are_found(hay: Seq<u8>, needle: Seq<u8>, at: int, i: int)
    requires
        needle.len() > 0,
        0 <= i <= at,
        bytes_at(hay, needle, at),
        forall|j: int| 0 <= j < at ==> !(#[trigger] bytes_at(hay, needle, j)),
    ensures
        bytes_from(hay, needle, i) == Some(at),
    decreases at - i,
{
    if i < at {
        assert(!bytes_at(hay, needle, i));
        bytes_are_found(hay, needle, at, i + 1);
    }
}

proof fn bytes_are_nowhere(hay: Seq<u8>, needle: Seq<u8>, i: int)
    requires
        0 <= i,
        forall|j: int| !(#[trigger] bytes_at(hay, needle, j)),
    ensures
        bytes_from(hay, needle, i) is None,
    decreases hay.len() - i,
{
    if i + needle.len() <= hay.len() && i < hay.len() {
        assert(!bytes_at(hay, needle, i));
        bytes_are_nowhere(hay, needle, i + 1);
    }
}

/// The unread conversations are counted one by one.
pub proof fn unread_conversations_are_counted(v: Seq<MessageItem>)
    ensures
        unread_in(v) == v.filter(|m: MessageItem| m.unread).len(),
    decreases v.len(),
{
    reveal(Seq::filter);
    if v.len() > 0 {
        unread_conversations_are_counted(v.drop_last());
    }
}

/// A summary is asked for exactly where a message has text of more than ninety-six characters, and
/// what comes back is taken without white space and quotes around it.
pub proof fn summaries_are_for_long_texts(m: MessageItem, s: Seq<char>, t: Seq<char>)
    requires
        text::trimmed(s) == seq!['"'] + t + seq!['"'],
        t.len() > 0 && t[0] != '"' && t.last() != '"',
    ensures
        too_long(m) <==> !m.is_rich && m.full_text@.len() > 96,
        summary_in(s) == Some(t),
        forall|u: Seq<char>|
            u.len() > 0 && u[0] != '"' && u.last() != '"' && #[trigger] text::trimmed(u) == u
                ==> summary_in(u) == Some(u),
{
    let q = seq!['"'] + t + seq!['"'];
    assert(q.skip(1) =~= t + seq!['"']);
    assert((t + seq!['"'])[0] == t[0]);
    assert(unquoted_front(q) == unquoted_front(t + seq!['"']));
    assert(unquoted_front(t + seq!['"']) == t + seq!['"']);
    assert((t + seq!['"']).drop_last() =~= t);
    assert(unquoted_back(t + seq!['"']) == unquoted_back(t));
}

/// The summary is what the first part of the reply's content says.
pub proof fn summaries_stand_in_the_first_part(v: Json, parts: Seq<Json>, s: Seq<char>)
    ensures
        (v.items_at("content"@) == Some(parts) && parts.len() > 0 && parts[0].text_at("text"@)
            == Some(s)) ==> reply_summary(v) == summary_in(s),
        v.items_at("content"@) is None ==> reply_summary(v) is None,
        v.items_at("content"@) == Some(Seq::<Json>::empty()) ==> reply_summary(v) is None,
        (v.items_at("content"@) == Some(parts) && parts.len() > 0 && parts[0].text_at("text"@)
            is None) ==> reply_summary(v) is None,
{
}

/// The store is locked exactly where it says that it is not allowed or cannot be opened.
pub proof fn locked_stores_say_so(err: Seq<char>)
    ensures
        denied(err) == (text::holds(err, "authorization denied"@) || text::holds(
            err,
            "unable to open"@,
        )),
{
}

/// Text consists of every character but control characters and the sign for bytes that are no
/// text.
pub proof fn text_has_no_control_characters(c: char)
    ensures
        (c as u32) < 32 ==> !printable(c),
        127 <= (c as u32) < 160 ==> !printable(c),
        c == '\u{fffd}' ==> !printable(c),
        32 <= (c as u32) < 127 ==> printable(c),
        (c as u32) >= 160 && c != '\u{fffd}' ==> printable(c),
{
}

} // verus!
