//! Text as sequences of characters: searching, trimming, splitting and joining.
//!
//! The executable functions work on `&[char]`; [`chars_of`] and [`string_of`]
//! convert from and to the standard string types.

use vstd::prelude::*;
use vstd::slice::slice_subrange;

verus! {

/// Appends one character; `String::push` grows the text by exactly `c`.
pub assume_specification[ String::push ](s: &mut String, c: char)
    ensures
        final(s)@ == old(s)@.push(c),
;

/// What [`lower`] returns: the Unicode lowercase mapping of a whole text.
pub uninterp spec fn lowercase(s: Seq<char>) -> Seq<char>;

/// What [`upper`] returns: the Unicode uppercase mapping of a whole text.
pub uninterp spec fn uppercase(s: Seq<char>) -> Seq<char>;

/// Every character is below U+0080.
pub open spec fn all_ascii(s: Seq<char>) -> bool {
    forall|i: int| 0 <= i < s.len() ==> (#[trigger] s[i] as u32) < 128
}

/// The ASCII lowercase of one character; other characters stay.
pub open spec fn ascii_lower(c: char) -> char {
    if 'A' <= c && c <= 'Z' {
        ((c as u32 + 32) as u32) as char
    } else {
        c
    }
}

/// The ASCII lowercase of one character.
pub fn to_ascii_lower(c: char) -> (r: char)
    ensures
        r == ascii_lower(c),
{
    if 'A' <= c && c <= 'Z' {
        (c as u8 + 32) as char
    } else {
        c
    }
}

/// The ASCII uppercase of one character; other characters stay.
pub open spec fn ascii_upper(c: char) -> char {
    if 'a' <= c && c <= 'z' {
        ((c as u32 - 32) as u32) as char
    } else {
        c
    }
}

/// Calls `str::to_lowercase`. The result is named by [`lowercase`]; of plain
/// ASCII text it is the letter-by-letter ASCII lowercase.
#[verifier::external_body]
pub(crate) fn lower(s: &str) -> (r: String)
    ensures
        r@ == lowercase(s@),
        all_ascii(s@) ==> r@ == s@.map_values(|c: char| ascii_lower(c)),
{
    s.to_lowercase()
}

/// Calls `str::to_uppercase`. The result is named by [`uppercase`]; of plain
/// ASCII text it is the letter-by-letter ASCII uppercase.
#[verifier::external_body]
pub(crate) fn upper(s: &str) -> (r: String)
    ensures
        r@ == uppercase(s@),
        all_ascii(s@) ==> r@ == s@.map_values(|c: char| ascii_upper(c)),
{
    s.to_uppercase()
}

/// What [`decode_lossy`] returns.
pub uninterp spec fn lossy(bytes: Seq<u8>) -> Seq<char>;

/// Calls `String::from_utf8_lossy`. The result is named by [`lossy`]; valid
/// UTF-8 is decoded unchanged.
#[verifier::external_body]
pub(crate) fn decode_lossy(bytes: &[u8]) -> (r: String)
    ensures
        r@ == lossy(bytes@),
        vstd::utf8::valid_utf8(bytes@) ==> r@ == vstd::utf8::decode_utf8(bytes@),
{
    String::from_utf8_lossy(bytes).into_owned()
}

/// The characters of a text.
pub fn chars_of(s: &str) -> (r: Vec<char>)
    ensures
        r@ == s@,
{
    let mut out: Vec<char> = Vec::new();
    for c in it: s.chars()
        invariant
            out@.len() == it.index(),
            it.seq() == s@,
            forall|i: int| 0 <= i < out@.len() ==> out@[i] == it.seq()[i],
    {
        out.push(c);
    }
    out
}

/// The text made of these characters.
pub fn string_of(s: &[char]) -> (r: String)
    ensures
        r@ == s@,
{
    let mut out = String::new();
    let mut i: usize = 0;
    while i < s.len()
        invariant
            i <= s.len(),
            out@ == s@.subrange(0, i as int),
        decreases s.len() - i,
    {
        out.push(s[i]);
        proof {
            assert(s@.subrange(0, i + 1) =~= s@.subrange(0, i as int).push(s@[i as int]));
        }
        i += 1;
    }
    proof {
        assert(s@.subrange(0, i as int) =~= s@);
    }
    out
}


// ---------------------------------------------------------------------------
// Character classes.
// ---------------------------------------------------------------------------

/// Unicode white space (the `White_Space` property).
pub open spec fn space(c: char) -> bool {
    let n = c as u32;
    ||| 9 <= n <= 13
    ||| n == 0x20
    ||| n == 0x85
    ||| n == 0xa0
    ||| n == 0x1680
    ||| 0x2000 <= n <= 0x200a
    ||| n == 0x2028
    ||| n == 0x2029
    ||| n == 0x202f
    ||| n == 0x205f
    ||| n == 0x3000
}

/// Is this character white space?
pub fn is_space(c: char) -> (r: bool)
    ensures
        r == space(c),
{
    let n: u32 = c as u32;
    (9 <= n && n <= 13) || n == 0x20 || n == 0x85 || n == 0xa0 || n == 0x1680 || (0x2000 <= n && n
        <= 0x200a) || n == 0x2028 || n == 0x2029 || n == 0x202f || n == 0x205f || n == 0x3000
}

/// Control characters (general category `Cc`).
pub open spec fn control(c: char) -> bool {
    let n = c as u32;
    n < 0x20 || 0x7f <= n < 0xa0
}

/// Is this a control character?
pub fn is_control(c: char) -> (r: bool)
    ensures
        r == control(c),
{
    let n: u32 = c as u32;
    n < 0x20 || (0x7f <= n && n < 0xa0)
}

/// Every character is white space (so also the empty text).
pub open spec fn blank(s: Seq<char>) -> bool {
    forall|i: int| 0 <= i < s.len() ==> space(#[trigger] s[i])
}

// ---------------------------------------------------------------------------
// Comparing.
// ---------------------------------------------------------------------------

/// Are the two texts the same?
pub fn same(a: &[char], b: &[char]) -> (r: bool)
    ensures
        r == (a@ == b@),
{
    if a.len() != b.len() {
        return false;
    }
    let mut i: usize = 0;
    while i < a.len()
        invariant
            i <= a.len(),
            a.len() == b.len(),
            forall|j: int| 0 <= j < i ==> a@[j] == b@[j],
        decreases a.len() - i,
    {
        if a[i] != b[i] {
            return false;
        }
        i += 1;
    }
    proof {
        assert(a@ =~= b@);
    }
    true
}

/// Are the two texts the same?
pub fn same_str(a: &str, b: &str) -> (r: bool)
    ensures
        r == (a@ == b@),
{
    let x = chars_of(a);
    let y = chars_of(b);
    same(x.as_slice(), y.as_slice())
}

// ---------------------------------------------------------------------------
// Searching.
// ---------------------------------------------------------------------------

/// `needle` stands in `hay` at position `i`.
pub open spec fn occurs_at(hay: Seq<char>, needle: Seq<char>, i: int) -> bool {
    0 <= i && i + needle.len() <= hay.len() && hay.subrange(i, i + needle.len()) == needle
}

/// `needle` stands somewhere in `hay`.
pub open spec fn holds(hay: Seq<char>, needle: Seq<char>) -> bool {
    exists|i: int| occurs_at(hay, needle, i)
}

/// The first position at or after `from` where `needle` stands in `hay`.
pub open spec fn position_from(hay: Seq<char>, needle: Seq<char>, from: int) -> Option<int>
    decreases hay.len() - from + 1,
{
    if from < 0 || from + needle.len() > hay.len() {
        None
    } else if occurs_at(hay, needle, from) {
        Some(from)
    } else {
        position_from(hay, needle, from + 1)
    }
}

/// The first position where `needle` stands in `hay`.
pub open spec fn position(hay: Seq<char>, needle: Seq<char>) -> Option<int> {
    position_from(hay, needle, 0)
}

/// [`position_from`] is the least position from `from` on, and there is none
/// exactly when it is `None`.
pub proof fn position_from_is_least(hay: Seq<char>, needle: Seq<char>, from: int)
    requires
        0 <= from,
    ensures
        match position_from(hay, needle, from) {
            Some(i) => from <= i && occurs_at(hay, needle, i) && forall|j: int|
                from <= j < i ==> !occurs_at(hay, needle, j),
            None => forall|j: int| from <= j ==> !occurs_at(hay, needle, j),
        },
    decreases hay.len() - from + 1,
{
    if from + needle.len() <= hay.len() && !occurs_at(hay, needle, from) {
        position_from_is_least(hay, needle, from + 1);
        assert forall|j: int| from <= j && (position_from(hay, needle, from) matches Some(i) ==> j < i) implies !occurs_at(hay, needle, j) by {
            if j > from {
                assert(from + 1 <= j);
            }
        }
    }
}

/// A text holds another exactly when it has a first position.
pub proof fn holds_iff_position(hay: Seq<char>, needle: Seq<char>)
    ensures
        holds(hay, needle) == (position(hay, needle) is Some),
{
    position_from_is_least(hay, needle, 0);
    if holds(hay, needle) {
        let i = choose|i: int| occurs_at(hay, needle, i);
        assert(occurs_at(hay, needle, i));
    } else if position(hay, needle) is Some {
        assert(occurs_at(hay, needle, position(hay, needle)->0));
    }
}

/// Does `needle` stand in `hay` at `i`?
pub fn stands_at(hay: &[char], needle: &[char], i: usize) -> (r: bool)
    ensures
        r == occurs_at(hay@, needle@, i as int),
{
    if needle.len() > hay.len() || i > hay.len() - needle.len() {
        return false;
    }
    same(slice_subrange(hay, i, i + needle.len()), needle)
}

/// Finds the first position of `needle` at or after `from`.
pub fn find_from(hay: &[char], needle: &[char], from: usize) -> (r: Option<usize>)
    ensures
        match r {
            Some(i) => position_from(hay@, needle@, from as int) == Some(i as int),
            None => position_from(hay@, needle@, from as int) is None,
        },
        r matches Some(i) ==> from <= i && i + needle@.len() <= hay@.len(),
{
    proof {
        position_from_is_least(hay@, needle@, from as int);
    }
    if needle.len() > hay.len() {
        return None;
    }
    let last: usize = hay.len() - needle.len();
    let mut i: usize = from;
    while i <= last
        invariant
            from <= i,
            last == hay@.len() - needle@.len(),
            position_from(hay@, needle@, from as int) == position_from(hay@, needle@, i as int),
        decreases hay@.len() - i,
    {
        if stands_at(hay, needle, i) {
            return Some(i);
        }
        if i == last {
            proof {
                assert(position_from(hay@, needle@, i + 1) is None);
            }
            return None;
        }
        i += 1;
    }
    None
}

/// Finds the first position of `needle`.
pub fn find(hay: &[char], needle: &[char]) -> (r: Option<usize>)
    ensures
        match r {
            Some(i) => position(hay@, needle@) == Some(i as int),
            None => position(hay@, needle@) is None,
        },
        r matches Some(i) ==> i + needle@.len() <= hay@.len(),
{
    find_from(hay, needle, 0)
}

/// Does `hay` hold `needle`?
pub fn contains(hay: &str, needle: &str) -> (r: bool)
    ensures
        r == holds(hay@, needle@),
{
    let h = chars_of(hay);
    let n = chars_of(needle);
    proof {
        holds_iff_position(hay@, needle@);
    }
    match find(h.as_slice(), n.as_slice()) {
        Some(_) => true,
        None => false,
    }
}

/// The last position where `needle` stands in `hay`, looking from `from` down.
pub open spec fn position_back(hay: Seq<char>, needle: Seq<char>, from: int) -> Option<int>
    decreases from + 1,
{
    if from < 0 {
        None
    } else if occurs_at(hay, needle, from) {
        Some(from)
    } else {
        position_back(hay, needle, from - 1)
    }
}

/// The last position where `needle` stands in `hay`.
pub open spec fn last_position(hay: Seq<char>, needle: Seq<char>) -> Option<int> {
    position_back(hay, needle, hay.len() - needle.len())
}

/// A last position is a place where `needle` stands.
pub proof fn last_position_stands(hay: Seq<char>, needle: Seq<char>)
    ensures
        last_position(hay, needle) matches Some(i) ==> occurs_at(hay, needle, i) && holds(
            hay,
            needle,
        ),
{
    position_back_stands(hay, needle, hay.len() - needle.len());
}

proof fn position_back_stands(hay: Seq<char>, needle: Seq<char>, from: int)
    ensures
        position_back(hay, needle, from) matches Some(i) ==> occurs_at(hay, needle, i),
    decreases from + 1,
{
    if from >= 0 && !occurs_at(hay, needle, from) {
        position_back_stands(hay, needle, from - 1);
    }
}

/// Finds the last position of `needle`.
pub fn rfind(hay: &[char], needle: &[char]) -> (r: Option<usize>)
    ensures
        match r {
            Some(i) => last_position(hay@, needle@) == Some(i as int),
            None => last_position(hay@, needle@) is None,
        },
        r matches Some(i) ==> occurs_at(hay@, needle@, i as int),
{
    if needle.len() > hay.len() {
        return None;
    }
    let mut i: usize = hay.len() - needle.len();
    loop
        invariant
            i + needle@.len() <= hay@.len(),
            last_position(hay@, needle@) == position_back(hay@, needle@, i as int),
        decreases i,
    {
        if stands_at(hay, needle, i) {
            return Some(i);
        }
        if i == 0 {
            proof {
                assert(position_back(hay@, needle@, -1) is None);
            }
            return None;
        }
        i -= 1;
    }
}

/// The first position of one character at or after `from`.
pub open spec fn char_from(s: Seq<char>, c: char, from: int) -> Option<int>
    decreases s.len() - from,
{
    if from < 0 || from >= s.len() {
        None
    } else if s[from] == c {
        Some(from)
    } else {
        char_from(s, c, from + 1)
    }
}

/// Finds the first `c` at or after `from`.
pub fn find_char(s: &[char], c: char, from: usize) -> (r: Option<usize>)
    ensures
        match r {
            Some(i) => char_from(s@, c, from as int) == Some(i as int),
            None => char_from(s@, c, from as int) is None,
        },
        r matches Some(i) ==> from <= i < s@.len() && s@[i as int] == c,
{
    let mut i: usize = from;
    while i < s.len()
        invariant
            from <= i,
            char_from(s@, c, from as int) == char_from(s@, c, i as int),
        decreases s.len() - i,
    {
        if s[i] == c {
            return Some(i);
        }
        i += 1;
    }
    None
}

/// A found character is the first one from `from` on; `None` means there is none.
pub proof fn char_from_is_least(s: Seq<char>, c: char, from: int)
    requires
        0 <= from,
    ensures
        match char_from(s, c, from) {
            Some(i) => from <= i < s.len() && s[i] == c && forall|j: int|
                from <= j < i ==> s[j] != c,
            None => forall|j: int| from <= j < s.len() ==> s[j] != c,
        },
    decreases s.len() - from,
{
    if from < s.len() && s[from] != c {
        char_from_is_least(s, c, from + 1);
    }
}

// ---------------------------------------------------------------------------
// Trimming.
// ---------------------------------------------------------------------------

/// Without leading white space.
pub open spec fn trim_front(s: Seq<char>) -> Seq<char>
    decreases s.len(),
{
    if s.len() > 0 && space(s[0]) {
        trim_front(s.drop_first())
    } else {
        s
    }
}

/// Without trailing white space.
pub open spec fn trim_back(s: Seq<char>) -> Seq<char>
    decreases s.len(),
{
    if s.len() > 0 && space(s.last()) {
        trim_back(s.drop_last())
    } else {
        s
    }
}

/// Without white space at either end.
pub open spec fn trimmed(s: Seq<char>) -> Seq<char> {
    trim_back(trim_front(s))
}

/// Drops white space from both ends.
pub fn trim(s: &[char]) -> (r: &[char])
    ensures
        r@ == trimmed(s@),
{
    let mut i: usize = 0;
    proof {
        assert(s@.skip(0) =~= s@);
    }
    while i < s.len() && is_space(s[i])
        invariant
            i <= s.len(),
            trim_front(s@) == trim_front(s@.skip(i as int)),
        decreases s.len() - i,
    {
        proof {
            assert(s@.skip(i as int).drop_first() =~= s@.skip(i + 1));
        }
        i += 1;
    }
    proof {
        assert(trim_front(s@) == s@.skip(i as int));
        assert(s@.skip(i as int) =~= s@.subrange(i as int, s@.len() as int));
    }
    let mut j: usize = s.len();
    while i < j && is_space(s[j - 1])
        invariant
            i <= j <= s.len(),
            trim_back(s@.skip(i as int)) == trim_back(s@.subrange(i as int, j as int)),
        decreases j,
    {
        proof {
            assert(s@.subrange(i as int, j as int).drop_last() =~= s@.subrange(i as int, j - 1));
        }
        j -= 1;
    }
    slice_subrange(s, i, j)
}

/// Trimmed text starts and ends with something visible.
pub proof fn trimmed_ends_visible(s: Seq<char>)
    ensures
        trimmed(s).len() > 0 ==> !space(trimmed(s)[0]) && !space(trimmed(s).last()),
        trimmed(s).len() <= s.len(),
{
    trim_front_ends(s);
    trim_back_ends(trim_front(s));
}

/// What is left after dropping leading white space starts with something visible.
pub proof fn trim_front_ends(s: Seq<char>)
    ensures
        trim_front(s).len() > 0 ==> !space(trim_front(s)[0]),
        trim_front(s).len() <= s.len(),
    decreases s.len(),
{
    if s.len() > 0 && space(s[0]) {
        trim_front_ends(s.drop_first());
    }
}

/// What is left after dropping trailing white space ends with something visible.
pub proof fn trim_back_ends(s: Seq<char>)
    ensures
        trim_back(s).len() > 0 ==> !space(trim_back(s).last()) && trim_back(s)[0] == s[0],
        trim_back(s).len() <= s.len(),
    decreases s.len(),
{
    if s.len() > 0 && space(s.last()) {
        trim_back_ends(s.drop_last());
    }
}

/// Trimming keeps a range of the text; the result says where it starts.
pub proof fn trimming_keeps_a_range(s: Seq<char>) -> (i: int)
    ensures
        0 <= i,
        i + trimmed(s).len() <= s.len(),
        trimmed(s) == s.subrange(i, i + trimmed(s).len()),
{
    let i = trim_front_keeps_a_range(s);
    trim_back_keeps_a_range(trim_front(s));
    assert(trimmed(s) =~= s.subrange(i, i + trimmed(s).len()));
    i
}

proof fn trim_front_keeps_a_range(s: Seq<char>) -> (i: int)
    ensures
        0 <= i <= s.len(),
        trim_front(s) == s.skip(i),
    decreases s.len(),
{
    if s.len() > 0 && space(s[0]) {
        let i = trim_front_keeps_a_range(s.drop_first());
        assert(s.drop_first().skip(i) =~= s.skip(i + 1));
        i + 1
    } else {
        assert(s.skip(0) =~= s);
        0
    }
}

proof fn trim_back_keeps_a_range(s: Seq<char>)
    ensures
        trim_back(s).len() <= s.len(),
        trim_back(s) == s.take(trim_back(s).len() as int),
    decreases s.len(),
{
    if s.len() > 0 && space(s.last()) {
        trim_back_keeps_a_range(s.drop_last());
        assert(s.drop_last().take(trim_back(s).len() as int) =~= s.take(
            trim_back(s).len() as int,
        ));
    } else {
        assert(s.take(s.len() as int) =~= s);
    }
}

/// Text that starts and ends with something visible is its own trimming.
pub proof fn trimmed_fixed(s: Seq<char>)
    requires
        s.len() == 0 || (!space(s[0]) && !space(s.last())),
    ensures
        trimmed(s) == s,
{
}

/// Trimming leaves nothing exactly when there is nothing but white space.
pub proof fn trimmed_empty_iff_blank(s: Seq<char>)
    ensures
        (trimmed(s).len() == 0) == blank(s),
    decreases s.len(),
{
    trimmed_ends_visible(s);
    if s.len() > 0 {
        if space(s[0]) {
            trimmed_empty_iff_blank(s.drop_first());
            if blank(s.drop_first()) {
                assert forall|i: int| 0 <= i < s.len() implies space(#[trigger] s[i]) by {
                    if i > 0 {
                        assert(s.drop_first()[i - 1] == s[i]);
                    }
                }
            }
            if blank(s) {
                assert forall|i: int| 0 <= i < s.drop_first().len() implies space(
                    #[trigger] s.drop_first()[i],
                ) by {
                    assert(s.drop_first()[i] == s[i + 1]);
                }
            }
        } else {
            assert(!blank(s));
            trim_back_keeps(s);
        }
    }
}

proof fn trim_back_keeps(s: Seq<char>)
    requires
        s.len() > 0,
        !space(s[0]),
    ensures
        trim_back(s).len() > 0,
    decreases s.len(),
{
    if space(s.last()) {
        trim_back_keeps(s.drop_last());
    }
}

/// Is there nothing but white space?
pub fn is_blank(s: &[char]) -> (r: bool)
    ensures
        r == blank(s@),
{
    proof {
        trimmed_empty_iff_blank(s@);
    }
    trim(s).len() == 0
}

/// The trimmed text of a string.
pub fn trim_str(s: &str) -> (r: String)
    ensures
        r@ == trimmed(s@),
{
    let v = chars_of(s);
    string_of(trim(v.as_slice()))
}


// ---------------------------------------------------------------------------
// Splitting and joining.
// ---------------------------------------------------------------------------

/// The texts of a list of slices.
pub open spec fn views(v: Seq<&[char]>) -> Seq<Seq<char>> {
    Seq::new(v.len(), |i: int| v[i]@)
}

/// The texts of a list of strings.
pub open spec fn texts(v: Seq<String>) -> Seq<Seq<char>> {
    Seq::new(v.len(), |i: int| v[i]@)
}

/// The pieces between the separators `c`; there is always at least one.
pub open spec fn fields(s: Seq<char>, c: char) -> Seq<Seq<char>>
    decreases s.len(),
{
    proof {
        char_from_is_least(s, c, 0);
    }
    match char_from(s, c, 0) {
        None => seq![s],
        Some(i) => seq![s.take(i)] + fields(s.skip(i + 1), c),
    }
}

/// Splits at every `c`.
pub fn split(s: &[char], c: char) -> (r: Vec<&[char]>)
    ensures
        views(r@) == fields(s@, c),
        r@.len() >= 1,
{
    let mut out: Vec<&[char]> = Vec::new();
    let n: usize = s.len();
    let mut start: usize = 0;
    proof {
        assert(s@.skip(0) =~= s@);
        assert(views(out@) + fields(s@, c) =~= fields(s@, c));
    }
    loop
        invariant
            start <= n == s@.len(),
            fields(s@, c) == views(out@) + fields(s@.skip(start as int), c),
        decreases s@.len() - start,
    {
        let ghost rest = s@.skip(start as int);
        let ghost before = out@;
        proof {
            char_from_is_least(rest, c, 0);
            char_from_shift(s@, c, start as int, 0);
        }
        match find_char(s, c, start) {
            None => {
                out.push(slice_subrange(s, start, s.len()));
                proof {
                    assert(rest =~= s@.subrange(start as int, s@.len() as int));
                    assert(views(out@) =~= views(before) + seq![rest]);
                }
                return out;
            },
            Some(i) => {
                out.push(slice_subrange(s, start, i));
                proof {
                    assert(rest.take(i - start) =~= s@.subrange(start as int, i as int));
                    assert(rest.skip(i - start + 1) =~= s@.skip(i + 1));
                    assert(views(out@) =~= views(before) + seq![rest.take(i - start)]);
                    assert(views(before) + (seq![rest.take(i - start)] + fields(s@.skip(i + 1), c))
                        =~= views(out@) + fields(s@.skip(i + 1), c));
                }
                start = i + 1;
            },
        }
    }
}

/// Searching a suffix is searching the whole from an offset.
pub proof fn char_from_shift(s: Seq<char>, c: char, base: int, from: int)
    requires
        0 <= base <= s.len(),
        0 <= from,
    ensures
        char_from(s, c, base + from) == match char_from(s.skip(base), c, from) {
            Some(i) => Some(base + i),
            None => None,
        },
    decreases s.len() - base - from,
{
    if base + from < s.len() && s[base + from] != c {
        char_from_shift(s, c, base, from + 1);
    }
}

/// A line without the carriage return that ended it.
pub open spec fn chomp(s: Seq<char>) -> Seq<char> {
    if s.len() > 0 && s.last() == '\r' {
        s.drop_last()
    } else {
        s
    }
}

/// The lines of a text: each ends at a line feed, with a carriage return before
/// it dropped; what follows the last line feed is a line unless it is empty.
pub open spec fn line_list(s: Seq<char>) -> Seq<Seq<char>>
    decreases s.len(),
{
    proof {
        char_from_is_least(s, '\n', 0);
    }
    if s.len() == 0 {
        seq![]
    } else {
        match char_from(s, '\n', 0) {
            None => seq![s],
            Some(i) => seq![chomp(s.take(i))] + line_list(s.skip(i + 1)),
        }
    }
}

/// Lines that are complete stay the same, whatever follows them.
pub proof fn lines_of_two(x: Seq<char>, y: Seq<char>)
    requires
        x.len() == 0 || x.last() == '\n',
    ensures
        line_list(x + y) == line_list(x) + line_list(y),
    decreases x.len(),
{
    if x.len() == 0 {
        assert(x + y =~= y);
        assert(line_list(x) + line_list(y) =~= line_list(y));
    } else {
        char_from_is_least(x, '\n', 0);
        assert(x[x.len() - 1] == '\n');
        let i = char_from(x, '\n', 0)->0;
        char_from_is_least(x + y, '\n', 0);
        assert((x + y)[i] == '\n');
        let j = char_from(x + y, '\n', 0)->0;
        if j < i {
            assert((x + y)[j] == x[j]);
        }
        assert(i == j);
        assert((x + y).take(i) =~= x.take(i));
        assert((x + y).skip(i + 1) =~= x.skip(i + 1) + y);
        lines_of_two(x.skip(i + 1), y);
        assert(seq![chomp(x.take(i))] + (line_list(x.skip(i + 1)) + line_list(y)) =~= (seq![
            chomp(x.take(i)),
        ] + line_list(x.skip(i + 1))) + line_list(y));
    }
}

/// A text without a line feed is one line.
pub proof fn line_of_one(s: Seq<char>)
    requires
        forall|i: int| 0 <= i < s.len() ==> s[i] != '\n',
    ensures
        line_list(s.push('\n')) == seq![chomp(s)],
{
    let x = s.push('\n');
    char_from_is_least(x, '\n', 0);
    assert(x[s.len() as int] == '\n');
    let i = char_from(x, '\n', 0)->0;
    if i < s.len() {
        assert(x[i] == s[i]);
    }
    assert(x.take(i) =~= s);
    assert(x.skip(i + 1) =~= Seq::<char>::empty());
    assert(seq![chomp(s)] + line_list(x.skip(i + 1)) =~= seq![chomp(s)]);
}

/// Splits into lines.
pub fn lines(s: &[char]) -> (r: Vec<&[char]>)
    ensures
        views(r@) == line_list(s@),
{
    let mut out: Vec<&[char]> = Vec::new();
    let mut start: usize = 0;
    proof {
        assert(s@.skip(0) =~= s@);
        assert(views(out@) + line_list(s@) =~= line_list(s@));
    }
    while start < s.len()
        invariant
            start <= s@.len(),
            line_list(s@) == views(out@) + line_list(s@.skip(start as int)),
        decreases s@.len() - start,
    {
        let ghost rest = s@.skip(start as int);
        let ghost before = out@;
        proof {
            char_from_is_least(rest, '\n', 0);
            char_from_shift(s@, '\n', start as int, 0);
        }
        match find_char(s, '\n', start) {
            None => {
                out.push(slice_subrange(s, start, s.len()));
                proof {
                    assert(rest =~= s@.subrange(start as int, s@.len() as int));
                    assert(views(out@) =~= views(before) + seq![rest]);
                }
                return out;
            },
            Some(i) => {
                let end: usize = if i > start && s[i - 1] == '\r' {
                    i - 1
                } else {
                    i
                };
                out.push(slice_subrange(s, start, end));
                proof {
                    let piece = rest.take(i - start);
                    assert(piece =~= s@.subrange(start as int, i as int));
                    assert(chomp(piece) =~= s@.subrange(start as int, end as int));
                    assert(rest.skip(i - start + 1) =~= s@.skip(i + 1));
                    assert(views(out@) =~= views(before) + seq![chomp(piece)]);
                    assert(views(before) + (seq![chomp(piece)] + line_list(s@.skip(i + 1)))
                        =~= views(out@) + line_list(s@.skip(i + 1)));
                }
                start = i + 1;
            },
        }
    }
    proof {
        assert(s@.skip(start as int) =~= Seq::<char>::empty());
        assert(views(out@) + line_list(s@.skip(start as int)) =~= views(out@));
    }
    out
}

/// How many characters stand before the first white space.
pub open spec fn word_len(s: Seq<char>) -> nat
    decreases s.len(),
{
    if s.len() == 0 || space(s[0]) {
        0
    } else {
        1 + word_len(s.drop_first())
    }
}

/// A word is no longer than the text it stands in.
pub proof fn word_len_bound(s: Seq<char>)
    ensures
        word_len(s) <= s.len(),
        forall|j: int| 0 <= j < word_len(s) ==> !space(#[trigger] s[j]),
        word_len(s) < s.len() ==> space(s[word_len(s) as int]),
    decreases s.len(),
{
    if s.len() > 0 && !space(s[0]) {
        word_len_bound(s.drop_first());
        assert forall|j: int| 0 <= j < word_len(s) implies !space(#[trigger] s[j]) by {
            if j > 0 {
                assert(s.drop_first()[j - 1] == s[j]);
            }
        }
    }
}

/// The maximal runs of characters that are not white space.
pub open spec fn word_list(s: Seq<char>) -> Seq<Seq<char>>
    decreases s.len(),
{
    proof {
        trim_front_ends(s);
        word_len_bound(trim_front(s));
    }
    let t = trim_front(s);
    if t.len() == 0 {
        seq![]
    } else {
        seq![t.take(word_len(t) as int)] + word_list(t.skip(word_len(t) as int))
    }
}

/// Splits at white space.
pub fn words(s: &[char]) -> (r: Vec<&[char]>)
    ensures
        views(r@) == word_list(s@),
{
    let mut out: Vec<&[char]> = Vec::new();
    let mut i: usize = 0;
    proof {
        assert(s@.skip(0) =~= s@);
        assert(views(out@) + word_list(s@) =~= word_list(s@));
    }
    loop
        invariant
            i <= s@.len(),
            word_list(s@) == views(out@) + word_list(s@.skip(i as int)),
        decreases s@.len() - i,
    {
        let ghost rest = s@.skip(i as int);
        let ghost before = out@;
        let ghost entry = i;
        while i < s.len() && is_space(s[i])
            invariant
                entry <= i <= s@.len(),
                trim_front(rest) == trim_front(s@.skip(i as int)),
            decreases s@.len() - i,
        {
            proof {
                assert(s@.skip(i as int).drop_first() =~= s@.skip(i + 1));
            }
            i += 1;
        }
        proof {
            assert(trim_front(rest) == s@.skip(i as int));
        }
        if i >= s.len() {
            proof {
                assert(views(out@) + word_list(rest) =~= views(out@));
            }
            return out;
        }
        let start: usize = i;
        let ghost t = s@.skip(start as int);
        proof {
            word_len_bound(t);
            assert(!space(t[0]));
        }
        while i < s.len() && !is_space(s[i])
            invariant
                start <= i <= s@.len(),
                t == s@.skip(start as int),
                word_len(t) == (i - start) + word_len(s@.skip(i as int)),
            decreases s@.len() - i,
        {
            proof {
                assert(s@.skip(i as int).drop_first() =~= s@.skip(i + 1));
            }
            i += 1;
        }
        out.push(slice_subrange(s, start, i));
        proof {
            assert(word_len(s@.skip(i as int)) == 0);
            assert(word_len(t) == i - start);
            assert(t.take(i - start) =~= s@.subrange(start as int, i as int));
            assert(t.skip(i - start) =~= s@.skip(i as int));
            assert(views(out@) =~= views(before) + seq![t.take(i - start)]);
            assert(views(before) + (seq![t.take(i - start)] + word_list(s@.skip(i as int)))
                =~= views(out@) + word_list(s@.skip(i as int)));
        }
    }
}

/// The pieces with the separator between neighbours.
pub open spec fn joined(list: Seq<Seq<char>>, sep: Seq<char>) -> Seq<char>
    decreases list.len(),
{
    if list.len() == 0 {
        seq![]
    } else if list.len() == 1 {
        list[0]
    } else {
        joined(list.drop_last(), sep) + sep + list.last()
    }
}

/// Appends the characters of a slice.
pub fn push_chars(out: &mut String, s: &[char])
    ensures
        final(out)@ == old(out)@ + s@,
{
    let mut i: usize = 0;
    proof {
        assert(old(out)@ + s@.take(0) =~= old(out)@);
    }
    while i < s.len()
        invariant
            i <= s.len(),
            out@ == old(out)@ + s@.take(i as int),
        decreases s.len() - i,
    {
        out.push(s[i]);
        proof {
            assert(old(out)@ + s@.take(i + 1) =~= (old(out)@ + s@.take(i as int)).push(
                s@[i as int],
            ));
        }
        i += 1;
    }
    proof {
        assert(s@.take(i as int) =~= s@);
    }
}

/// Joins slices with a separator.
pub fn join(list: &Vec<&[char]>, sep: &str) -> (r: String)
    ensures
        r@ == joined(views(list@), sep@),
{
    let mut out = String::new();
    let mut i: usize = 0;
    while i < list.len()
        invariant
            i <= list.len(),
            out@ == joined(views(list@).take(i as int), sep@),
        decreases list.len() - i,
    {
        proof {
            assert(views(list@).take(i + 1).drop_last() =~= views(list@).take(i as int));
            assert(views(list@).take(i + 1).last() == list@[i as int]@);
        }
        if i > 0 {
            out.append(sep);
        }
        push_chars(&mut out, list[i]);
        proof {
            if i == 0 {
                assert(out@ =~= list@[0]@);
            }
        }
        i += 1;
    }
    proof {
        assert(views(list@).take(i as int) =~= views(list@));
    }
    out
}

/// Joins the first `n` strings with a separator.
pub fn join_strings(list: &Vec<String>, n: usize, sep: &str) -> (r: String)
    requires
        n <= list@.len(),
    ensures
        r@ == joined(texts(list@).take(n as int), sep@),
{
    let mut out = String::new();
    let mut i: usize = 0;
    while i < n
        invariant
            i <= n <= list@.len(),
            out@ == joined(texts(list@).take(i as int), sep@),
        decreases n - i,
    {
        proof {
            assert(texts(list@).take(i + 1).drop_last() =~= texts(list@).take(i as int));
            assert(texts(list@).take(i + 1).last() == list@[i as int]@);
        }
        if i > 0 {
            out.append(sep);
        }
        out.append(list[i].as_str());
        proof {
            if i == 0 {
                assert(out@ =~= list@[0]@);
            }
        }
        i += 1;
    }
    out
}

/// The text `n` times over.
pub open spec fn repeated(c: char, n: int) -> Seq<char> {
    Seq::new(n as nat, |i: int| c)
}

/// Appends `c` `n` times.
pub fn push_repeat(out: &mut String, c: char, n: usize)
    ensures
        final(out)@ == old(out)@ + repeated(c, n as int),
{
    let mut i: usize = 0;
    proof {
        assert(old(out)@ + repeated(c, 0) =~= old(out)@);
    }
    while i < n
        invariant
            i <= n,
            out@ == old(out)@ + repeated(c, i as int),
        decreases n - i,
    {
        out.push(c);
        proof {
            assert(old(out)@ + repeated(c, i + 1) =~= (old(out)@ + repeated(c, i as int)).push(c));
        }
        i += 1;
    }
}

/// `c` `n` times.
pub fn repeat(c: char, n: usize) -> (r: String)
    ensures
        r@ == repeated(c, n as int),
{
    let mut out = String::new();
    push_repeat(&mut out, c, n);
    proof {
        assert(Seq::<char>::empty() + repeated(c, n as int) =~= repeated(c, n as int));
    }
    out
}

/// Two texts one after the other.
pub fn concat2(a: &str, b: &str) -> (r: String)
    ensures
        r@ == a@ + b@,
{
    let mut out = String::new();
    out.append(a);
    out.append(b);
    proof {
        assert(Seq::<char>::empty() + a@ =~= a@);
    }
    out
}

/// Three texts one after the other.
pub fn concat3(a: &str, b: &str, c: &str) -> (r: String)
    ensures
        r@ == a@ + b@ + c@,
{
    let mut out = concat2(a, b);
    out.append(c);
    out
}

// ---------------------------------------------------------------------------
// Order.
// ---------------------------------------------------------------------------

/// One text comes before another, character by character.
pub open spec fn before(a: Seq<char>, b: Seq<char>) -> bool
    decreases b.len(),
{
    if b.len() == 0 {
        false
    } else if a.len() == 0 {
        true
    } else if a[0] != b[0] {
        a[0] < b[0]
    } else {
        before(a.skip(1), b.skip(1))
    }
}

/// Does one text come before another?
pub fn is_before(a: &str, b: &str) -> (r: bool)
    ensures
        r == before(a@, b@),
{
    let x = chars_of(a);
    let y = chars_of(b);
    let mut i: usize = 0;
    proof {
        assert(a@.skip(0) =~= a@);
        assert(b@.skip(0) =~= b@);
    }
    while i < y.len()
        invariant
            x@ == a@,
            y@ == b@,
            i <= x@.len(),
            i <= y@.len(),
            before(a@, b@) == before(a@.skip(i as int), b@.skip(i as int)),
        decreases y@.len() - i,
    {
        if i == x.len() {
            return true;
        }
        if x[i] != y[i] {
            return x[i] < y[i];
        }
        proof {
            assert(a@.skip(i as int).skip(1) =~= a@.skip(i + 1));
            assert(b@.skip(i as int).skip(1) =~= b@.skip(i + 1));
        }
        i += 1;
    }
    false
}

/// What does not come after something that does not come after a third, does not come
/// after the third.
pub proof fn not_before_chains(a: Seq<char>, b: Seq<char>, c: Seq<char>)
    requires
        !before(b, a),
        !before(c, b),
    ensures
        !before(c, a),
    decreases a.len(),
{
    if a.len() > 0 && b.len() > 0 && c.len() > 0 && a[0] == b[0] && b[0] == c[0] {
        not_before_chains(a.skip(1), b.skip(1), c.skip(1));
    }
}

/// Of two texts at most one comes before the other.
pub proof fn before_is_one_way(a: Seq<char>, b: Seq<char>)
    requires
        before(a, b),
    ensures
        !before(b, a),
    decreases b.len(),
{
    if a.len() > 0 && a[0] == b[0] {
        before_is_one_way(a.skip(1), b.skip(1));
    }
}

// ---------------------------------------------------------------------------
// Laws of searching, trimming, splitting and joining.
// ---------------------------------------------------------------------------

/// A text holds another exactly when it is that other one with something before and after it.
pub proof fn held_text_has_two_sides(hay: Seq<char>, needle: Seq<char>)
    ensures
        holds(hay, needle) <==> exists|a: Seq<char>, b: Seq<char>| hay == #[trigger] (a + needle + b),
{
    if holds(hay, needle) {
        let i = choose|i: int| occurs_at(hay, needle, i);
        let a = hay.take(i);
        let b = hay.skip(i + needle.len());
        assert(hay.subrange(i, i + needle.len()) == needle);
        assert forall|j: int| 0 <= j < needle.len() implies #[trigger] hay[i + j] == needle[j] by {
            assert(hay.subrange(i, i + needle.len())[j] == needle[j]);
        }
        assert(hay =~= a + needle + b);
    }
    if exists|a: Seq<char>, b: Seq<char>| hay == #[trigger] (a + needle + b) {
        let (a, b) = choose|a: Seq<char>, b: Seq<char>| hay == #[trigger] (a + needle + b);
        assert(hay.subrange(a.len() as int, (a.len() + needle.len()) as int) =~= needle);
        assert(occurs_at(hay, needle, a.len() as int));
    }
}

/// Trimming takes white space off both ends and nothing else.
pub proof fn trimming_takes_only_white_space(s: Seq<char>)
    ensures
        exists|a: Seq<char>, b: Seq<char>|
            s == #[trigger] (a + trimmed(s) + b) && blank(a) && blank(b),
        trimmed(s).len() > 0 ==> !space(trimmed(s)[0]) && !space(trimmed(s).last()),
{
    trimmed_ends_visible(s);
    let f = trim_front(s);
    let a = front_is_blank(s);
    let b = back_is_blank(f);
    assert(s =~= a + trimmed(s) + b);
}

proof fn front_is_blank(s: Seq<char>) -> (a: Seq<char>)
    ensures
        s == a + trim_front(s),
        blank(a),
    decreases s.len(),
{
    if s.len() > 0 && space(s[0]) {
        let rest = front_is_blank(s.drop_first());
        let a = seq![s[0]] + rest;
        let t = trim_front(s.drop_first());
        assert(s =~= seq![s[0]] + s.drop_first());
        assert(seq![s[0]] + (rest + t) =~= a + t);
        a
    } else {
        assert(s =~= Seq::<char>::empty() + s);
        seq![]
    }
}

proof fn back_is_blank(s: Seq<char>) -> (b: Seq<char>)
    ensures
        s == trim_back(s) + b,
        blank(b),
    decreases s.len(),
{
    if s.len() > 0 && space(s.last()) {
        let rest = back_is_blank(s.drop_last());
        let b = rest.push(s.last());
        let t = trim_back(s.drop_last());
        assert(s =~= s.drop_last().push(s.last()));
        assert((t + rest).push(s.last()) =~= t + b);
        b
    } else {
        assert(s =~= s + Seq::<char>::empty());
        seq![]
    }
}

proof fn first_at_join(a: Seq<char>, c: char, b: Seq<char>, from: int)
    requires
        forall|i: int| 0 <= i < a.len() ==> a[i] != c,
        0 <= from <= a.len(),
    ensures
        char_from(a + seq![c] + b, c, from) == Some(a.len() as int),
    decreases a.len() - from,
{
    let whole = a + seq![c] + b;
    if from < a.len() {
        assert(whole[from] == a[from]);
        first_at_join(a, c, b, from + 1);
    } else {
        assert(whole[from] == c);
    }
}

proof fn none_at_all(s: Seq<char>, c: char, from: int)
    requires
        forall|i: int| 0 <= i < s.len() ==> s[i] != c,
        0 <= from,
    ensures
        char_from(s, c, from) is None,
    decreases s.len() - from,
{
    if from < s.len() {
        none_at_all(s, c, from + 1);
    }
}

proof fn joined_from_front(list: Seq<Seq<char>>, sep: Seq<char>)
    requires
        list.len() >= 2,
    ensures
        joined(list, sep) == list[0] + sep + joined(list.drop_first(), sep),
    decreases list.len(),
{
    let rest = list.drop_first();
    if list.len() == 2 {
        assert(list.drop_last() =~= seq![list[0]]);
        assert(rest =~= seq![list[1]]);
        assert(joined(list.drop_last(), sep) == list[0]);
    } else {
        joined_from_front(list.drop_last(), sep);
        assert(list.drop_last().drop_first() =~= rest.drop_last());
        assert(joined(rest, sep) == joined(rest.drop_last(), sep) + sep + rest.last());
    }
    assert(joined(list, sep) =~= list[0] + sep + joined(rest, sep));
}

/// Splitting takes joining back: pieces without the separator come out as they went in.
pub proof fn fields_of_joined(list: Seq<Seq<char>>, c: char)
    requires
        list.len() > 0,
        forall|i: int, j: int| 0 <= i < list.len() && 0 <= j < list[i].len() ==> list[i][j] != c,
    ensures
        fields(joined(list, seq![c]), c) == list,
    decreases list.len(),
{
    let s = joined(list, seq![c]);
    assert forall|j: int| 0 <= j < list[0].len() implies list[0][j] != c by {}
    if list.len() == 1 {
        none_at_all(s, c, 0);
        assert(fields(s, c) =~= list);
    } else {
        let rest = list.drop_first();
        joined_from_front(list, seq![c]);
        assert forall|i: int, j: int| 0 <= i < rest.len() && 0 <= j < rest[i].len() implies rest[i][j]
            != c by {
            assert(rest[i] == list[i + 1]);
        }
        fields_of_joined(rest, c);
        first_at_join(list[0], c, joined(rest, seq![c]), 0);
        assert(s.take(list[0].len() as int) =~= list[0]);
        assert(s.skip(list[0].len() as int + 1) =~= joined(rest, seq![c]));
        assert(fields(s, c) =~= list);
    }
}

/// Two or more pieces are joined by something.
pub proof fn joined_holds_separator(list: Seq<Seq<char>>, c: char)
    requires
        list.len() >= 2,
    ensures
        joined(list, seq![c]).contains(c),
{
    let s = joined(list, seq![c]);
    let head = joined(list.drop_last(), seq![c]);
    assert(s[head.len() as int] == c);
}

/// Joining takes splitting back, whatever the text, and no piece holds the separator.
pub proof fn fields_are_joined_back(s: Seq<char>, c: char)
    ensures
        joined(fields(s, c), seq![c]) == s,
        fields(s, c).len() > 0,
        forall|i: int, j: int|
            0 <= i < fields(s, c).len() && 0 <= j < fields(s, c)[i].len() ==> fields(s, c)[i][j]
                != c,
    decreases s.len(),
{
    char_from_is_least(s, c, 0);
    match char_from(s, c, 0) {
        None => {
            assert(fields(s, c) =~= seq![s]);
        },
        Some(i) => {
            let rest = s.skip(i + 1);
            fields_are_joined_back(rest, c);
            let f = fields(s, c);
            assert(f.drop_first() =~= fields(rest, c));
            joined_from_front(f, seq![c]);
            assert(s =~= s.take(i) + seq![c] + rest);
            assert forall|k: int, j: int| 0 <= k < f.len() && 0 <= j < f[k].len() implies f[k][j]
                != c by {
                if k > 0 {
                    assert(f[k] == fields(rest, c)[k - 1]);
                }
            }
        },
    }
}

/// Lines hold no line feed, and a text of complete lines is split into just those lines.
pub proof fn complete_lines_are_told_apart(list: Seq<Seq<char>>)
    requires
        forall|i: int, j: int|
            0 <= i < list.len() && 0 <= j < list[i].len() ==> list[i][j] != '\n' && list[i][j]
                != '\r',
    ensures
        line_list(list.map_values(|l: Seq<char>| l.push('\n')).flatten()) == list,
    decreases list.len(),
{
    let ended = list.map_values(|l: Seq<char>| l.push('\n'));
    if list.len() == 0 {
        assert(ended =~= Seq::<Seq<char>>::empty());
        assert(list =~= Seq::<Seq<char>>::empty());
    } else {
        let rest = list.drop_first();
        assert forall|i: int, j: int| 0 <= i < rest.len() && 0 <= j < rest[i].len() implies rest[i][j]
            != '\n' && rest[i][j] != '\r' by {
            assert(rest[i] == list[i + 1]);
        }
        complete_lines_are_told_apart(rest);
        assert(ended.drop_first() =~= rest.map_values(|l: Seq<char>| l.push('\n')));
        assert(ended.first() == list[0].push('\n'));
        assert forall|j: int| 0 <= j < list[0].len() implies list[0][j] != '\n' by {}
        line_of_one(list[0]);
        lines_of_two(list[0].push('\n'), ended.drop_first().flatten());
        if list[0].len() > 0 {
            assert(list[0][list[0].len() - 1] != '\r');
        }
        assert(chomp(list[0]) == list[0]);
        assert(line_list(ended.flatten()) =~= list);
    }
}

/// A text with a character in it is taken apart at the first one.
pub proof fn texts_part_at_the_first(a: Seq<char>, c: char, b: Seq<char>)
    requires
        !a.contains(c),
    ensures
        char_from(a + seq![c] + b, c, 0) == Some(a.len() as int),
        (a + seq![c] + b).take(a.len() as int) == a,
        (a + seq![c] + b).skip(a.len() + 1int) == b,
{
    let whole = a + seq![c] + b;
    char_from_is_least(whole, c, 0);
    assert(whole[a.len() as int] == c);
    assert forall|j: int| 0 <= j < a.len() implies whole[j] != c by {
        assert(a.contains(a[j]));
    }
    assert(whole.take(a.len() as int) =~= a);
    assert(whole.skip(a.len() + 1int) =~= b);
}

/// Letters have the same distance from their other case, and the two cases undo each other; other
/// characters stay.
pub proof fn cases_undo_each_other(c: char)
    ensures
        'A' <= c && c <= 'Z' ==> ascii_lower(c) as int == c as int + 32 && ascii_upper(
            ascii_lower(c),
        ) == c,
        'a' <= c && c <= 'z' ==> ascii_upper(c) as int == c as int - 32 && ascii_lower(
            ascii_upper(c),
        ) == c,
        !('A' <= c && c <= 'Z') ==> ascii_lower(c) == c,
        !('a' <= c && c <= 'z') ==> ascii_upper(c) == c,
{
}

} // verus!
