//! Cleaning the artist, title and album names that a player reports down to
//! the names that lyrics catalogues file a recording under.

use vstd::prelude::*;
use vstd::slice::slice_subrange;
use crate::text;

verus! {

/// One of the words stands in the text.
pub open spec fn holds_any(hay: Seq<char>, words: Seq<Seq<char>>) -> bool {
    exists|i: int| 0 <= i < words.len() && text::holds(hay, #[trigger] words[i])
}

/// The views of a list of string slices.
pub open spec fn word_views(v: Seq<&str>) -> Seq<Seq<char>> {
    Seq::new(v.len(), |i: int| v[i]@)
}

/// Does one of the words stand in the text?
pub fn contains_any(hay: &str, words: &Vec<&str>) -> (r: bool)
    ensures
        r == holds_any(hay@, word_views(words@)),
{
    let mut i: usize = 0;
    while i < words.len()
        invariant
            i <= words.len(),
            forall|j: int| 0 <= j < i ==> !text::holds(hay@, #[trigger] word_views(words@)[j]),
        decreases words.len() - i,
    {
        if text::contains(hay, words[i]) {
            proof {
                assert(text::holds(hay@, word_views(words@)[i as int]));
            }
            return true;
        }
        i += 1;
    }
    false
}

// ---------------------------------------------------------------------------
// The primary artist.
// ---------------------------------------------------------------------------

/// What stands between the lead artist and the collaborators.
pub open spec fn separators() -> Seq<Seq<char>> {
    seq![
        " feat."@,
        " feat "@,
        " featuring"@,
        " ft."@,
        " ft "@,
        " with "@,
        " & "@,
        ", "@,
        " x "@,
        " / "@,
    ]
}

/// The earliest position of one of the first `n` words.
pub open spec fn earliest(s: Seq<char>, words: Seq<Seq<char>>, n: nat) -> Option<int>
    decreases n,
{
    if n == 0 {
        None
    } else {
        let before = earliest(s, words, (n - 1) as nat);
        match (before, text::position(s, words[n - 1])) {
            (Some(a), Some(b)) => Some(if b < a { b } else { a }),
            (None, found) => found,
            (_, None) => before,
        }
    }
}

/// A text with its ASCII letters in lower case.
pub open spec fn folded(s: Seq<char>) -> Seq<char> {
    Seq::new(s.len(), |i: int| text::ascii_lower(s[i]))
}

/// The lead artist: what stands before the first separator, in any case, trimmed; or the
/// name as it is where there is none.
pub open spec fn lead(artist: Seq<char>) -> Seq<char> {
    match earliest(folded(artist), separators(), separators().len()) {
        None => artist,
        Some(p) => text::trimmed(artist.take(p)),
    }
}

fn fold(s: &[char]) -> (r: Vec<char>)
    ensures
        r@ == folded(s@),
{
    let mut out: Vec<char> = Vec::new();
    let mut i: usize = 0;
    while i < s.len()
        invariant
            i <= s@.len(),
            out@ == folded(s@).take(i as int),
        decreases s@.len() - i,
    {
        out.push(text::to_ascii_lower(s[i]));
        proof {
            assert(out@ =~= folded(s@).take(i + 1));
        }
        i += 1;
    }
    proof {
        assert(folded(s@).take(i as int) =~= folded(s@));
    }
    out
}

fn find_earliest(s: &[char], words: &Vec<&str>) -> (r: Option<usize>)
    ensures
        match r {
            Some(p) => earliest(s@, word_views(words@), words@.len()) == Some(p as int) && p
                <= s@.len(),
            None => earliest(s@, word_views(words@), words@.len()) is None,
        },
{
    let mut best: Option<usize> = None;
    let mut i: usize = 0;
    while i < words.len()
        invariant
            i <= words.len(),
            match best {
                Some(p) => earliest(s@, word_views(words@), i as nat) == Some(p as int) && p
                    <= s@.len(),
                None => earliest(s@, word_views(words@), i as nat) is None,
            },
        decreases words.len() - i,
    {
        let w = text::chars_of(words[i]);
        match text::find(s, w.as_slice()) {
            None => {},
            Some(b) => match best {
                Some(a) => {
                    if b < a {
                        best = Some(b);
                    }
                },
                None => {
                    best = Some(b);
                },
            },
        }
        i += 1;
    }
    best
}

/// The primary performer: players join collaborators with "&", ",", "feat.",
/// "x" and so on, and catalogues file a recording under just the lead artist.
/// The whole name when there is no separator.
pub fn primary_artist(artist: &str) -> (r: String)
    ensures
        r@ == lead(artist@),
{
    let seps: Vec<&str> = vec![
        " feat.",
        " feat ",
        " featuring",
        " ft.",
        " ft ",
        " with ",
        " & ",
        ", ",
        " x ",
        " / ",
    ];
    proof {
        assert(word_views(seps@) =~= separators());
    }
    let name = text::chars_of(artist);
    let low = fold(name.as_slice());
    match find_earliest(low.as_slice(), &seps) {
        None => artist.to_string(),
        Some(p) => {
            proof {
                assert(artist@.take(p as int) =~= name@.subrange(0, p as int));
            }
            text::string_of(text::trim(slice_subrange(name.as_slice(), 0, p)))
        },
    }
}

proof fn earliest_is_least(s: Seq<char>, words: Seq<Seq<char>>, n: nat)
    requires
        n <= words.len(),
    ensures
        match earliest(s, words, n) {
            Some(p) => forall|k: int, j: int|
                #![trigger words[k], text::occurs_at(s, words[k], j)]
                0 <= k < n && text::occurs_at(s, words[k], j) ==> p <= j,
            None => forall|k: int, j: int|
                #![trigger words[k], text::occurs_at(s, words[k], j)]
                0 <= k < n ==> !text::occurs_at(s, words[k], j),
        },
    decreases n,
{
    if n > 0 {
        earliest_is_least(s, words, (n - 1) as nat);
        text::position_from_is_least(s, words[n - 1], 0);
    }
}

proof fn separators_are_words(k: int)
    requires
        0 <= k < separators().len(),
    ensures
        separators()[k].len() > 0,
{
    reveal_strlit(" feat.");
    reveal_strlit(" feat ");
    reveal_strlit(" featuring");
    reveal_strlit(" ft.");
    reveal_strlit(" ft ");
    reveal_strlit(" with ");
    reveal_strlit(" & ");
    reveal_strlit(", ");
    reveal_strlit(" x ");
    reveal_strlit(" / ");
}

/// The lead artist's name holds no separator in any case, and is its own lead artist.
pub proof fn lead_is_its_own_lead(artist: Seq<char>)
    ensures
        !holds_any(folded(lead(artist)), separators()),
        lead(lead(artist)) == lead(artist),
{
    let name = lead(artist);
    let f = folded(artist);
    let seps = separators();
    earliest_is_least(f, seps, seps.len());
    earliest_is_least(folded(name), seps, seps.len());
    assert forall|k: int, j: int| 0 <= k < seps.len() implies !#[trigger] text::occurs_at(
        folded(name),
        seps[k],
        j,
    ) by {
        separators_are_words(k);
        if text::occurs_at(folded(name), seps[k], j) {
            match earliest(f, seps, seps.len()) {
                None => {},
                Some(p) => {
                    let cut = artist.take(p);
                    earliest_in_range(f, seps, seps.len());
                    let i = text::trimming_keeps_a_range(cut);
                    assert(name == cut.subrange(i, i + name.len()));
                    assert(f.subrange(i + j, i + j + seps[k].len()) =~= folded(name).subrange(
                        j,
                        j + seps[k].len(),
                    ));
                    assert(text::occurs_at(f, seps[k], i + j));
                },
            }
        }
    }
    assert forall|k: int| 0 <= k < seps.len() implies !text::holds(
        folded(name),
        #[trigger] seps[k],
    ) by {
        if text::holds(folded(name), seps[k]) {
            let j = choose|j: int| text::occurs_at(folded(name), seps[k], j);
            assert(text::occurs_at(folded(name), seps[k], j));
        }
    }
    if earliest(folded(name), seps, seps.len()) is Some {
        let k = earliest_in_range(folded(name), seps, seps.len());
        let j = earliest(folded(name), seps, seps.len())->0;
        assert(text::occurs_at(folded(name), seps[k], j));
    }
}

/// The earliest position is one where a word stands.
proof fn earliest_in_range(s: Seq<char>, words: Seq<Seq<char>>, n: nat) -> (k: int)
    requires
        n <= words.len(),
    ensures
        earliest(s, words, n) matches Some(p) ==> 0 <= p <= s.len() && 0 <= k < n
            && text::occurs_at(s, words[k], p),
    decreases n,
{
    if n == 0 {
        0
    } else {
        text::position_from_is_least(s, words[n - 1], 0);
        let before = earliest_in_range(s, words, (n - 1) as nat);
        if earliest(s, words, n) == earliest(s, words, (n - 1) as nat) {
            before
        } else {
            n - 1
        }
    }
}

// ---------------------------------------------------------------------------
// Titles and albums.
// ---------------------------------------------------------------------------

/// The words that mark a bracketed group as a credit or an edition note.
pub open spec fn credit_words() -> Seq<Seq<char>> {
    seq![
        "feat"@,
        "ft"@,
        "featuring"@,
        "with"@,
        "prod"@,
        "deluxe"@,
        "remaster"@,
        "version"@,
        "edition"@,
        "bonus"@,
        "remix"@,
        "mix"@,
    ]
}

/// The words that mark a dash suffix as an edition note.
pub open spec fn edition_words() -> Seq<Seq<char>> {
    seq![
        "remaster"@,
        "single"@,
        "deluxe"@,
        "version"@,
        "mono"@,
        "stereo"@,
        "edit"@,
        "mix"@,
        "bonus"@,
        "live"@,
        "edition"@,
        "anniversary"@,
    ]
}

/// Does a lowercased bracket group look like a credit or an edition note?
pub fn is_credit(lowered: &str) -> (r: bool)
    ensures
        r == holds_any(lowered@, credit_words()),
{
    let words: Vec<&str> = vec![
        "feat",
        "ft",
        "featuring",
        "with",
        "prod",
        "deluxe",
        "remaster",
        "version",
        "edition",
        "bonus",
        "remix",
        "mix",
    ];
    proof {
        assert(word_views(words@) =~= credit_words());
    }
    contains_any(lowered, &words)
}

/// Does a lowercased dash suffix look like an edition note?
pub fn is_edition(lowered: &str) -> (r: bool)
    ensures
        r == holds_any(lowered@, edition_words()),
{
    let words: Vec<&str> = vec![
        "remaster",
        "single",
        "deluxe",
        "version",
        "mono",
        "stereo",
        "edit",
        "mix",
        "bonus",
        "live",
        "edition",
        "anniversary",
    ];
    proof {
        assert(word_views(words@) =~= edition_words());
    }
    contains_any(lowered, &words)
}

/// The bracket that closes an opening one.
pub open spec fn closer(c: char) -> Option<char> {
    if c == '(' {
        Some(')')
    } else if c == '[' {
        Some(']')
    } else {
        None
    }
}

/// The end of the credit group that starts the text, past its closing bracket.
pub open spec fn credit_end(s: Seq<char>) -> Option<int> {
    if s.len() == 0 {
        None
    } else {
        match closer(s[0]) {
            None => None,
            Some(close) => match text::char_from(s, close, 1) {
                Some(j) => if holds_any(text::lowercase(s.subrange(1, j)), credit_words()) {
                    Some(j + 1)
                } else {
                    None
                },
                None => None,
            },
        }
    }
}

/// The text without its credit groups: reading from the left, a bracketed group
/// that looks like a credit or an edition note is dropped whole, and every other
/// character is kept.
pub open spec fn without_credits(s: Seq<char>) -> Seq<char>
    decreases s.len(),
{
    proof {
        credit_end_bound(s);
    }
    if s.len() == 0 {
        seq![]
    } else {
        match credit_end(s) {
            Some(e) => without_credits(s.skip(e)),
            None => seq![s[0]] + without_credits(s.skip(1)),
        }
    }
}

/// A credit group ends inside the text.
pub proof fn credit_end_bound(s: Seq<char>)
    ensures
        credit_end(s) matches Some(e) ==> 1 < e <= s.len(),
{
    if s.len() > 0 && closer(s[0]) is Some {
        text::char_from_is_least(s, closer(s[0])->0, 1);
    }
}

/// Removes any "(…)" or "[…]" group whose contents look like a credit or an
/// edition note, keeping real parenthetical title words intact.
pub fn strip_noise_parens(s: &str) -> (r: String)
    ensures
        r@ == without_credits(s@),
{
    let v = text::chars_of(s);
    let n: usize = v.len();
    let mut out = String::new();
    let mut i: usize = 0;
    proof {
        assert(s@.skip(0) =~= s@);
        assert(out@ + without_credits(s@) =~= without_credits(s@));
    }
    while i < n
        invariant
            i <= n == v@.len(),
            v@ == s@,
            without_credits(s@) == out@ + without_credits(s@.skip(i as int)),
        decreases n - i,
    {
        let c: char = v[i];
        let ghost rest = s@.skip(i as int);
        proof {
            credit_end_bound(rest);
            assert(rest[0] == c);
        }
        let mut end: Option<usize> = None;
        if c == '(' || c == '[' {
            let close: char = if c == '(' {
                ')'
            } else {
                ']'
            };
            proof {
                text::char_from_shift(s@, close, i as int, 1);
            }
            match text::find_char(v.as_slice(), close, i + 1) {
                None => {},
                Some(j) => {
                    let inner = text::string_of(slice_subrange(v.as_slice(), i + 1, j));
                    proof {
                        assert(rest.subrange(1, j - i) =~= s@.subrange(i + 1, j as int));
                    }
                    let low = text::lower(inner.as_str());
                    if is_credit(low.as_str()) {
                        end = Some(j + 1);
                    }
                },
            }
        }
        match end {
            Some(e) => {
                proof {
                    assert(rest.skip(e - i) =~= s@.skip(e as int));
                }
                i = e;
            },
            None => {
                let ghost before = out@;
                out.push(c);
                proof {
                    assert(rest.skip(1) =~= s@.skip(i + 1));
                    assert(before + (seq![c] + without_credits(rest.skip(1))) =~= out@
                        + without_credits(rest.skip(1)));
                }
                i += 1;
            },
        }
    }
    proof {
        assert(s@.skip(i as int) =~= Seq::<char>::empty());
        assert(out@ + without_credits(s@.skip(i as int)) =~= out@);
    }
    out
}

/// The text without a last " - …" suffix that looks like an edition note.
pub open spec fn without_edition(s: Seq<char>) -> Seq<char> {
    match text::last_position(s, " - "@) {
        Some(i) => if holds_any(text::lowercase(s.skip(i + 3)), edition_words()) {
            s.take(i)
        } else {
            s
        },
        None => s,
    }
}

/// Drops a " - …" suffix (Remastered 2011, Single, Deluxe, Mono, Live, …) while
/// leaving meaningful dashes in a title alone.
pub fn strip_dash_suffix(s: &str) -> (r: String)
    ensures
        r@ == without_edition(s@),
{
    let v = text::chars_of(s);
    let n: usize = v.len();
    let dash = text::chars_of(" - ");
    proof {
        reveal_strlit(" - ");
    }
    match text::rfind(v.as_slice(), dash.as_slice()) {
        None => s.to_string(),
        Some(i) => {
            let tail = text::string_of(slice_subrange(v.as_slice(), i + 3, n));
            proof {
                assert(s@.skip(i + 3) =~= s@.subrange(i + 3, s@.len() as int));
                assert(s@.take(i as int) =~= s@.subrange(0, i as int));
            }
            let low = text::lower(tail.as_str());
            if is_edition(low.as_str()) {
                text::string_of(slice_subrange(v.as_slice(), 0, i))
            } else {
                s.to_string()
            }
        },
    }
}

/// A title without the notes that players append.
pub open spec fn cleaned(s: Seq<char>) -> Seq<char> {
    text::trimmed(without_edition(without_credits(s)))
}

/// Strips the notes that players append to titles: "(feat. …)", "(with …)",
/// "(prod. …)" groups, edition groups and " - Remaster" style suffixes.
pub fn clean_title(track: &str) -> (r: String)
    ensures
        r@ == cleaned(track@),
{
    text::trim_str(strip_dash_suffix(strip_noise_parens(track).as_str()).as_str())
}

/// Albums carry the same edition notes ("BULLY - DELUXE", "Utopia (Deluxe)").
pub fn clean_album(album: &str) -> (r: String)
    ensures
        r@ == cleaned(album@),
{
    text::trim_str(strip_dash_suffix(strip_noise_parens(album).as_str()).as_str())
}

/// A title without brackets loses no group.
pub proof fn plain_text_keeps_every_character(s: Seq<char>)
    requires
        forall|i: int| 0 <= i < s.len() ==> s[i] != '(' && s[i] != '[',
    ensures
        without_credits(s) == s,
    decreases s.len(),
{
    if s.len() > 0 {
        assert(credit_end(s) is None);
        plain_text_keeps_every_character(s.skip(1));
        assert(seq![s[0]] + s.skip(1) =~= s);
    }
}

/// A title with neither a bracket nor a spaced dash is only trimmed.
pub proof fn plain_title_is_only_trimmed(s: Seq<char>)
    requires
        forall|i: int| 0 <= i < s.len() ==> s[i] != '(' && s[i] != '[',
        !text::holds(s, " - "@),
    ensures
        cleaned(s) == text::trimmed(s),
{
    plain_text_keeps_every_character(s);
    text::last_position_stands(s, " - "@);
}

/// Cleaning never makes a title longer.
pub proof fn cleaning_never_grows(s: Seq<char>)
    ensures
        cleaned(s).len() <= s.len(),
{
    credits_never_grow(s);
    let t = without_credits(s);
    text::last_position_stands(t, " - "@);
    text::trimmed_ends_visible(without_edition(t));
}

proof fn credits_never_grow(s: Seq<char>)
    ensures
        without_credits(s).len() <= s.len(),
    decreases s.len(),
{
    if s.len() > 0 {
        credit_end_bound(s);
        match credit_end(s) {
            Some(e) => credits_never_grow(s.skip(e)),
            None => credits_never_grow(s.skip(1)),
        }
    }
}

/// Where a name holds no separator, the lead artist is the name itself.
pub proof fn name_without_separator_is_kept(artist: Seq<char>)
    requires
        !holds_any(folded(artist), separators()),
    ensures
        lead(artist) == artist,
{
    no_separator_no_position(folded(artist), separators().len());
}

proof fn no_separator_no_position(s: Seq<char>, n: nat)
    requires
        !holds_any(s, separators()),
        n <= separators().len(),
    ensures
        earliest(s, separators(), n) is None,
    decreases n,
{
    if n > 0 {
        no_separator_no_position(s, (n - 1) as nat);
        text::holds_iff_position(s, separators()[n - 1]);
    }
}

// ---------------------------------------------------------------------------
// What is cut off.
// ---------------------------------------------------------------------------

/// A word that joins collaborators to the lead artist.
pub open spec fn joins(w: Seq<char>) -> bool {
    ||| w == " feat."@ || w == " feat "@ || w == " featuring"@ || w == " ft."@ || w == " ft "@
    ||| w == " with "@ || w == " & "@ || w == ", "@ || w == " x "@ || w == " / "@
}

proof fn joining_words_are_the_separators(w: Seq<char>)
    ensures
        joins(w) <==> separators().contains(w),
{
    assert(separators().len() == 10);
    assert(separators()[0] == " feat."@ && separators()[1] == " feat "@);
    assert(separators()[2] == " featuring"@ && separators()[3] == " ft."@);
    assert(separators()[4] == " ft "@ && separators()[5] == " with "@);
    assert(separators()[6] == " & "@ && separators()[7] == ", "@);
    assert(separators()[8] == " x "@ && separators()[9] == " / "@);
}

/// The lead artist is what stands before the first word that joins collaborators, in capitals or
/// not, without white space around it.
pub proof fn lead_stands_before_the_first_joint(
    artist: Seq<char>,
    low: Seq<char>,
    w: Seq<char>,
    p: int,
)
    requires
        low == artist.map_values(|c: char| text::ascii_lower(c)),
        joins(w),
        text::occurs_at(low, w, p),
        forall|v: Seq<char>, i: int|
            joins(v) && i < p ==> !(#[trigger] text::occurs_at(low, v, i)),
    ensures
        lead(artist) == text::trimmed(artist.take(p)),
{
    assert(low =~= folded(artist));
    joining_words_are_the_separators(w);
    let k = choose|k: int| 0 <= k < separators().len() && separators()[k] == w;
    earliest_is_least(low, separators(), separators().len());
    let n = earliest_in_range(low, separators(), separators().len());
    text::position_from_is_least(low, w, 0);
    match earliest(low, separators(), separators().len()) {
        None => {
            earliest_misses_none(low, separators(), separators().len(), k);
        },
        Some(q) => {
            joining_words_are_the_separators(separators()[n]);
            assert(separators().contains(separators()[n]));
            assert(text::occurs_at(low, separators()[n], q));
            earliest_misses_none(low, separators(), separators().len(), k);
        },
    }
}

proof fn earliest_misses_none(s: Seq<char>, words: Seq<Seq<char>>, n: nat, k: int)
    requires
        n <= words.len(),
        0 <= k < n,
        text::position(s, words[k]) is Some,
    ensures
        earliest(s, words, n) matches Some(p) && p <= text::position(s, words[k])->0,
    decreases n,
{
    if k < n - 1 {
        earliest_misses_none(s, words, (n - 1) as nat, k);
    }
}

/// A name that holds no word that joins collaborators is kept as it is.
pub proof fn name_without_a_joint_is_kept(artist: Seq<char>, low: Seq<char>)
    requires
        low == artist.map_values(|c: char| text::ascii_lower(c)),
        forall|w: Seq<char>| joins(w) ==> !(#[trigger] text::holds(low, w)),
    ensures
        lead(artist) == artist,
{
    assert(low =~= folded(artist));
    assert forall|i: int| 0 <= i < separators().len() implies !text::holds(
        low,
        #[trigger] separators()[i],
    ) by {
        assert(separators().contains(separators()[i]));
        joining_words_are_the_separators(separators()[i]);
    }
    name_without_separator_is_kept(artist);
}

/// A lowercased note that gives credit or names an edition.
pub open spec fn credits(low: Seq<char>) -> bool {
    ||| text::holds(low, "feat"@) || text::holds(low, "ft"@) || text::holds(low, "featuring"@)
    ||| text::holds(low, "with"@) || text::holds(low, "prod"@) || text::holds(low, "deluxe"@)
    ||| text::holds(low, "remaster"@) || text::holds(low, "version"@)
    ||| text::holds(low, "edition"@) || text::holds(low, "bonus"@)
    ||| text::holds(low, "remix"@) || text::holds(low, "mix"@)
}

proof fn credits_go_by_the_words(low: Seq<char>)
    ensures
        credits(low) == holds_any(low, credit_words()),
{
    let w = credit_words();
    assert(w.len() == 12);
    assert(w[0] == "feat"@ && w[1] == "ft"@ && w[2] == "featuring"@ && w[3] == "with"@);
    assert(w[4] == "prod"@ && w[5] == "deluxe"@ && w[6] == "remaster"@ && w[7] == "version"@);
    assert(w[8] == "edition"@ && w[9] == "bonus"@ && w[10] == "remix"@ && w[11] == "mix"@);
    if holds_any(low, w) {
        let i = choose|i: int| 0 <= i < w.len() && text::holds(low, #[trigger] w[i]);
        assert(i == 0 || i == 1 || i == 2 || i == 3 || i == 4 || i == 5 || i == 6 || i == 7 || i
            == 8 || i == 9 || i == 10 || i == 11);
    }
}

/// A group in brackets behind a title goes where it gives credit or names an edition, and what
/// follows it is cleaned on; any other group stays, bracket by bracket.
pub proof fn only_noisy_groups_are_dropped(
    head: Seq<char>,
    open: char,
    note: Seq<char>,
    close: char,
    rest: Seq<char>,
)
    requires
        (open == '(' && close == ')') || (open == '[' && close == ']'),
        forall|i: int| 0 <= i < head.len() ==> head[i] != '(' && head[i] != '[',
        forall|i: int| 0 <= i < note.len() ==> note[i] != close,
    ensures
        ({
            let group = seq![open] + note + seq![close] + rest;
            &&& credits(text::lowercase(note)) ==> without_credits(head + group) == head
                + without_credits(rest)
            &&& !credits(text::lowercase(note)) ==> without_credits(head + group) == head.push(open)
                + without_credits(note + seq![close] + rest)
        }),
    decreases head.len(),
{
    let group = seq![open] + note + seq![close] + rest;
    let s = head + group;
    if head.len() == 0 {
        assert(s =~= group);
        assert(s[0] == open);
        assert(s.skip(1) =~= note + seq![close] + rest);
        close_is_found(note, close, rest, s, 1);
        assert(s.subrange(1, note.len() as int + 1) =~= note);
        assert(s.skip(note.len() as int + 2) =~= rest);
        credits_go_by_the_words(text::lowercase(note));
        assert(head + without_credits(rest) =~= without_credits(rest));
        assert(head.push(open) + without_credits(note + seq![close] + rest) =~= seq![open]
            + without_credits(note + seq![close] + rest));
    } else {
        let tail = head.skip(1);
        assert forall|i: int| 0 <= i < tail.len() implies tail[i] != '(' && tail[i] != '[' by {
            assert(tail[i] == head[i + 1]);
        }
        only_noisy_groups_are_dropped(tail, open, note, close, rest);
        assert(s[0] == head[0]);
        assert(s.skip(1) =~= tail + group);
        assert(credit_end(s) is None);
        assert(without_credits(s) == seq![s[0]] + without_credits(tail + group));
        if credits(text::lowercase(note)) {
            assert(seq![s[0]] + (tail + without_credits(rest)) =~= head + without_credits(rest));
        } else {
            assert(seq![s[0]] + (tail.push(open) + without_credits(note + seq![close] + rest))
                =~= head.push(open) + without_credits(note + seq![close] + rest));
        }
    }
}

proof fn close_is_found(note: Seq<char>, close: char, rest: Seq<char>, s: Seq<char>, from: int)
    requires
        s.len() == note.len() + 2 + rest.len(),
        s.skip(1) == note + seq![close] + rest,
        forall|i: int| 0 <= i < note.len() ==> note[i] != close,
        1 <= from <= note.len() + 1,
    ensures
        text::char_from(s, close, from) == Some(note.len() as int + 1),
    decreases note.len() + 1 - from,
{
    assert(s[from] == s.skip(1)[from - 1]);
    if from <= note.len() {
        assert(s[from] == note[from - 1]);
        close_is_found(note, close, rest, s, from + 1);
    }
}

/// A lowercased suffix that names an edition.
pub open spec fn names_edition(low: Seq<char>) -> bool {
    ||| text::holds(low, "remaster"@) || text::holds(low, "single"@) || text::holds(low, "deluxe"@)
    ||| text::holds(low, "version"@) || text::holds(low, "mono"@) || text::holds(low, "stereo"@)
    ||| text::holds(low, "edit"@) || text::holds(low, "mix"@) || text::holds(low, "bonus"@)
    ||| text::holds(low, "live"@) || text::holds(low, "edition"@)
    ||| text::holds(low, "anniversary"@)
}

proof fn editions_go_by_the_words(low: Seq<char>)
    ensures
        names_edition(low) == holds_any(low, edition_words()),
{
    let w = edition_words();
    assert(w.len() == 12);
    assert(w[0] == "remaster"@ && w[1] == "single"@ && w[2] == "deluxe"@ && w[3] == "version"@);
    assert(w[4] == "mono"@ && w[5] == "stereo"@ && w[6] == "edit"@ && w[7] == "mix"@);
    assert(w[8] == "bonus"@ && w[9] == "live"@ && w[10] == "edition"@ && w[11] == "anniversary"@);
    if holds_any(low, w) {
        let i = choose|i: int| 0 <= i < w.len() && text::holds(low, #[trigger] w[i]);
        assert(i == 0 || i == 1 || i == 2 || i == 3 || i == 4 || i == 5 || i == 6 || i == 7 || i
            == 8 || i == 9 || i == 10 || i == 11);
    }
}

/// What stands behind the last spaced dash goes where it names an edition, dash and all; any
/// other title stays as it is.
pub proof fn only_edition_suffixes_are_dropped(title: Seq<char>, suffix: Seq<char>)
    requires
        forall|i: int|
            i > title.len() ==> !(#[trigger] text::occurs_at(
                title + " - "@ + suffix,
                " - "@,
                i,
            )),
    ensures
        without_edition(title + " - "@ + suffix) == (if names_edition(text::lowercase(suffix)) {
            title
        } else {
            title + " - "@ + suffix
        }),
{
    reveal_strlit(" - ");
    let s = title + " - "@ + suffix;
    assert(s.subrange(title.len() as int, title.len() as int + 3) =~= " - "@);
    assert(text::occurs_at(s, " - "@, title.len() as int));
    last_is_found(s, title.len() as int, s.len() - 3);
    assert(s.skip(title.len() as int + 3) =~= suffix);
    assert(s.take(title.len() as int) =~= title);
    editions_go_by_the_words(text::lowercase(suffix));
}

proof fn last_is_found(s: Seq<char>, p: int, from: int)
    requires
        0 <= p <= from,
        text::occurs_at(s, " - "@, p),
        forall|i: int| i > p ==> !(#[trigger] text::occurs_at(s, " - "@, i)),
    ensures
        text::position_back(s, " - "@, from) == Some(p),
    decreases from - p,
{
    if from > p {
        assert(!text::occurs_at(s, " - "@, from));
        last_is_found(s, p, from - 1);
    }
}

/// A title is cleaned of its groups first, of its suffix then, and of white space at last.
pub proof fn cleaning_goes_in_order(s: Seq<char>)
    ensures
        cleaned(s) == text::trimmed(without_edition(without_credits(s))),
        cleaned(s).len() > 0 ==> !text::space(cleaned(s)[0]) && !text::space(cleaned(s).last()),
{
    text::trimmed_ends_visible(without_edition(without_credits(s)));
}

} // verus!
