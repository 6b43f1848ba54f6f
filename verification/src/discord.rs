//! The Discord card: who is in voice, and what was last written.

use vstd::prelude::*;
use crate::digits;
use crate::message_cards;
use crate::panel;
use crate::panel::{Area, Bit, Body, Card, Hue, Inside, Piece, Sweep};
use crate::state;
use crate::state::{Discord, TextChannel, VoiceChannel};
use crate::text;
use crate::width;

verus! {

/// How many voice channels are shown.
pub const MAX_VOICE: usize = 3;

/// How many text channels are shown.
pub const MAX_TEXT: usize = 3;

/// How long a join is pointed out.
pub const JOIN_GLOW: u64 = 20_000_000_000;

// ---------------------------------------------------------------------------
// The order of names.
// ---------------------------------------------------------------------------

/// Where a name belongs in a list: behind those that do not come after it.
pub open spec fn place(list: Seq<Seq<char>>, name: Seq<char>, i: int) -> int
    decreases list.len() - i,
{
    if i < 0 || i >= list.len() {
        list.len() as int
    } else if text::before(name, list[i]) {
        i
    } else {
        place(list, name, i + 1)
    }
}

/// A list of names in order.
pub open spec fn in_order(list: Seq<Seq<char>>) -> Seq<Seq<char>>
    decreases list.len(),
{
    if list.len() == 0 {
        seq![]
    } else {
        let front = in_order(list.drop_last());
        front.insert(place(front, list.last(), 0), list.last())
    }
}

proof fn place_stands(list: Seq<Seq<char>>, name: Seq<char>, i: int)
    requires
        0 <= i <= list.len(),
    ensures
        i <= place(list, name, i) <= list.len(),
        forall|j: int| i <= j < place(list, name, i) ==> !text::before(name, #[trigger] list[j]),
        place(list, name, i) < list.len() ==> text::before(name, list[place(list, name, i)]),
    decreases list.len() - i,
{
    if i < list.len() && !text::before(name, list[i]) {
        place_stands(list, name, i + 1);
    }
}

/// Sorts names.
pub fn sort_names(list: &Vec<String>) -> (r: Vec<String>)
    ensures
        text::texts(r@) == in_order(text::texts(list@)),
{
    let ghost want = text::texts(list@);
    let mut out: Vec<String> = Vec::new();
    let mut k: usize = 0;
    proof {
        assert(text::texts(out@) =~= in_order(want.take(0)));
    }
    while k < list.len()
        invariant
            k <= list@.len(),
            want == text::texts(list@),
            text::texts(out@) == in_order(want.take(k as int)),
        decreases list@.len() - k,
    {
        let ghost front = text::texts(out@);
        let ghost name = want[k as int];
        let n: usize = out.len();
        let mut i: usize = 0;
        proof {
            place_stands(front, name, 0);
        }
        while i < n && !text::is_before(list[k].as_str(), out[i].as_str())
            invariant
                i <= n == out@.len(),
                k < list@.len(),
                name == list@[k as int]@,
                front == text::texts(out@),
                place(front, name, 0) == place(front, name, i as int),
            ensures
                i <= n,
                i == place(front, name, 0),
            decreases n - i,
        {
            i += 1;
        }
        out.insert(i, list[k].clone());
        proof {
            assert(text::texts(out@) =~= front.insert(i as int, name));
            assert(want.take(k + 1).drop_last() =~= want.take(k as int));
        }
        k += 1;
    }
    proof {
        assert(want.take(k as int) =~= want);
    }
    out
}

/// Sorting keeps every name and puts them in order: none comes after a later one.
pub proof fn sorting_orders(list: Seq<Seq<char>>)
    ensures
        in_order(list).to_multiset() == list.to_multiset(),
        in_order(list).len() == list.len(),
        forall|i: int, j: int|
            0 <= i < j < list.len() ==> !text::before(
                #[trigger] in_order(list)[j],
                #[trigger] in_order(list)[i],
            ),
    decreases list.len(),
{
    broadcast use vstd::seq_lib::group_to_multiset_ensures;

    if list.len() > 0 {
        let short = list.drop_last();
        let front = in_order(short);
        let name = list.last();
        sorting_orders(short);
        place_stands(front, name, 0);
        let p = place(front, name, 0);
        let r = front.insert(p, name);
        assert(list =~= short.push(name));
        assert(r.to_multiset() == front.to_multiset().insert(name));
        assert(list.to_multiset() == short.to_multiset().insert(name));
        assert forall|i: int, j: int| 0 <= i < j < list.len() implies !text::before(
            #[trigger] r[j],
            #[trigger] r[i],
        ) by {
            if j == p {
                assert(r[i] == front[i]);
            } else if i == p {
                assert(r[j] == front[j - 1]);
                text::before_is_one_way(name, front[p]);
                if j - 1 > p {
                    text::not_before_chains(name, front[p], front[j - 1]);
                }
            } else {
                let fi = if i < p {
                    i
                } else {
                    i - 1
                };
                let fj = if j < p {
                    j
                } else {
                    j - 1
                };
                assert(r[i] == front[fi] && r[j] == front[fj]);
            }
        }
    } else {
        assert(in_order(list) =~= list);
    }
}

// ---------------------------------------------------------------------------
// Voice channels.
// ---------------------------------------------------------------------------

/// A voice channel as a mathematical value.
#[verifier::ext_equal]
pub struct Voice {
    pub name: Seq<char>,
    pub members: Seq<Seq<char>>,
}

/// Voice channels as mathematical values.
pub open spec fn voices(v: Seq<VoiceChannel>) -> Seq<Voice> {
    Seq::new(v.len(), |i: int| Voice { name: v[i].name@, members: text::texts(v[i].members@) })
}

/// Two names are the same but for the case of ASCII letters.
pub open spec fn same_but_case(a: Seq<char>, b: Seq<char>) -> bool {
    a.len() == b.len() && forall|i: int|
        0 <= i < a.len() ==> text::ascii_lower(#[trigger] a[i]) == text::ascii_lower(b[i])
}

fn lower_char(c: char) -> (r: char)
    ensures
        r == text::ascii_lower(c),
{
    if 'A' <= c && c <= 'Z' {
        (c as u8 + 32) as char
    } else {
        c
    }
}

/// Are two names the same but for the case of ASCII letters?
pub fn alike(a: &str, b: &str) -> (r: bool)
    ensures
        r == same_but_case(a@, b@),
{
    let x = text::chars_of(a);
    let y = text::chars_of(b);
    if x.len() != y.len() {
        return false;
    }
    let mut i: usize = 0;
    while i < x.len()
        invariant
            x@ == a@,
            y@ == b@,
            i <= x@.len() == y@.len(),
            forall|j: int|
                0 <= j < i ==> text::ascii_lower(#[trigger] x@[j]) == text::ascii_lower(y@[j]),
        decreases x@.len() - i,
    {
        if lower_char(x[i]) != lower_char(y[i]) {
            proof {
                assert(text::ascii_lower(a@[i as int]) != text::ascii_lower(b@[i as int]));
            }
            return false;
        }
        i += 1;
    }
    true
}

/// The first voice channel of a name from `i` on, or the length.
pub open spec fn channel_from(v: Seq<Voice>, name: Seq<char>, i: int) -> int
    decreases v.len() - i,
{
    if i < 0 || i >= v.len() {
        v.len() as int
    } else if same_but_case(v[i].name, name) {
        i
    } else {
        channel_from(v, name, i + 1)
    }
}

/// Somebody joins a channel, which is opened where it is not there yet.
pub open spec fn with_member(v: Seq<Voice>, name: Seq<char>, member: Seq<char>) -> Seq<Voice> {
    let k = channel_from(v, name, 0);
    if k < v.len() {
        v.update(k, Voice { name: v[k].name, members: in_order(v[k].members.push(member)) })
    } else {
        v.push(Voice { name, members: seq![member] })
    }
}

/// The channel that a previewed member joins where none is named.
pub open spec fn default_channel() -> Seq<char> {
    "200 club"@
}

/// The voice channels with a previewed member: `channel:member`, or a bare member.
/// A blank preview adds none.
pub open spec fn previewed(v: Seq<Voice>, preview: Seq<char>) -> Seq<Voice> {
    let spec_text = text::trimmed(preview);
    if spec_text.len() == 0 {
        v
    } else {
        match text::char_from(spec_text, ':', 0) {
            Some(k) => with_member(
                v,
                text::trimmed(spec_text.take(k)),
                text::trimmed(spec_text.skip(k + 1)),
            ),
            None => with_member(v, default_channel(), spec_text),
        }
    }
}

fn copy_names(list: &Vec<String>) -> (r: Vec<String>)
    ensures
        text::texts(r@) == text::texts(list@),
{
    let ghost want = text::texts(list@);
    let mut out: Vec<String> = Vec::new();
    let mut i: usize = 0;
    proof {
        assert(text::texts(out@) =~= want.take(0));
    }
    while i < list.len()
        invariant
            i <= list@.len(),
            want == text::texts(list@),
            text::texts(out@) == want.take(i as int),
        decreases list@.len() - i,
    {
        let ghost so_far = text::texts(out@);
        out.push(list[i].clone());
        proof {
            assert(text::texts(out@) =~= so_far.push(want[i as int]));
            assert(want.take(i + 1) =~= want.take(i as int).push(want[i as int]));
        }
        i += 1;
    }
    proof {
        assert(want.take(i as int) =~= want);
    }
    out
}

fn copy_voice(list: &Vec<VoiceChannel>) -> (r: Vec<VoiceChannel>)
    ensures
        voices(r@) == voices(list@),
{
    let ghost want = voices(list@);
    let mut out: Vec<VoiceChannel> = Vec::new();
    let mut i: usize = 0;
    proof {
        assert(voices(out@) =~= want.take(0));
    }
    while i < list.len()
        invariant
            i <= list@.len(),
            want == voices(list@),
            voices(out@) == want.take(i as int),
        decreases list@.len() - i,
    {
        let ghost so_far = voices(out@);
        out.push(
            VoiceChannel { name: list[i].name.clone(), members: copy_names(&list[i].members) },
        );
        proof {
            assert(voices(out@) =~= so_far.push(want[i as int]));
            assert(want.take(i + 1) =~= want.take(i as int).push(want[i as int]));
        }
        i += 1;
    }
    proof {
        assert(want.take(i as int) =~= want);
    }
    out
}

fn add_member(voice: Vec<VoiceChannel>, name: String, member: String) -> (r: Vec<VoiceChannel>)
    ensures
        voices(r@) == with_member(voices(voice@), name@, member@),
{
    let ghost v = voices(voice@);
    let mut out = voice;
    let n: usize = out.len();
    let mut k: usize = 0;
    while k < n && !alike(out[k].name.as_str(), name.as_str())
        invariant
            k <= n == out@.len(),
            v == voices(out@),
            channel_from(v, name@, 0) == channel_from(v, name@, k as int),
        ensures
            k <= n,
            k == channel_from(v, name@, 0),
        decreases n - k,
    {
        k += 1;
    }
    if k < n {
        let mut members = copy_names(&out[k].members);
        let ghost listed = text::texts(members@);
        members.push(member);
        proof {
            assert(text::texts(members@) =~= listed.push(member@));
        }
        let same = out[k].name.clone();
        let sorted = sort_names(&members);
        out.set(k, VoiceChannel { name: same, members: sorted });
    } else {
        let mut members: Vec<String> = Vec::new();
        members.push(member);
        proof {
            assert(text::texts(members@) =~= seq![member@]);
        }
        out.push(VoiceChannel { name, members });
    }
    proof {
        assert(voices(out@) =~= with_member(v, name@, member@));
    }
    out
}

/// The voice channels with a previewed member, so that a join can be looked at
/// without anybody joining.
pub fn fake_voice(present: &Vec<VoiceChannel>, preview: &str) -> (r: Vec<VoiceChannel>)
    ensures
        voices(r@) == previewed(voices(present@), preview@),
{
    let voice = copy_voice(present);
    let raw = text::chars_of(preview);
    let spec_text = text::trim(raw.as_slice());
    let n: usize = spec_text.len();
    if n == 0 {
        return voice;
    }
    match text::find_char(spec_text, ':', 0) {
        Some(k) => {
            let left = vstd::slice::slice_subrange(spec_text, 0, k);
            let right = vstd::slice::slice_subrange(spec_text, k + 1, n);
            proof {
                assert(left@ =~= spec_text@.take(k as int));
                assert(right@ =~= spec_text@.skip(k + 1));
            }
            let name = text::string_of(text::trim(left));
            let member = text::string_of(text::trim(right));
            add_member(voice, name, member)
        },
        None => add_member(voice, "200 club".to_string(), text::string_of(spec_text)),
    }
}

/// How many rows the card needs, its border with them.
pub open spec fn rows_needed(d: Discord, preview: Seq<char>) -> int {
    if !d.fresh || !d.available {
        4
    } else {
        let v = message_cards::lesser(
            previewed(voices(d.voice@), preview).len() as int,
            MAX_VOICE as int,
        );
        let t = message_cards::lesser(d.text@.len() as int, MAX_TEXT as int);
        2 + if v + t > 1 {
            v + t
        } else {
            1
        }
    }
}

/// How many rows the card needs: one for each occupied voice channel, one for each
/// recent text channel, and the border.
pub fn discord_height(d: &Discord, preview: &str) -> (r: u16)
    ensures
        r == rows_needed(*d, preview@),
{
    if !d.fresh || !d.available {
        return 4;
    }
    let voice = fake_voice(&d.voice, preview);
    proof {
        assert(voice@.len() == voices(voice@).len());
    }
    let v: u16 = if voice.len() < MAX_VOICE {
        voice.len() as u16
    } else {
        3
    };
    let t: u16 = if d.text.len() < MAX_TEXT {
        d.text.len() as u16
    } else {
        3
    };
    if v + t > 1 {
        2 + v + t
    } else {
        3
    }
}

// ---------------------------------------------------------------------------
// The card.
// ---------------------------------------------------------------------------

/// How many people are in voice.
pub open spec fn people(v: Seq<Voice>) -> nat
    decreases v.len(),
{
    if v.len() == 0 {
        0
    } else {
        people(v.drop_last()) + v.last().members.len()
    }
}

proof fn people_grow(v: Seq<Voice>, n: int)
    requires
        0 <= n <= v.len(),
    ensures
        people(v.take(n)) <= people(v),
    decreases v.len() - n,
{
    if n < v.len() {
        people_grow(v, n + 1);
        assert(v.take(n + 1).drop_last() =~= v.take(n));
    } else {
        assert(v.take(n) =~= v);
    }
}

fn count_people(v: &Vec<VoiceChannel>) -> (r: u64)
    requires
        people(voices(v@)) <= u64::MAX,
    ensures
        r == people(voices(v@)),
{
    let ghost all = voices(v@);
    let mut n: u64 = 0;
    let mut i: usize = 0;
    proof {
        assert(all.take(0) =~= Seq::<Voice>::empty());
    }
    while i < v.len()
        invariant
            i <= v@.len(),
            all == voices(v@),
            people(all) <= u64::MAX,
            n == people(all.take(i as int)),
        decreases v@.len() - i,
    {
        proof {
            people_grow(all, i + 1);
            assert(all.take(i + 1).drop_last() =~= all.take(i as int));
            assert(all[i as int].members.len() == v@[i as int].members@.len());
        }
        n += v[i].members.len() as u64;
        i += 1;
    }
    proof {
        assert(all.take(i as int) =~= all);
    }
    n
}

/// How many text channels have something unread.
pub open spec fn unread_channels(t: Seq<TextChannel>) -> nat
    decreases t.len(),
{
    if t.len() == 0 {
        0
    } else {
        unread_channels(t.drop_last()) + if t.last().unread {
            1nat
        } else {
            0
        }
    }
}

fn count_unread(t: &Vec<TextChannel>) -> (r: usize)
    ensures
        r == unread_channels(t@),
{
    let mut n: usize = 0;
    let mut i: usize = 0;
    proof {
        assert(t@.take(0) =~= Seq::<TextChannel>::empty());
    }
    while i < t.len()
        invariant
            n <= i <= t@.len(),
            n == unread_channels(t@.take(i as int)),
        decreases t@.len() - i,
    {
        proof {
            assert(t@.take(i + 1).drop_last() =~= t@.take(i as int));
        }
        if t[i].unread {
            n += 1;
        }
        i += 1;
    }
    proof {
        assert(t@.take(i as int) =~= t@);
    }
    n
}

/// The title: who is in voice comes before what is unread.
pub open spec fn discord_title(d: Discord, v: Seq<Voice>) -> Seq<Bit> {
    let unread = unread_channels(d.text@);
    seq![panel::bold(" DISCORD  "@, Hue::Accent)] + if !(d.available && d.fresh) {
        seq![]
    } else if people(v) > 0 {
        seq![
            panel::bold(digits::dec(people(v)), Hue::Cyan),
            panel::flat(" in voice "@, Hue::Dim),
        ]
    } else if unread > 0 {
        seq![
            panel::bold(" ● "@, Hue::Pink),
            panel::bold(digits::dec(unread), Hue::Pink),
            panel::flat(" unread "@, Hue::Dim),
        ]
    } else {
        seq![panel::bold(" ✓ "@, Hue::Accent), panel::flat("idle "@, Hue::Dim)]
    }
}

/// The border: talking outshines everything, then something unread or a recent join.
pub open spec fn discord_sweep(d: Discord, preview: Seq<char>, talk: Seq<char>, now: u64) -> Sweep {
    let speaking = d.voice_speaking || d.voice_speaking_tap || text::trimmed(talk).len() > 0;
    let joined = d.voice_join_at matches Some(t) && state::since(t, now) < JOIN_GLOW;
    if d.available && speaking {
        Sweep::Talking
    } else if d.available && (unread_channels(d.text@) > 0 || joined || text::trimmed(preview).len()
        > 0) {
        Sweep::Calm
    } else {
        Sweep::Still
    }
}

/// One voice channel: its name and as many members as fit.
pub open spec fn voice_row(v: Voice, iw: nat) -> Seq<Bit> {
    let room = if iw >= 27 {
        (iw - 21) as nat
    } else {
        6
    };
    seq![
        panel::raw("  "@),
        panel::bold(width::padded(v.name, 18), Hue::Cyan),
        panel::raw(" "@),
        panel::flat(width::fitted_members(v.members, room), Hue::Dim),
    ]
}

/// What is shown of a text channel: who wrote last, by first name, and what.
pub open spec fn last_words(t: TextChannel) -> Seq<char> {
    if t.author@.len() == 0 {
        t.preview@
    } else {
        let names = text::word_list(t.author@);
        (if names.len() > 0 {
            names[0]
        } else {
            t.author@
        }) + ": "@ + t.preview@
    }
}

/// One text channel.
pub open spec fn text_row(t: TextChannel, iw: nat) -> Seq<Bit> {
    let name = width::padded("#"@ + t.name@, 18);
    seq![
        panel::raw("  "@),
        if t.unread {
            panel::bold(name, Hue::Text)
        } else {
            panel::flat(name, Hue::Dim)
        },
        panel::raw(" "@),
        panel::flat(
            width::padded(last_words(t), message_cards::preview_width(iw)),
            if t.unread {
                Hue::Text
            } else {
                Hue::Faint
            },
        ),
        message_cards::rel_bit(t.rel@),
        if t.unread {
            panel::bold(" ●"@, Hue::Pink)
        } else {
            panel::raw("  "@)
        },
    ]
}

/// The rows of the card: voice above text.
pub open spec fn discord_rows(d: Discord, v: Seq<Voice>, iw: nat) -> Seq<Seq<Bit>> {
    let nv = message_cards::lesser(v.len() as int, MAX_VOICE as int);
    let nt = message_cards::lesser(d.text@.len() as int, MAX_TEXT as int);
    Seq::new(nv as nat, |i: int| voice_row(v[i], iw)) + Seq::new(
        nt as nat,
        |i: int| text_row(d.text@[i], iw),
    )
}

/// The inside of the card.
pub open spec fn discord_inside(area: Area, d: Discord, v: Seq<Voice>) -> Inside {
    if area.height < 2 || area.width < 10 {
        Inside::Blank
    } else if !d.fresh {
        Inside::Lines(seq![seq![panel::flat("connecting to Discord…"@, Hue::Dim)]])
    } else if !d.available {
        Inside::Lines(
            seq![
                seq![panel::flat("✉  Discord not configured"@, Hue::Dim)],
                seq![panel::flat("add bot token to Keychain"@, Hue::Faint)],
            ],
        )
    } else if v.len() == 0 && d.text@.len() == 0 {
        Inside::Centered(seq![panel::flat("✉  all quiet"@, Hue::Faint)])
    } else {
        Inside::Lines(discord_rows(d, v, area.width as nat))
    }
}

fn voice_line(v: &VoiceChannel, iw: usize) -> (r: Vec<Piece>)
    ensures
        panel::bits(r@) == voice_row(
            Voice { name: v.name@, members: text::texts(v.members@) },
            iw as nat,
        ),
{
    let room: usize = if iw >= 27 {
        iw - 21
    } else {
        6
    };
    let mut line = panel::line();
    panel::push_raw(&mut line, "  ");
    panel::push_bold(&mut line, width::pad_width(v.name.as_str(), 18).as_str(), Hue::Cyan);
    panel::push_raw(&mut line, " ");
    panel::push_flat(&mut line, width::fit_members(&v.members, room).as_str(), Hue::Dim);
    proof {
        assert(panel::bits(line@) =~= voice_row(
            Voice { name: v.name@, members: text::texts(v.members@) },
            iw as nat,
        ));
    }
    line
}

fn words_of(t: &TextChannel) -> (r: String)
    ensures
        r@ == last_words(*t),
{
    let author = text::chars_of(t.author.as_str());
    if author.len() == 0 {
        return t.preview.clone();
    }
    let names = text::words(author.as_slice());
    proof {
        assert(text::views(names@).len() == names@.len());
    }
    let who = if names.len() > 0 {
        text::string_of(names[0])
    } else {
        t.author.clone()
    };
    text::concat3(who.as_str(), ": ", t.preview.as_str())
}

fn text_line(t: &TextChannel, iw: usize) -> (r: Vec<Piece>)
    ensures
        panel::bits(r@) == text_row(*t, iw as nat),
{
    let cells: usize = if iw >= 33 {
        iw - 27
    } else {
        6
    };
    let name = width::pad_width(text::concat2("#", t.name.as_str()).as_str(), 18);
    let body = width::pad_width(words_of(t).as_str(), cells);
    let mut line = panel::line();
    panel::push_raw(&mut line, "  ");
    if t.unread {
        panel::push_bold(&mut line, name.as_str(), Hue::Text);
    } else {
        panel::push_flat(&mut line, name.as_str(), Hue::Dim);
    }
    panel::push_raw(&mut line, " ");
    panel::push_flat(
        &mut line,
        body.as_str(),
        if t.unread {
            Hue::Text
        } else {
            Hue::Faint
        },
    );
    message_cards::push_rel(&mut line, t.rel.as_str());
    if t.unread {
        panel::push_bold(&mut line, " ●", Hue::Pink);
    } else {
        panel::push_raw(&mut line, "  ");
    }
    proof {
        assert(panel::bits(line@) =~= text_row(*t, iw as nat));
    }
    line
}

fn discord_body(area: Area, d: &Discord, voice: &Vec<VoiceChannel>) -> (r: Body)
    ensures
        panel::body_view(r) == discord_inside(area, *d, voices(voice@)),
{
    let ghost v = voices(voice@);
    if area.height < 2 || area.width < 10 {
        return Body::Blank;
    }
    if !d.fresh {
        return panel::note_body("connecting to Discord…", Hue::Dim);
    }
    if !d.available {
        return panel::hint_body("✉  Discord not configured", "add bot token to Keychain");
    }
    if voice.len() == 0 && d.text.len() == 0 {
        return panel::centered_body("✉  all quiet", Hue::Faint);
    }
    let iw: usize = area.width as usize;
    let nv: usize = if voice.len() < MAX_VOICE {
        voice.len()
    } else {
        MAX_VOICE
    };
    let nt: usize = if d.text.len() < MAX_TEXT {
        d.text.len()
    } else {
        MAX_TEXT
    };
    let ghost want = discord_rows(*d, v, iw as nat);
    let mut lines: Vec<Vec<Piece>> = Vec::new();
    let mut i: usize = 0;
    proof {
        assert(panel::rows(lines@) =~= want.take(0));
    }
    while i < nv
        invariant
            i <= nv <= voice@.len(),
            nv == message_cards::lesser(voice@.len() as int, MAX_VOICE as int),
            v == voices(voice@),
            want == discord_rows(*d, v, iw as nat),
            panel::rows(lines@) == want.take(i as int),
        decreases nv - i,
    {
        let l = voice_line(&voice[i], iw);
        proof {
            assert(panel::bits(l@) == want[i as int]);
            assert(want.take(i + 1) =~= want.take(i as int).push(want[i as int]));
        }
        panel::push_row(&mut lines, l);
        i += 1;
    }
    let mut k: usize = 0;
    while k < nt
        invariant
            k <= nt <= d.text@.len(),
            nt == message_cards::lesser(d.text@.len() as int, MAX_TEXT as int),
            nv == message_cards::lesser(v.len() as int, MAX_VOICE as int),
            want == discord_rows(*d, v, iw as nat),
            panel::rows(lines@) == want.take(nv + k),
        decreases nt - k,
    {
        let l = text_line(&d.text[k], iw);
        proof {
            assert(panel::bits(l@) == want[nv + k]);
            assert(want.take(nv + k + 1) =~= want.take(nv + k).push(want[nv + k]));
        }
        panel::push_row(&mut lines, l);
        k += 1;
    }
    proof {
        assert(want.take(nv + k) =~= want);
    }
    Body::Lines(lines)
}

fn is_set(s: &str) -> (r: bool)
    ensures
        r == (text::trimmed(s@).len() > 0),
{
    let raw = text::chars_of(s);
    text::trim(raw.as_slice()).len() > 0
}

/// The Discord card. `area` is the whole card; `preview` names a member to show as
/// joined, and `talk` shows the border as if somebody talked; both are blank in
/// ordinary use.
pub fn discord_card(area: Area, d: &Discord, preview: &str, talk: &str, now: u64) -> (r: Card)
    requires
        people(previewed(voices(d.voice@), preview@)) <= u64::MAX,
    ensures
        panel::bits(r.title@) == discord_title(*d, previewed(voices(d.voice@), preview@)),
        r.flash is None,
        r.sweep == discord_sweep(*d, preview@, talk@, now),
        panel::body_view(r.body) == discord_inside(
            panel::inside(area),
            *d,
            previewed(voices(d.voice@), preview@),
        ),
{
    let voice = fake_voice(&d.voice, preview);
    let ghost v = voices(voice@);
    let inside_voice = count_people(&voice);
    let unread = count_unread(&d.text);
    let mut title = panel::line();
    panel::push_bold(&mut title, " DISCORD  ", Hue::Accent);
    if d.available && d.fresh {
        if inside_voice > 0 {
            panel::push_bold(&mut title, digits::dec_string(inside_voice).as_str(), Hue::Cyan);
            panel::push_flat(&mut title, " in voice ", Hue::Dim);
        } else if unread > 0 {
            panel::push_bold(&mut title, " ● ", Hue::Pink);
            panel::push_bold(&mut title, digits::dec_string(unread as u64).as_str(), Hue::Pink);
            panel::push_flat(&mut title, " unread ", Hue::Dim);
        } else {
            panel::push_bold(&mut title, " ✓ ", Hue::Accent);
            panel::push_flat(&mut title, "idle ", Hue::Dim);
        }
    }
    proof {
        assert(panel::bits(title@) =~= discord_title(*d, v));
    }
    let joined = match d.voice_join_at {
        Some(t) => state::elapsed(t, now) < JOIN_GLOW,
        None => false,
    };
    let speaking = d.voice_speaking || d.voice_speaking_tap || is_set(talk);
    let sweep = if d.available && speaking {
        Sweep::Talking
    } else if d.available && (unread > 0 || joined || is_set(preview)) {
        Sweep::Calm
    } else {
        Sweep::Still
    };
    let body = discord_body(panel::inner(area), d, &voice);
    Card { title, flash: None, sweep, body }
}

/// The card hugs its contents: given the rows that it asks for, all its lines fit.
pub proof fn discord_card_fits(area: Area, d: Discord, preview: Seq<char>)
    requires
        area.height == rows_needed(d, preview),
        d.fresh && d.available,
    ensures
        discord_rows(d, previewed(voices(d.voice@), preview), panel::inside(area).width as nat).len()
            <= panel::inside(area).height,
{
}

/// A previewed member joins exactly one channel: everybody else stays.
pub proof fn preview_adds_one(v: Seq<Voice>, preview: Seq<char>)
    requires
        text::trimmed(preview).len() > 0,
    ensures
        people(previewed(v, preview)) == people(v) + 1,
{
    let spec_text = text::trimmed(preview);
    match text::char_from(spec_text, ':', 0) {
        Some(k) => {
            member_adds_one(
                v,
                text::trimmed(spec_text.take(k)),
                text::trimmed(spec_text.skip(k + 1)),
            );
        },
        None => {
            member_adds_one(v, default_channel(), spec_text);
        },
    }
}

proof fn member_adds_one(v: Seq<Voice>, name: Seq<char>, member: Seq<char>)
    ensures
        people(with_member(v, name, member)) == people(v) + 1,
{
    channel_stands(v, name, 0);
    let k = channel_from(v, name, 0);
    if k < v.len() {
        sorting_orders(v[k].members.push(member));
        people_update(
            v,
            k,
            Voice { name: v[k].name, members: in_order(v[k].members.push(member)) },
        );
    } else {
        let w = v.push(Voice { name, members: seq![member] });
        assert(w.drop_last() =~= v);
    }
}

proof fn channel_stands(v: Seq<Voice>, name: Seq<char>, i: int)
    requires
        0 <= i <= v.len(),
    ensures
        i <= channel_from(v, name, i) <= v.len(),
    decreases v.len() - i,
{
    if i < v.len() && !same_but_case(v[i].name, name) {
        channel_stands(v, name, i + 1);
    }
}

proof fn people_update(v: Seq<Voice>, k: int, c: Voice)
    requires
        0 <= k < v.len(),
    ensures
        people(v.update(k, c)) == people(v) - v[k].members.len() + c.members.len(),
    decreases v.len(),
{
    let w = v.update(k, c);
    if k == v.len() - 1 {
        assert(w.drop_last() =~= v.drop_last());
    } else {
        people_update(v.drop_last(), k, c);
        assert(w.drop_last() =~= v.drop_last().update(k, c));
    }
}

// ---------------------------------------------------------------------------
// Laws of the Discord card.
// ---------------------------------------------------------------------------

/// Somebody who joins a channel that is there stands among its members in order, and all other
/// channels stay; a channel that is not there is opened behind the others for them alone.
pub proof fn joining_goes_to_the_named_channel(
    v: Seq<Voice>,
    name: Seq<char>,
    member: Seq<char>,
    k: int,
)
    requires
        0 <= k <= v.len(),
        forall|j: int| 0 <= j < k ==> !same_but_case((#[trigger] v[j]).name, name),
    ensures
        k < v.len() && same_but_case(v[k].name, name) ==> ({
            let w = with_member(v, name, member);
            &&& w.len() == v.len()
            &&& w[k].name == v[k].name
            &&& w[k].members.to_multiset() == v[k].members.push(member).to_multiset()
            &&& forall|i: int, j: int|
                0 <= i < j < w[k].members.len() ==> !text::before(
                    #[trigger] w[k].members[j],
                    #[trigger] w[k].members[i],
                )
            &&& forall|j: int| 0 <= j < v.len() && j != k ==> #[trigger] w[j] == v[j]
        }),
        k == v.len() ==> with_member(v, name, member) == v.push(
            Voice { name, members: seq![member] },
        ),
{
    if k == v.len() || same_but_case(v[k].name, name) {
        channel_is(v, name, 0, k);
        if k < v.len() {
            sorting_orders(v[k].members.push(member));
        }
    }
}

proof fn channel_is(v: Seq<Voice>, name: Seq<char>, from: int, k: int)
    requires
        0 <= from <= k <= v.len(),
        forall|j: int| 0 <= j < k ==> !same_but_case((#[trigger] v[j]).name, name),
        k < v.len() ==> same_but_case(v[k].name, name),
    ensures
        channel_from(v, name, from) == k,
    decreases k - from,
{
    if from < k {
        channel_is(v, name, from + 1, k);
    }
}

/// A preview names the channel before its first colon and the member behind it; without a colon
/// it is a member of the usual channel, and a blank one adds nobody.
pub proof fn previews_name_channel_and_member(v: Seq<Voice>, a: Seq<char>, b: Seq<char>)
    requires
        !a.contains(':'),
    ensures
        text::trimmed(a + seq![':'] + b) == a + seq![':'] + b ==> previewed(
            v,
            a + seq![':'] + b,
        ) == with_member(v, text::trimmed(a), text::trimmed(b)),
        text::trimmed(a) == a && a.len() > 0 ==> previewed(v, a) == with_member(
            v,
            "200 club"@,
            a,
        ),
        text::trimmed(a).len() == 0 ==> previewed(v, a) == v,
{
    text::texts_part_at_the_first(a, ':', b);
    text::char_from_is_least(a, ':', 0);
    if text::char_from(a, ':', 0) is Some {
        assert(a.contains(':'));
    }
}

/// How many people are in voice is the sum over the channels, in whatever parts they are counted.
pub proof fn people_are_counted_once(a: Seq<Voice>, b: Seq<Voice>, c: Voice)
    ensures
        people(a + b) == people(a) + people(b),
        people(seq![c]) == c.members.len(),
    decreases b.len(),
{
    assert(seq![c].drop_last() =~= Seq::<Voice>::empty());
    reveal_with_fuel(people, 2);
    if b.len() == 0 {
        assert(a + b =~= a);
    } else {
        assert((a + b).drop_last() =~= a + b.drop_last());
        people_are_counted_once(a, b.drop_last(), c);
    }
}

/// The unread channels are those that say so.
pub proof fn unread_channels_say_so(t: Seq<TextChannel>)
    ensures
        unread_channels(t) == t.filter(|c: TextChannel| c.unread).len(),
    decreases t.len(),
{
    reveal(Seq::filter);
    if t.len() > 0 {
        unread_channels_say_so(t.drop_last());
    }
}

/// The title counts the people in voice where there are any, else the unread channels where
/// there are any, else it says that all is idle.
pub proof fn title_tells_voice_before_text(d: Discord, v: Seq<Voice>)
    requires
        d.available,
        d.fresh,
    ensures
        people(v) > 0 ==> discord_title(d, v).len() == 3 && discord_title(d, v)[1].text
            == digits::dec(people(v)) && discord_title(d, v)[2].text == " in voice "@,
        people(v) == 0 && unread_channels(d.text@) > 0 ==> discord_title(d, v).len() == 4
            && discord_title(d, v)[2].text == digits::dec(unread_channels(d.text@))
            && discord_title(d, v)[3].text == " unread "@,
        people(v) == 0 && unread_channels(d.text@) == 0 ==> discord_title(d, v).len() == 3
            && discord_title(d, v)[2].text == "idle "@,
{
}

/// The border runs fast while somebody talks; it runs calmly for something unread and for twenty
/// seconds after a join, and stands still otherwise.
pub proof fn border_tells_who_talks_and_joins(d: Discord, now: u64)
    requires
        d.available,
    ensures
        d.voice_speaking || d.voice_speaking_tap ==> discord_sweep(d, ""@, ""@, now)
            == Sweep::Talking,
        !d.voice_speaking && !d.voice_speaking_tap ==> (discord_sweep(d, ""@, ""@, now)
            == Sweep::Calm) == (unread_channels(d.text@) > 0 || (d.voice_join_at matches Some(t)
            && now < t + 20_000_000_000)),
        !d.voice_speaking && !d.voice_speaking_tap && unread_channels(d.text@) == 0 && (
        d.voice_join_at matches Some(t) ==> now >= t + 20_000_000_000) ==> discord_sweep(
            d,
            ""@,
            ""@,
            now,
        ) == Sweep::Still,
{
    reveal_strlit("");
    text::trimmed_empty_iff_blank(""@);
}

/// At most three voice channels stand above at most three text channels, each kind in its order.
pub proof fn voice_stands_above_text(d: Discord, v: Seq<Voice>, iw: nat, i: int)
    requires
        0 <= i < 3,
    ensures
        i < v.len() ==> i < discord_rows(d, v, iw).len() && discord_rows(d, v, iw)[i] == voice_row(
            v[i],
            iw,
        ),
        i < d.text@.len() && v.len() >= 3 ==> discord_rows(d, v, iw)[3 + i] == text_row(
            d.text@[i],
            iw,
        ),
        i < d.text@.len() && v.len() < 3 ==> discord_rows(d, v, iw)[v.len() + i] == text_row(
            d.text@[i],
            iw,
        ),
        discord_rows(d, v, iw).len() <= 6,
{
}

/// The card asks for a row for each channel it shows and for its border, and for a row at least.
pub proof fn card_asks_for_its_rows(d: Discord, preview: Seq<char>)
    ensures
        ({
            let v = previewed(voices(d.voice@), preview).len();
            let t = d.text@.len();
            &&& d.fresh && d.available && v <= 3 && t <= 3 && v + t >= 1 ==> rows_needed(d, preview)
                == v + t + 2
            &&& d.fresh && d.available && v == 0 && t == 0 ==> rows_needed(d, preview) == 3
            &&& d.fresh && d.available && v > 3 && t > 3 ==> rows_needed(d, preview) == 8
            &&& !d.fresh || !d.available ==> rows_needed(d, preview) == 4
        }),
{
}

/// A text channel shows who wrote last by their first name, and what they wrote.
pub proof fn last_words_name_the_writer(t: TextChannel, iw: nat)
    requires
        iw >= 33,
    ensures
        t.author@.len() == 0 ==> last_words(t) == t.preview@,
        t.author@.len() > 0 && text::word_list(t.author@).len() > 0 ==> last_words(t)
            == text::word_list(t.author@)[0] + ": "@ + t.preview@,
        t.unread ==> text_row(t, iw)[5].text == " ●"@,
        !t.unread ==> text_row(t, iw)[5].text == "  "@,
        text_row(t, iw)[1].text == width::padded("#"@ + t.name@, 18),
        text_row(t, iw)[3].text == width::padded(last_words(t), (iw - 27) as nat),
{
}

} // verus!
