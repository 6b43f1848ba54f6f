//! Who is talking: the latch behind the level meter, and when the tap is rebuilt.

use vstd::prelude::*;
use crate::digits;
use crate::state;
use crate::text;

verus! {

/// How long a voice counts as talking after it was last loud.
pub const VOICE_HANG: u64 = 800_000_000;

// ---------------------------------------------------------------------------
// The latch.
// ---------------------------------------------------------------------------

/// Whether somebody talks, and when it was last loud.
#[derive(Clone, Copy, Debug, PartialEq, Eq)]
pub struct Latch {
    pub speaking: bool,
    pub loud_at: Option<u64>,
}

/// It has been quiet for long enough.
pub open spec fn hung_up(l: Latch, now: u64) -> bool {
    match l.loud_at {
        Some(t) => state::since(t, now) >= VOICE_HANG,
        None => true,
    }
}

/// The latch after a buffer that is loud or not.
pub open spec fn heard(l: Latch, loud: bool, now: u64) -> Latch {
    if loud {
        Latch { speaking: true, loud_at: Some(now) }
    } else if l.speaking && hung_up(l, now) {
        Latch { speaking: false, loud_at: l.loud_at }
    } else {
        l
    }
}

impl Latch {
    /// Nobody has been heard.
    pub fn new() -> (r: Latch)
        ensures
            !r.speaking,
            r.loud_at is None,
    {
        Latch { speaking: false, loud_at: None }
    }

    /// Hears a buffer. Says whether somebody talks where that has changed.
    pub fn hear(&mut self, loud: bool, now: u64) -> (r: Option<bool>)
        ensures
            *final(self) == heard(*old(self), loud, now),
            r == if heard(*old(self), loud, now).speaking != old(self).speaking {
                Some(heard(*old(self), loud, now).speaking)
            } else {
                None
            },
    {
        if loud {
            self.loud_at = Some(now);
            if !self.speaking {
                self.speaking = true;
                return Some(true);
            }
            return None;
        }
        if self.speaking {
            let quiet = match self.loud_at {
                Some(t) => state::elapsed(t, now) >= VOICE_HANG,
                None => true,
            };
            if quiet {
                self.speaking = false;
                return Some(false);
            }
        }
        None
    }
}

/// A voice is heard at once.
pub proof fn voices_are_heard_at_once(l: Latch, now: u64)
    ensures
        heard(l, true, now).speaking,
{
}

/// A short pause does not put the light out: it stays on until the hang has passed since
/// the last loud buffer.
pub proof fn pauses_are_bridged(l: Latch, loud_at: u64, now: u64)
    requires
        state::since(loud_at, now) < VOICE_HANG,
    ensures
        heard(heard(l, true, loud_at), false, now).speaking,
{
}

/// Silence does not turn the light on.
pub proof fn silence_stays_dark(l: Latch, now: u64)
    requires
        !l.speaking,
    ensures
        !heard(l, false, now).speaking,
{
}

// ---------------------------------------------------------------------------
// The tap.
// ---------------------------------------------------------------------------

/// How often a number occurs.
pub open spec fn times(s: Seq<u32>, x: u32) -> nat
    decreases s.len(),
{
    if s.len() == 0 {
        0
    } else {
        times(s.drop_last(), x) + if s.last() == x {
            1nat
        } else {
            0
        }
    }
}

fn count(s: &Vec<u32>, x: u32) -> (r: usize)
    ensures
        r == times(s@, x),
{
    let mut n: usize = 0;
    let mut i: usize = 0;
    proof {
        assert(s@.take(0) =~= Seq::<u32>::empty());
    }
    while i < s.len()
        invariant
            n <= i <= s@.len(),
            n == times(s@.take(i as int), x),
        decreases s@.len() - i,
    {
        proof {
            assert(s@.take(i + 1).drop_last() =~= s@.take(i as int));
        }
        if s[i] == x {
            n += 1;
        }
        i += 1;
    }
    proof {
        assert(s@.take(i as int) =~= s@);
    }
    n
}

proof fn times_is_count(s: Seq<u32>, x: u32)
    ensures
        s.to_multiset().count(x) == times(s, x),
    decreases s.len(),
{
    broadcast use vstd::seq_lib::group_to_multiset_ensures;

    if s.len() > 0 {
        times_is_count(s.drop_last(), x);
        assert(s =~= s.drop_last().push(s.last()));
        assert(s.to_multiset() == s.drop_last().to_multiset().insert(s.last()));
    } else {
        assert(s =~= Seq::<u32>::empty());
    }
}

proof fn absent_counts_none(s: Seq<u32>, x: u32)
    requires
        !s.contains(x),
    ensures
        times(s, x) == 0,
    decreases s.len(),
{
    if s.len() > 0 {
        assert forall|i: int| 0 <= i < s.drop_last().len() implies s.drop_last()[i] != x by {
            assert(s[i] != x);
        }
        absent_counts_none(s.drop_last(), x);
        assert(s[s.len() - 1] != x);
    }
}

/// Do two lists hold the same numbers, in whatever order?
pub fn same_set(a: &Vec<u32>, b: &Vec<u32>) -> (r: bool)
    ensures
        r == (a@.to_multiset() == b@.to_multiset()),
{
    let mut i: usize = 0;
    while i < a.len()
        invariant
            i <= a@.len(),
            forall|j: int| 0 <= j < i ==> times(a@, #[trigger] a@[j]) == times(b@, a@[j]),
        decreases a@.len() - i,
    {
        if count(a, a[i]) != count(b, a[i]) {
            proof {
                times_is_count(a@, a@[i as int]);
                times_is_count(b@, a@[i as int]);
            }
            return false;
        }
        i += 1;
    }
    let mut k: usize = 0;
    while k < b.len()
        invariant
            k <= b@.len(),
            forall|j: int| 0 <= j < k ==> times(a@, #[trigger] b@[j]) == times(b@, b@[j]),
        decreases b@.len() - k,
    {
        if count(a, b[k]) != count(b, b[k]) {
            proof {
                times_is_count(a@, b@[k as int]);
                times_is_count(b@, b@[k as int]);
            }
            return false;
        }
        k += 1;
    }
    proof {
        assert forall|x: u32| a@.to_multiset().count(x) == b@.to_multiset().count(x) by {
            times_is_count(a@, x);
            times_is_count(b@, x);
            if a@.contains(x) {
                let j = a@.index_of(x);
                assert(a@[j] == x);
            } else if b@.contains(x) {
                let j = b@.index_of(x);
                assert(b@[j] == x);
            } else {
                absent_counts_none(a@, x);
                absent_counts_none(b@, x);
            }
        }
        assert(a@.to_multiset() =~= b@.to_multiset());
    }
    true
}

/// What is done about the tap.
#[derive(Clone, Copy, Debug, PartialEq, Eq, Structural)]
pub enum TapAction {
    /// It is left as it is.
    Keep,
    /// It is torn down; nobody talks any more.
    Stop,
    /// It is built for the processes that there are.
    Start,
}

/// What is done about the tap: without a process it goes; it is built where there is none
/// or where the processes have changed.
pub open spec fn tap_step(objs: Seq<u32>, running: bool, built_for: Seq<u32>) -> TapAction {
    if objs.len() == 0 {
        if running {
            TapAction::Stop
        } else {
            TapAction::Keep
        }
    } else if !running || built_for.len() == 0 || built_for.to_multiset() != objs.to_multiset() {
        TapAction::Start
    } else {
        TapAction::Keep
    }
}

/// What is done about the tap, for the processes that there are and those it was built
/// for.
pub fn tap_action(objs: &Vec<u32>, running: bool, built_for: &Vec<u32>) -> (r: TapAction)
    ensures
        r == tap_step(objs@, running, built_for@),
{
    if objs.len() == 0 {
        return if running {
            TapAction::Stop
        } else {
            TapAction::Keep
        };
    }
    if !running || built_for.len() == 0 || !same_set(built_for, objs) {
        TapAction::Start
    } else {
        TapAction::Keep
    }
}

/// The numbers among the words of a text.
pub open spec fn numbers_in(words: Seq<Seq<char>>) -> Seq<u32>
    decreases words.len(),
{
    if words.len() == 0 {
        seq![]
    } else {
        let before = numbers_in(words.drop_last());
        match digits::unsigned_upto(words.last(), u32::MAX as int) {
            Some(n) => before.push(n as u32),
            None => before,
        }
    }
}

/// Reads the process numbers that were printed.
pub fn read_pids(s: &str) -> (r: Vec<u32>)
    ensures
        r@ == numbers_in(text::word_list(s@)),
{
    let chars = text::chars_of(s);
    let words = text::words(chars.as_slice());
    let ghost all = text::word_list(s@);
    let mut out: Vec<u32> = Vec::new();
    let mut i: usize = 0;
    proof {
        assert(all.len() == words@.len());
        assert(all.take(0) =~= Seq::<Seq<char>>::empty());
    }
    while i < words.len()
        invariant
            i <= words@.len() == all.len(),
            all == text::views(words@),
            out@ == numbers_in(all.take(i as int)),
        decreases words@.len() - i,
    {
        proof {
            assert(all[i as int] == words@[i as int]@);
            assert(all.take(i + 1).drop_last() =~= all.take(i as int));
        }
        match digits::read_unsigned(words[i], 0xffff_ffff) {
            Some(n) => {
                out.push(n as u32);
            },
            None => {},
        }
        i += 1;
    }
    proof {
        assert(all.take(i as int) =~= all);
    }
    out
}

/// Reads the process numbers in the bytes that were printed.
pub fn discord_pids(bytes: &[u8]) -> (r: Vec<u32>)
    ensures
        r@ == numbers_in(text::word_list(text::lossy(bytes@))),
{
    let raw = text::decode_lossy(bytes);
    read_pids(raw.as_str())
}

/// The light of a voice goes out at the first quiet buffer that comes eight tenths of a second or
/// more after the last loud one, and at none before.
pub proof fn light_goes_out_after_the_hang(l: Latch, loud_at: u64, now: u64)
    requires
        loud_at <= now,
    ensures
        heard(heard(l, true, loud_at), false, now).speaking <==> now - loud_at < 800_000_000,
        heard(heard(l, true, loud_at), false, now).loud_at == Some(loud_at),
{
}

/// A tap listens to exactly the processes that there are: it is built where there are some and it
/// does not run or runs for others, in whatever order they come; it is torn down where there are
/// none; and otherwise it is left alone.
pub proof fn tap_follows_the_processes(objs: Seq<u32>, running: bool, built_for: Seq<u32>)
    ensures
        objs.len() == 0 && running ==> tap_step(objs, running, built_for) == TapAction::Stop,
        objs.len() == 0 && !running ==> tap_step(objs, running, built_for) == TapAction::Keep,
        objs.len() > 0 && !running ==> tap_step(objs, running, built_for) == TapAction::Start,
        objs.len() > 0 && running && built_for == objs ==> tap_step(objs, running, built_for)
            == TapAction::Keep,
        objs.len() > 0 && (exists|x: u32| times(objs, x) != #[trigger] times(built_for, x))
            ==> tap_step(objs, running, built_for) == TapAction::Start,
        objs.len() > 0 && running && (forall|x: u32| times(objs, x) == #[trigger] times(built_for, x))
            ==> tap_step(objs, running, built_for) == TapAction::Keep,
{
    assert forall|x: u32| objs.to_multiset().count(x) == #[trigger] times(objs, x) by {
        times_is_count(objs, x);
    }
    assert forall|x: u32| built_for.to_multiset().count(x) == #[trigger] times(built_for, x) by {
        times_is_count(built_for, x);
    }
    if forall|x: u32| times(objs, x) == #[trigger] times(built_for, x) {
        assert forall|x: u32| built_for.to_multiset().count(x) == objs.to_multiset().count(x) by {
            assert(times(objs, x) == times(built_for, x));
        }
        assert(built_for.to_multiset() =~= objs.to_multiset());
        if objs.len() > 0 {
            assert(objs[0] == objs.first());
            first_occurs(objs);
            if built_for.len() == 0 {
                assert(times(built_for, objs[0]) == 0);
            }
        }
    }
    if exists|x: u32| times(objs, x) != #[trigger] times(built_for, x) {
        let x = choose|x: u32| times(objs, x) != #[trigger] times(built_for, x);
        assert(built_for.to_multiset().count(x) != objs.to_multiset().count(x));
    }
}

proof fn first_occurs(s: Seq<u32>)
    requires
        s.len() > 0,
    ensures
        times(s, s[0]) > 0,
    decreases s.len(),
{
    if s.len() > 1 {
        first_occurs(s.drop_last());
    }
}

/// The process numbers of a text are the words of it that are numbers, in their order.
pub proof fn numbers_are_read_in_order(words: Seq<Seq<char>>)
    ensures
        numbers_in(words) == words.filter(
            |w: Seq<char>| digits::unsigned_upto(w, 4_294_967_295) is Some,
        ).map_values(|w: Seq<char>| digits::unsigned_upto(w, 4_294_967_295)->0 as u32),
    decreases words.len(),
{
    reveal(Seq::filter);
    if words.len() > 0 {
        numbers_are_read_in_order(words.drop_last());
    }
    assert(numbers_in(words) =~= words.filter(
        |w: Seq<char>| digits::unsigned_upto(w, 4_294_967_295) is Some,
    ).map_values(|w: Seq<char>| digits::unsigned_upto(w, 4_294_967_295)->0 as u32));
}

} // verus!
