//! The stream of random draws that drives the glitches.
use vstd::prelude::*;
use rand::Rng;
use rand::rngs::ThreadRng;

verus! {

/// rand's `ThreadRng`, the thread-local generator, carried as an opaque value.
#[verifier::external_type_specification]
#[verifier::external_body]
pub struct ExThreadRng(ThreadRng);

/// Relies on `rand::thread_rng`: hands out the thread-local generator,
/// seeded from system entropy. Nothing is known of what it will produce.
pub assume_specification[ rand::thread_rng ]() -> ThreadRng;

/// Relies on `rand::Rng::gen_range` over the half-open range `0..bound`:
/// the value lies in that range (it panics only on an empty range).
#[verifier::external_body]
fn system_below(rng: &mut ThreadRng, bound: u64) -> (r: u64)
    requires
        0 < bound,
    ensures
        r < bound,
{
    rng.gen_range(0..bound)
}

/// `a` is an initial part of `b`.
pub open spec fn prefix_of(a: Seq<u64>, b: Seq<u64>) -> bool {
    a.len() <= b.len() && forall|i: int| 0 <= i < a.len() ==> #[trigger] b[i] == a[i]
}

/// The value that a script hands out at draw `j`: its `j`-th value, and 0
/// once it is used up.
pub open spec fn script_at(script: Seq<u64>, j: int) -> u64 {
    if 0 <= j < script.len() { script[j] } else { 0 }
}

/// For a stream that replays `script`, the draws that `h1` holds beyond `h0`
/// are the script's values at those positions.
pub open spec fn replays(script: Option<Seq<u64>>, h0: Seq<u64>, h1: Seq<u64>) -> bool {
    script matches Some(o) ==> forall|j: int| h0.len() <= j < h1.len() ==> #[trigger] h1[j]
        == script_at(o, j)
}

/// The record of a stream's draws, and the script it replays, if any.
struct Record {
    scripted: bool,
    script: Vec<u64>,
    progress: Progress,
}

/// How far a script has been replayed, and every draw made so far.
struct Progress {
    cursor: usize,
    drawn: Ghost<Seq<u64>>,
}

impl Record {
    /// The cursor of a script follows the draws made; every draw made is
    /// the script's value at its position.
    #[verifier::type_invariant]
    spec fn wf(&self) -> bool {
        &&& self.progress.cursor <= self.script@.len()
        &&& self.scripted ==> {
            &&& self.progress.cursor == if self.progress.drawn@.len() < self.script@.len() {
                self.progress.drawn@.len()
            } else {
                self.script@.len()
            }
            &&& forall|j: int|
                0 <= j < self.progress.drawn@.len() ==> #[trigger] self.progress.drawn@[j] == script_at(
                    self.script@,
                    j,
                )
        }
    }

    spec fn script(&self) -> Option<Seq<u64>> {
        if self.scripted {
            Some(self.script@)
        } else {
            None
        }
    }

    fn new(scripted: bool, script: Vec<u64>) -> (r: Self)
        ensures
            r.progress.drawn@ == Seq::<u64>::empty(),
            r.script() == (if scripted { Some(script@) } else { None }),
    {
        Record { scripted, script, progress: Progress { cursor: 0, drawn: Ghost(Seq::empty()) } }
    }

    fn is_scripted(&self) -> (r: bool)
        ensures
            r == self.scripted,
    {
        self.scripted
    }

    /// Records `x`, drawn from elsewhere, on a stream without a script.
    fn record(&mut self, x: u64)
        requires
            !old(self).scripted,
        ensures
            final(self).progress.drawn@ == old(self).progress.drawn@.push(x),
            final(self).script() == old(self).script(),
    {
        proof {
            use_type_invariant(&*self);
        }
        self.progress = Progress {
            cursor: self.progress.cursor,
            drawn: Ghost(self.progress.drawn@.push(x)),
        };
    }

    /// Replays and records the next value of the script.
    fn replay(&mut self) -> (x: u64)
        requires
            old(self).scripted,
        ensures
            final(self).progress.drawn@ == old(self).progress.drawn@.push(x),
            final(self).script() == old(self).script(),
            x == script_at(old(self).script@, old(self).progress.drawn@.len() as int),
    {
        proof {
            use_type_invariant(&*self);
        }
        let cursor = self.progress.cursor;
        let x: u64 = if cursor < self.script.len() {
            self.script[cursor]
        } else {
            0
        };
        let next = if cursor < self.script.len() {
            cursor + 1
        } else {
            cursor
        };
        self.progress = Progress { cursor: next, drawn: Ghost(self.progress.drawn@.push(x)) };
        proof {
            assert forall|j: int| 0 <= j < self.progress.drawn@.len() implies #[trigger] self.progress.drawn@[j]
                == script_at(self.script@, j) by {
                if j < self.progress.drawn@.len() - 1 {
                    assert(self.progress.drawn@[j] == old(self).progress.drawn@[j]);
                }
            }
        }
        x
    }
}

/// An endless stream of random draws.
///
/// A stream either draws from system entropy or replays a fixed script of
/// values (so that tests can force a sequence of draws). Its view is the
/// sequence of every draw it has made, before reduction to the bound that
/// the draw was made with: a draw below `bound` hands out the recorded value
/// modulo `bound`.
pub struct RandomNumbers {
    rng: ThreadRng,
    record: Record,
    min: u64,
    max: u64,
}

impl View for RandomNumbers {
    type V = Seq<u64>;

    closed spec fn view(&self) -> Seq<u64> {
        self.record.progress.drawn@
    }
}

impl RandomNumbers {
    /// Lower end (inclusive) of the range that `next` draws from.
    pub closed spec fn lower(&self) -> u64 {
        self.min
    }

    /// Upper end (exclusive) of the range that `next` draws from.
    pub closed spec fn upper(&self) -> u64 {
        self.max
    }

    /// The whole script of a scripted stream, or `None` for a stream that
    /// draws from system entropy.
    pub closed spec fn script(&self) -> Option<Seq<u64>> {
        self.record.script()
    }

    /// A stream of values in `min..max` drawn from system entropy.
    pub fn new(min: u64, max: u64) -> (r: Self)
        ensures
            r@ == Seq::<u64>::empty(),
            r.lower() == min,
            r.upper() == max,
            r.script() is None,
    {
        RandomNumbers { rng: rand::thread_rng(), record: Record::new(false, Vec::new()), min, max }
    }

    /// A stream that replays `values`: a draw below `bound` hands out the
    /// next value reduced modulo `bound`, and 0 once the script is used up.
    pub fn scripted(values: Vec<u64>, min: u64, max: u64) -> (r: Self)
        ensures
            r@ == Seq::<u64>::empty(),
            r.lower() == min,
            r.upper() == max,
            r.script() == Some(values@),
    {
        RandomNumbers { rng: rand::thread_rng(), record: Record::new(true, values), min, max }
    }

    /// Draws one value below `bound` and records it.
    pub fn draw_below(&mut self, bound: u64) -> (r: u64)
        requires
            0 < bound,
        ensures
            r < bound,
            final(self)@ == old(self)@.push(final(self)@.last()),
            r == final(self)@.last() % bound,
            final(self).lower() == old(self).lower(),
            final(self).upper() == old(self).upper(),
            final(self).script() == old(self).script(),
            old(self).script() is None ==> final(self)@.last() == r,
            old(self).script() matches Some(o) ==> final(self)@.last() == script_at(
                o,
                old(self)@.len() as int,
            ),
    {
        let x: u64 = if self.record.is_scripted() {
            self.record.replay()
        } else {
            let x = system_below(&mut self.rng, bound);
            self.record.record(x);
            proof {
                vstd::arithmetic::div_mod::lemma_small_mod(x as nat, bound as nat);
            }
            x
        };
        x % bound
    }

    /// Draws the next value of the range `lower()..upper()`. A scripted
    /// stream hands out `lower()` plus its next value reduced modulo the
    /// width of the range.
    pub fn next(&mut self) -> (r: u64)
        requires
            old(self).lower() < old(self).upper(),
        ensures
            old(self).lower() <= r < old(self).upper(),
            final(self)@ == old(self)@.push(final(self)@.last()),
            final(self).lower() == old(self).lower(),
            final(self).upper() == old(self).upper(),
            final(self).script() == old(self).script(),
            old(self).script() matches Some(o) ==> r == old(self).lower() + script_at(
                o,
                old(self)@.len() as int,
            ) % ((old(self).upper() - old(self).lower()) as u64),
    {
        let d = self.draw_below(self.max - self.min);
        self.min + d
    }
}

} // verus!

verus! {

/// Being an initial part is transitive.
pub proof fn lemma_prefix_trans(a: Seq<u64>, b: Seq<u64>, c: Seq<u64>)
    requires
        prefix_of(a, b),
        prefix_of(b, c),
    ensures
        prefix_of(a, c),
{
    assert forall|i: int| 0 <= i < a.len() implies #[trigger] c[i] == a[i] by {
        assert(c[i] == b[i]);
    }
}

} // verus!
