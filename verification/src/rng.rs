//! Sources of uniform random draws.
//!
//! Every stochastic decision in the generator is made against a draw that is
//! uniform on `[0, bound)` for a bound the decision chooses, so the whole
//! engine can run either from real entropy (`ThreadRandom`) or from a fixed,
//! replayable sequence of draws (`FixedRandom`).

use vstd::prelude::*;

verus! {

/// A source of uniform random draws in a caller-chosen range.
pub trait RandomSource {
    /// Returns a value in `[0, bound)`, uniformly distributed when the
    /// source is backed by entropy.
    fn next_below(&mut self, bound: u64) -> (r: u64)
        requires
            bound > 0,
        ensures
            r < bound,
    ;
}

/// Relies on `rand::RngExt::random_range` over `0..bound`: a uniformly
/// distributed value in `[0, bound)`; the range is never empty here.
#[verifier::external_body]
fn entropy_below(bound: u64) -> (r: u64)
    requires
        bound > 0,
    ensures
        r < bound,
{
    rand::RngExt::random_range(&mut rand::rng(), 0..bound)
}

/// Draws from the thread-local entropy source; each run should construct
/// its own rather than share one across threads.
pub struct ThreadRandom {}

impl ThreadRandom {
    pub fn new() -> ThreadRandom {
        ThreadRandom {  }
    }
}

impl RandomSource for ThreadRandom {
    fn next_below(&mut self, bound: u64) -> (r: u64) {
        entropy_below(bound)
    }
}

/// Replays a fixed sequence of draws. Each stored draw is reduced modulo
/// the requested bound; once the sequence is exhausted, every draw is zero.
pub struct FixedRandom {
    draws: Vec<u64>,
    next: usize,
}

impl FixedRandom {
    /// The draws not yet consumed, oldest first.
    pub closed spec fn pending(self) -> Seq<u64> {
        if self.next <= self.draws.len() {
            self.draws@.skip(self.next as int)
        } else {
            Seq::empty()
        }
    }

    pub fn new(draws: Vec<u64>) -> (r: FixedRandom)
        ensures
            r.pending() == draws@,
    {
        let r = FixedRandom { draws, next: 0 };
        proof {
            assert(r.pending() =~= r.draws@);
        }
        r
    }

    /// How many stored draws have not been consumed yet.
    pub fn remaining(&self) -> (n: usize)
        ensures
            n == self.pending().len(),
    {
        if self.next <= self.draws.len() {
            self.draws.len() - self.next
        } else {
            0
        }
    }
}

impl RandomSource for FixedRandom {
    /// Replay is a pure function of the stored draws: the next pending
    /// draw, reduced modulo the bound, is returned and consumed; an
    /// exhausted source returns zero and stays exhausted.
    fn next_below(&mut self, bound: u64) -> (r: u64)
        ensures
            old(self).pending().len() > 0 ==> (r == old(self).pending()[0] % bound
                && final(self).pending() == old(self).pending().skip(1)),
            old(self).pending().len() == 0 ==> (r == 0 && final(self).pending() == old(
                self,
            ).pending()),
    {
        if self.next < self.draws.len() {
            let d = self.draws[self.next];
            self.next = self.next + 1;
            proof {
                assert(self.draws@.skip(self.next as int) =~= old(self).pending().skip(1));
            }
            d % bound
        } else {
            0
        }
    }
}

} // verus!
