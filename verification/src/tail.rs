//! Bounded tail capture of a byte stream.
//!
//! A collaborator drains a process's output and must keep only the most
//! recent window of bytes without unbounded accumulation. Two fixed-size
//! buffers are filled alternately: whenever the current buffer fills, it
//! becomes the previous one and a fresh buffer starts. At end of stream
//! the previous buffer and the current buffer's filled prefix, joined,
//! are the stream's tail — at least one window and less than two, or the
//! whole stream when it was shorter than one window.

use vstd::prelude::*;
use vstd::arithmetic::div_mod::{lemma_add_mod_noop, lemma_mod_self_0, lemma_small_mod};

verus! {

/// The double-buffered tail window of a byte stream.
pub struct TailBuffer {
    cap: usize,
    cur: Vec<u8>,
    prev: Vec<u8>,
    hist: Ghost<Seq<u8>>,
}

impl TailBuffer {
    /// Every byte fed so far, oldest first.
    pub closed spec fn history(self) -> Seq<u8> {
        self.hist@
    }

    /// The window size the buffer was created with.
    pub closed spec fn capacity(self) -> int {
        self.cap as int
    }

    /// The buffers hold exactly the history's tail: the current buffer is
    /// a strict prefix of a window, the previous buffer is one full
    /// window or empty, and whole windows only are ever discarded.
    pub closed spec fn wf(self) -> bool {
        &&& self.cap > 0
        &&& self.cur@.len() < self.cap
        &&& (self.prev@.len() == self.cap || self.prev@.len() == 0)
        &&& self.hist@.len() >= self.prev@.len() + self.cur@.len()
        &&& self.prev@ + self.cur@ == self.hist@.skip(
            self.hist@.len() - self.prev@.len() - self.cur@.len(),
        )
        &&& (self.prev@.len() == 0 ==> self.hist@.len() == self.cur@.len())
        &&& (self.prev@.len() == self.cap ==> (self.hist@.len() - self.cur@.len()) % (
        self.cap as int) == 0)
    }

    /// An empty window of `cap` bytes.
    pub fn new(cap: usize) -> (r: TailBuffer)
        requires
            cap > 0,
        ensures
            r.wf(),
            r.history() == Seq::<u8>::empty(),
            r.capacity() == cap,
    {
        let r = TailBuffer { cap, cur: Vec::new(), prev: Vec::new(), hist: Ghost(Seq::empty()) };
        proof {
            assert(r.prev@ + r.cur@ =~= r.hist@.skip(0));
        }
        r
    }

    /// Feeds one chunk of the stream into the window.
    pub fn push(&mut self, chunk: &[u8])
        requires
            old(self).wf(),
        ensures
            final(self).wf(),
            final(self).history() == old(self).history() + chunk@,
            final(self).capacity() == old(self).capacity(),
    {
        let mut i: usize = 0;
        proof {
            assert(self.hist@ + chunk@.take(0) =~= self.hist@);
        }
        while i < chunk.len()
            invariant
                self.wf(),
                i <= chunk@.len(),
                self.cap == old(self).cap,
                self.hist@ == old(self).hist@ + chunk@.take(i as int),
            decreases chunk@.len() - i,
        {
            let b = chunk[i];
            let ghost pre = *self;
            self.cur.push(b);
            self.hist = Ghost(self.hist@.push(b));
            proof {
                assert(self.hist@ =~= old(self).hist@ + chunk@.take(i + 1));
                let k = pre.hist@.len() - pre.prev@.len() - pre.cur@.len();
                assert((pre.prev@ + pre.cur@).push(b) =~= pre.prev@ + self.cur@);
                assert(pre.hist@.skip(k).push(b) =~= self.hist@.skip(k));
                assert(self.prev@ + self.cur@ == self.hist@.skip(
                    self.hist@.len() - self.prev@.len() - self.cur@.len(),
                ));
            }
            if self.cur.len() == self.cap {
                let ghost mid = *self;
                proof {
                    if mid.prev@.len() == mid.cap {
                        lemma_add_mod_noop(
                            mid.hist@.len() - mid.cur@.len(),
                            mid.cur@.len() as int,
                            mid.cap as int,
                        );
                        lemma_mod_self_0(mid.cap as int);
                        lemma_small_mod(0, mid.cap as nat);
                        assert(mid.hist@.len() as int % (mid.cap as int) == 0);
                    } else {
                        assert(mid.hist@.len() == mid.cur@.len());
                        lemma_mod_self_0(mid.cap as int);
                        assert(mid.hist@.len() as int % (mid.cap as int) == 0);
                    }
                }
                self.prev = dup_bytes(&self.cur);
                self.cur.clear();
                proof {
                    let k = mid.hist@.len() - mid.prev@.len() - mid.cap;
                    assert(self.prev@ + self.cur@ =~= mid.cur@);
                    assert(mid.prev@ + mid.cur@ == mid.hist@.skip(k));
                    assert(mid.cur@ =~= (mid.prev@ + mid.cur@).skip(mid.prev@.len() as int));
                    assert(mid.hist@.skip(k).skip(mid.prev@.len() as int) =~= mid.hist@.skip(
                        mid.hist@.len() - mid.cap,
                    ));
                    assert(self.prev@ + self.cur@ == self.hist@.skip(
                        self.hist@.len() - self.prev@.len() - self.cur@.len(),
                    ));
                    lemma_small_mod(0, mid.cap as nat);
                }
            }
            i = i + 1;
        }
        proof {
            assert(chunk@.take(chunk@.len() as int) =~= chunk@);
        }
    }

    /// Closes the stream and returns its tail: the whole stream when it
    /// was shorter than one window, otherwise between one and two
    /// windows' worth of its most recent bytes.
    pub fn finish(self) -> (r: Vec<u8>)
        requires
            self.wf(),
        ensures
            r@ == self.history().skip(self.history().len() - r@.len()),
            r@.len() == if self.history().len() < self.capacity() {
                self.history().len() as int
            } else {
                self.capacity() + self.history().len() as int % self.capacity()
            },
    {
        let ghost g = self;
        let mut r = self.prev;
        let mut c = self.cur;
        r.append(&mut c);
        proof {
            assert(r@ == g.prev@ + g.cur@);
            if g.prev@.len() == 0 {
                assert(g.hist@.len() == g.cur@.len());
                assert(g.hist@.len() < g.capacity());
            } else {
                assert(g.hist@.len() >= g.capacity());
                lemma_add_mod_noop(
                    g.hist@.len() - g.cur@.len(),
                    g.cur@.len() as int,
                    g.cap as int,
                );
                lemma_small_mod(g.cur@.len() as nat, g.cap as nat);
                lemma_small_mod((g.hist@.len() as int % (g.cap as int)) as nat, g.cap as nat);
                assert(g.hist@.len() as int % (g.cap as int) == g.cur@.len());
            }
        }
        r
    }
}

/// Copies a byte vector.
fn dup_bytes(v: &Vec<u8>) -> (r: Vec<u8>)
    ensures
        r@ == v@,
{
    let mut r: Vec<u8> = Vec::new();
    let mut i: usize = 0;
    while i < v.len()
        invariant
            i <= v@.len(),
            r@ == v@.take(i as int),
        decreases v@.len() - i,
    {
        r.push(v[i]);
        proof {
            assert(r@ =~= v@.take(i + 1));
        }
        i = i + 1;
    }
    proof {
        assert(v@.take(v@.len() as int) =~= v@);
    }
    r
}

} // verus!
