use std::collections::VecDeque;
use vstd::prelude::*;

verus! {

/// Capacity of the pre-roll buffer: one second at 16 kHz.
pub const LOOKBACK_LEN: usize = 16000;

/// The `n` most recent (last) elements of `s`, or all of `s` if it is shorter.
pub open spec fn keep_last(s: Seq<i16>, n: nat) -> Seq<i16> {
    if s.len() <= n {
        s
    } else {
        s.subrange(s.len() - n, s.len() as int)
    }
}

/// The samples of `chunks`, one after another.
pub open spec fn concat(chunks: Seq<Seq<i16>>) -> Seq<i16>
    decreases chunks.len(),
{
    if chunks.len() == 0 {
        Seq::empty()
    } else {
        concat(chunks.drop_last()) + chunks.last()
    }
}

/// The contents of a buffer holding `b` after each of `chunks` was pushed.
pub open spec fn after_pushes(b: Seq<i16>, chunks: Seq<Seq<i16>>) -> Seq<i16>
    decreases chunks.len(),
{
    if chunks.len() == 0 {
        b
    } else {
        keep_last(after_pushes(b, chunks.drop_last()) + chunks.last(), LOOKBACK_LEN as nat)
    }
}

/// Bounded FIFO of the most recent silent samples, oldest first.
pub struct LookbackBuffer {
    samples: VecDeque<i16>,
}

impl View for LookbackBuffer {
    type V = Seq<i16>;

    closed spec fn view(&self) -> Seq<i16> {
        self.samples@
    }
}

impl LookbackBuffer {
    pub closed spec fn wf(&self) -> bool {
        self.samples@.len() <= LOOKBACK_LEN
    }

    pub fn new() -> (r: LookbackBuffer)
        ensures
            r.wf(),
            r@ == Seq::<i16>::empty(),
    {
        LookbackBuffer { samples: VecDeque::with_capacity(LOOKBACK_LEN) }
    }

    pub fn len(&self) -> (r: usize)
        ensures
            r == self@.len(),
    {
        self.samples.len()
    }

    /// Appends `chunk`, first dropping the oldest samples so that no more than
    /// `LOOKBACK_LEN` remain.
    pub fn push(&mut self, chunk: &[i16])
        requires
            old(self).wf(),
        ensures
            final(self).wf(),
            final(self)@ == keep_last(old(self)@ + chunk@, LOOKBACK_LEN as nat),
    {
        let ghost all = self@ + chunk@;
        // Of a chunk at least as long as the buffer only its tail is kept.
        let start: usize = if chunk.len() > LOOKBACK_LEN {
            chunk.len() - LOOKBACK_LEN
        } else {
            0
        };
        let to_drop: usize = (self.samples.len() + (chunk.len() - start)).saturating_sub(
            LOOKBACK_LEN,
        );
        let ghost kept = keep_last(all, LOOKBACK_LEN as nat);
        let mut dropped: usize = 0;
        while dropped < to_drop
            invariant
                dropped <= to_drop <= old(self)@.len(),
                self.samples@ == old(self)@.subrange(dropped as int, old(self)@.len() as int),
            decreases to_drop - dropped,
        {
            self.samples.pop_front();
            dropped += 1;
        }
        let mut i: usize = start;
        while i < chunk.len()
            invariant
                start <= i <= chunk@.len(),
                self.samples@ == old(self)@.subrange(to_drop as int, old(self)@.len() as int)
                    + chunk@.subrange(start as int, i as int),
            decreases chunk@.len() - i,
        {
            self.samples.push_back(chunk[i]);
            proof {
                assert(chunk@.subrange(start as int, i + 1) =~= chunk@.subrange(
                    start as int,
                    i as int,
                ).push(chunk@[i as int]));
            }
            i += 1;
        }
        assert(self.samples@ =~= kept);
    }

    /// Removes and returns every buffered sample, oldest first.
    pub fn drain(&mut self) -> (r: Vec<i16>)
        requires
            old(self).wf(),
        ensures
            final(self).wf(),
            r@ == old(self)@,
            final(self)@ == Seq::<i16>::empty(),
    {
        let mut out: Vec<i16> = Vec::with_capacity(self.samples.len());
        while self.samples.len() > 0
            invariant
                out@ + self.samples@ == old(self)@,
            decreases self.samples@.len(),
        {
            if let Some(s) = self.samples.pop_front() {
                out.push(s);
                assert(out@ + self.samples@ =~= old(self)@);
            }
        }
        assert(out@ =~= out@ + self.samples@);
        out
    }
}

/// Samples pushed into an empty buffer, as long as they fit in it together,
/// are drained back exactly, in the order they were pushed.
pub proof fn lemma_push_drain_round_trip(chunks: Seq<Seq<i16>>)
    requires
        concat(chunks).len() <= LOOKBACK_LEN,
    ensures
        after_pushes(Seq::empty(), chunks) == concat(chunks),
    decreases chunks.len(),
{
    if chunks.len() > 0 {
        let init = chunks.drop_last();
        assert(concat(init).len() <= concat(chunks).len());
        lemma_push_drain_round_trip(init);
    }
}

} // verus!
