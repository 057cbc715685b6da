use vstd::prelude::*;

verus! {

/// Number of samples in the rolling energy window: one second at 16 kHz.
pub const WINDOW_LEN: usize = 16000;

/// Magnitude of one sample, as `i16::saturating_abs` gives it:
/// `i16::MIN` has no positive counterpart and maps to `i16::MAX`.
pub open spec fn magnitude(s: i16) -> nat {
    if s == i16::MIN {
        i16::MAX as nat
    } else if s < 0 {
        (-s) as nat
    } else {
        s as nat
    }
}

/// Exact (unbounded) sum of the magnitudes of `s`.
pub open spec fn magnitude_total(s: Seq<i16>) -> nat
    decreases s.len(),
{
    if s.len() == 0 {
        0
    } else {
        magnitude_total(s.drop_last()) + magnitude(s.last())
    }
}

/// The activation of a window: the sum of its magnitudes, saturated at `u32::MAX`.
pub open spec fn activation_of(s: Seq<i16>) -> u32 {
    if magnitude_total(s) > u32::MAX {
        u32::MAX
    } else {
        magnitude_total(s) as u32
    }
}

/// The window `w` after the samples `d` arrived: the `w.len()` most recent
/// samples of `w` followed by `d`.
pub open spec fn slide(w: Seq<i16>, d: Seq<i16>) -> Seq<i16> {
    (w + d).subrange(d.len() as int, (w.len() + d.len()) as int)
}

/// Position in the ring of the `k`-th oldest sample when the oldest sits at `idx`.
pub open spec fn ring_pos(idx: int, k: int) -> int {
    if idx + k < WINDOW_LEN {
        idx + k
    } else {
        idx + k - WINDOW_LEN
    }
}

/// Rolling one-second window of the most recent samples, kept in a circular
/// buffer whose cursor marks the oldest sample (and the next slot to write).
pub struct RingBuff {
    data: Vec<i16>,
    idx: usize,
}

impl View for RingBuff {
    type V = Seq<i16>;

    /// The window's samples, oldest first.
    closed spec fn view(&self) -> Seq<i16> {
        Seq::new(WINDOW_LEN as nat, |k: int| self.data@[ring_pos(self.idx as int, k)])
    }
}

proof fn lemma_slide_push(w: Seq<i16>, d: Seq<i16>, x: i16)
    requires
        w.len() > 0,
    ensures
        slide(w, d.push(x)) =~= slide(w, d).drop_first().push(x),
{
    assert((w + d.push(x)) =~= (w + d).push(x));
}

impl RingBuff {
    pub closed spec fn wf(&self) -> bool {
        &&& self.data@.len() == WINDOW_LEN
        &&& self.idx < WINDOW_LEN
    }

    /// A valid window holds exactly `WINDOW_LEN` samples.
    pub proof fn lemma_len(&self)
        requires
            self.wf(),
        ensures
            self@.len() == WINDOW_LEN,
    {
    }

    /// A silent window: every sample zero, cursor at the start.
    pub fn new() -> (r: RingBuff)
        ensures
            r.wf(),
            r@.len() == WINDOW_LEN,
            r@ == Seq::new(WINDOW_LEN as nat, |k: int| 0i16),
    {
        let r = RingBuff { data: vec![0i16; WINDOW_LEN], idx: 0 };
        assert(r@ =~= Seq::new(WINDOW_LEN as nat, |k: int| 0i16));
        r
    }

    fn push_sample(&mut self, s: i16)
        requires
            old(self).wf(),
        ensures
            final(self).wf(),
            final(self)@ == old(self)@.drop_first().push(s),
    {
        let ghost before = self@;
        self.data.set(self.idx, s);
        self.idx = if self.idx + 1 == WINDOW_LEN {
            0
        } else {
            self.idx + 1
        };
        assert(self@ =~= before.drop_first().push(s));
    }

    /// Writes `d` into the window, overwriting the oldest samples; a chunk
    /// longer than the window wraps around and only its tail remains.
    pub fn append(&mut self, d: &[i16])
        requires
            old(self).wf(),
        ensures
            final(self).wf(),
            final(self)@.len() == WINDOW_LEN,
            final(self)@ == slide(old(self)@, d@),
    {
        let ghost w0 = self@;
        assert(w0.len() == WINDOW_LEN);
        let mut d_idx: usize = 0;
        assert(slide(w0, d@.take(0)) =~= w0);
        while d_idx < d.len()
            invariant
                self.wf(),
                w0.len() == WINDOW_LEN,
                d_idx <= d@.len(),
                self@ == slide(w0, d@.take(d_idx as int)),
            decreases d@.len() - d_idx,
        {
            proof {
                lemma_slide_push(w0, d@.take(d_idx as int), d@[d_idx as int]);
                assert(d@.take(d_idx as int).push(d@[d_idx as int]) =~= d@.take(d_idx + 1));
            }
            self.push_sample(d[d_idx]);
            d_idx += 1;
        }
        assert(d@.take(d_idx as int) =~= d@);
    }

    /// The activation: the saturating sum of all sample magnitudes in the window.
    pub fn sum(&self) -> (r: u32)
        requires
            self.wf(),
        ensures
            r == activation_of(self@),
    {
        let mut acc: u32 = 0;
        let mut k: usize = 0;
        while k < WINDOW_LEN
            invariant
                self.wf(),
                k <= WINDOW_LEN,
                acc == activation_of(self@.take(k as int)),
            decreases WINDOW_LEN - k,
        {
            let pos: usize = if self.idx + k < WINDOW_LEN {
                self.idx + k
            } else {
                self.idx + k - WINDOW_LEN
            };
            let m = sample_magnitude(self.data[pos]);
            proof {
                assert(self@.take(k + 1).drop_last() =~= self@.take(k as int));
            }
            acc = acc.saturating_add(m);
            k += 1;
        }
        assert(self@.take(WINDOW_LEN as int) =~= self@);
        acc
    }
}

/// `i16::saturating_abs`, widened to `u32`.
pub fn sample_magnitude(s: i16) -> (r: u32)
    ensures
        r as nat == magnitude(s),
{
    if s == i16::MIN {
        i16::MAX as u32
    } else if s < 0 {
        (-s) as u32
    } else {
        s as u32
    }
}

} // verus!
