use vstd::prelude::*;

verus! {

/// Sample rate the recogniser expects, in Hz.
pub const SAMPLE_RATE: u32 = 16000;

/// Channel count the recogniser expects: mono.
pub const CHANNELS: u16 = 1;

/// Sample encodings an audio device may offer.
#[derive(PartialEq, Eq, Structural, Clone, Copy, Debug)]
pub enum SampleFormat {
    I16,
    U16,
    F32,
}

/// A range of stream configurations offered by an audio device.
#[derive(PartialEq, Eq, Structural, Clone, Copy, Debug)]
pub struct StreamConfigRange {
    pub channels: u16,
    pub sample_format: SampleFormat,
    pub min_sample_rate: u32,
    pub max_sample_rate: u32,
}

/// Whether a configuration range can carry mono 16-bit audio at 16 kHz.
pub open spec fn fits(c: StreamConfigRange) -> bool {
    &&& c.channels == CHANNELS
    &&& c.sample_format == SampleFormat::I16
    &&& c.max_sample_rate >= SAMPLE_RATE
    &&& c.min_sample_rate <= SAMPLE_RATE
}

pub fn fits_format_requirements(config: &StreamConfigRange) -> (r: bool)
    ensures
        r == fits(*config),
{
    config.channels == CHANNELS && config.sample_format == SampleFormat::I16
        && config.max_sample_rate >= SAMPLE_RATE && config.min_sample_rate <= SAMPLE_RATE
}

/// The last configuration of the list that fits, if any does.
pub fn choose_config(configs: &Vec<StreamConfigRange>) -> (r: Option<usize>)
    ensures
        r is None <==> forall|i: int| 0 <= i < configs@.len() ==> !fits(#[trigger] configs@[i]),
        r matches Some(i) ==> {
            &&& i < configs@.len()
            &&& fits(configs@[i as int])
            &&& forall|j: int| i < j < configs@.len() ==> !fits(#[trigger] configs@[j])
        },
{
    let mut i: usize = configs.len();
    while i > 0
        invariant
            i <= configs@.len(),
            forall|j: int| i <= j < configs@.len() ==> !fits(#[trigger] configs@[j]),
        decreases i,
    {
        if fits_format_requirements(&configs[i - 1]) {
            return Some(i - 1);
        }
        i -= 1;
    }
    None
}

/// Abstract state of a playback: the samples, how many were played, and
/// whether the output has run past the end.
pub struct CursorView {
    pub samples: Seq<i16>,
    pub pos: nat,
    pub finished: bool,
}

/// What an output buffer of `n` slots receives from a playback in state `c`:
/// the next samples while there are any, silence after.
pub open spec fn filled(c: CursorView, n: nat) -> Seq<i16> {
    Seq::new(
        n,
        |k: int|
            if !c.finished && c.pos + k < c.samples.len() {
                c.samples[c.pos + k]
            } else {
                0i16
            },
    )
}

/// The playback state after an output buffer of `n` slots was filled.
pub open spec fn after_fill(c: CursorView, n: nat) -> CursorView {
    if c.finished {
        c
    } else if c.pos + n <= c.samples.len() {
        CursorView { pos: c.pos + n, ..c }
    } else {
        CursorView { pos: c.samples.len(), finished: true, ..c }
    }
}

/// Feeds a fixed buffer of samples to an audio output, one callback buffer
/// at a time, and notes when the samples have run out.
pub struct PlaybackCursor {
    samples: Vec<i16>,
    pos: usize,
    finished: bool,
}

impl View for PlaybackCursor {
    type V = CursorView;

    closed spec fn view(&self) -> CursorView {
        CursorView { samples: self.samples@, pos: self.pos as nat, finished: self.finished }
    }
}

impl PlaybackCursor {
    pub closed spec fn wf(&self) -> bool {
        &&& self.pos <= self.samples@.len()
        &&& self.finished ==> self.pos == self.samples@.len()
    }

    pub fn new(samples: Vec<i16>) -> (r: PlaybackCursor)
        ensures
            r.wf(),
            r@ == (CursorView { samples: samples@, pos: 0, finished: false }),
    {
        PlaybackCursor { samples, pos: 0, finished: false }
    }

    /// Whether the output has asked for more samples than there were.
    pub fn is_finished(&self) -> (r: bool)
        ensures
            r == self@.finished,
    {
        self.finished
    }

    /// Fills one output buffer: the next samples, then silence once they run
    /// out, at which point the playback counts as finished.
    pub fn fill(&mut self, out: &mut [i16])
        requires
            old(self).wf(),
        ensures
            final(self).wf(),
            final(out)@ == filled(old(self)@, old(out)@.len()),
            final(self)@ == after_fill(old(self)@, old(out)@.len()),
    {
        let ghost c0 = self@;
        let n = out.len();
        let mut k: usize = 0;
        while k < n
            invariant
                self.wf(),
                n == out@.len(),
                k <= n,
                self.samples@ == c0.samples,
                self.finished ==> self.pos == self.samples@.len(),
                self@ == (if c0.finished {
                    c0
                } else {
                    after_fill(c0, k as nat)
                }),
                forall|j: int| 0 <= j < k ==> out@[j] == #[trigger] filled(c0, n as nat)[j],
            decreases n - k,
        {
            if self.finished {
                out[k] = 0;
            } else if self.pos < self.samples.len() {
                out[k] = self.samples[self.pos];
                self.pos += 1;
            } else {
                out[k] = 0;
                self.finished = true;
            }
            k += 1;
        }
        assert(out@ =~= filled(c0, n as nat));
    }
}

/// What `play_raw` sets up: the device configuration to open and the cursor
/// its output callback drains.
pub struct Playback {
    pub config: usize,
    pub cursor: PlaybackCursor,
}

/// Prepares the playback of raw mono samples on a device offering `configs`:
/// the last fitting configuration, and a cursor at the first sample; `None`
/// when no configuration fits.
pub fn play_raw(data: Vec<i16>, configs: &Vec<StreamConfigRange>) -> (r: Option<Playback>)
    ensures
        r is None <==> forall|i: int| 0 <= i < configs@.len() ==> !fits(#[trigger] configs@[i]),
        r matches Some(p) ==> {
            &&& p.config < configs@.len()
            &&& fits(configs@[p.config as int])
            &&& forall|j: int| p.config < j < configs@.len() ==> !fits(#[trigger] configs@[j])
            &&& p.cursor.wf()
            &&& p.cursor@ == (CursorView { samples: data@, pos: 0, finished: false })
        },
{
    match choose_config(configs) {
        Some(config) => Some(Playback { config, cursor: PlaybackCursor::new(data) }),
        None => None,
    }
}

} // verus!
