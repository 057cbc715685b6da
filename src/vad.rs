use crate::lookback::{concat, keep_last, LookbackBuffer, LOOKBACK_LEN};
use crate::window::{activation_of, slide, RingBuff, WINDOW_LEN};
use vstd::prelude::*;

verus! {

/// Activation above which a silent stream starts an utterance.
pub const START_THRESHOLD: u32 = 70000;

/// Activation above which an utterance in progress continues.
pub const CONTINUE_THRESHOLD: u32 = 40000;

/// One step of the segmented stream: an utterance opens with `Start`, goes on
/// with zero or more `Data`, and closes with `End`.
#[derive(Clone, Debug, PartialEq, Eq)]
pub enum VoiceEvent {
    Start(Vec<i16>),
    Data(Vec<i16>),
    End,
}

/// What a `VoiceEvent` carries, with its samples as a sequence.
pub enum EventView {
    Start(Seq<i16>),
    Data(Seq<i16>),
    End,
}

impl View for VoiceEvent {
    type V = EventView;

    open spec fn view(&self) -> EventView {
        match self {
            VoiceEvent::Start(v) => EventView::Start(v@),
            VoiceEvent::Data(v) => EventView::Data(v@),
            VoiceEvent::End => EventView::End,
        }
    }
}

/// Whether the stream counts as speech after a chunk, given whether it did
/// before: entering needs more energy than staying.
pub open spec fn speaking_after(was_speaking: bool, activation: u32) -> bool {
    if was_speaking {
        activation > CONTINUE_THRESHOLD
    } else {
        activation > START_THRESHOLD
    }
}

/// Outcome of the hysteresis decision for one chunk.
pub struct Decision {
    pub speaking: bool,
    pub entered: bool,
    pub exited: bool,
}

/// The two-threshold hysteresis detector.
pub fn decide(was_speaking: bool, activation: u32) -> (r: Decision)
    ensures
        r.speaking == speaking_after(was_speaking, activation),
        r.entered == (!was_speaking && r.speaking),
        r.exited == (was_speaking && !r.speaking),
{
    let speaking = if was_speaking {
        activation > CONTINUE_THRESHOLD
    } else {
        activation > START_THRESHOLD
    };
    Decision { speaking, entered: !was_speaking && speaking, exited: was_speaking && !speaking }
}

/// Abstract state of the segmenter.
pub struct SegState {
    pub speaking: bool,
    pub pending_end: bool,
    pub window: Seq<i16>,
    pub lookback: Seq<i16>,
}

/// The state of a segmenter that has seen no audio.
pub open spec fn initial_state() -> SegState {
    SegState {
        speaking: false,
        pending_end: false,
        window: Seq::new(WINDOW_LEN as nat, |k: int| 0i16),
        lookback: Seq::empty(),
    }
}

/// The invariant of every reachable state.
pub open spec fn state_inv(s: SegState) -> bool {
    &&& s.window.len() == WINDOW_LEN
    &&& s.lookback.len() <= LOOKBACK_LEN
    &&& s.speaking ==> s.lookback.len() == 0
    &&& s.pending_end ==> !s.speaking
}

/// Processing of one chunk by a segmenter with no `End` pending: a voiced
/// chunk is emitted with the pre-roll in front of it; a silent one is kept as
/// pre-roll, and the chunk that ends an utterance leaves an `End` pending.
pub open spec fn absorb(s: SegState, chunk: Seq<i16>) -> (SegState, Option<EventView>) {
    let window = slide(s.window, chunk);
    let now = speaking_after(s.speaking, activation_of(window));
    if now {
        (
            SegState { speaking: true, pending_end: false, window, lookback: Seq::empty() },
            Some(
                if s.speaking {
                    EventView::Data(s.lookback + chunk)
                } else {
                    EventView::Start(s.lookback + chunk)
                },
            ),
        )
    } else {
        (
            SegState {
                speaking: false,
                pending_end: s.speaking,
                window,
                lookback: keep_last(s.lookback + chunk, LOOKBACK_LEN as nat),
            },
            None,
        )
    }
}

/// The events that are due before the next chunk is read: `End` if one is pending.
pub open spec fn flush(s: SegState) -> Seq<EventView> {
    if s.pending_end {
        seq![EventView::End]
    } else {
        Seq::empty()
    }
}

/// The state once a pending `End` has been handed out.
pub open spec fn cleared(s: SegState) -> SegState {
    SegState { pending_end: false, ..s }
}

/// Events produced while one more chunk is read: a pending `End` first, then
/// whatever the chunk itself yields.
pub open spec fn step(s: SegState, chunk: Seq<i16>) -> (SegState, Seq<EventView>) {
    let (next, ev) = absorb(cleared(s), chunk);
    (
        next,
        flush(s) + match ev {
            Some(e) => seq![e],
            None => Seq::empty(),
        },
    )
}

/// State and events after reading `chunks` in order, before a final flush.
pub open spec fn run(s: SegState, chunks: Seq<Seq<i16>>) -> (SegState, Seq<EventView>)
    decreases chunks.len(),
{
    if chunks.len() == 0 {
        (s, Seq::empty())
    } else {
        let (mid, first) = run(s, chunks.drop_last());
        let (last, more) = step(mid, chunks.last());
        (last, first + more)
    }
}

/// All events of a finite stream: those of every chunk, then a pending `End`.
pub open spec fn stream_events(chunks: Seq<Seq<i16>>) -> Seq<EventView> {
    let (s, events) = run(initial_state(), chunks);
    events + flush(s)
}

/// Energy-based voice-activity segmenter: turns audio chunks into voice events.
pub struct VadFilter {
    was_speaking: bool,
    transitioned_to_stopped: bool,
    state: RingBuff,
    last_few_samples: LookbackBuffer,
}

impl View for VadFilter {
    type V = SegState;

    closed spec fn view(&self) -> SegState {
        SegState {
            speaking: self.was_speaking,
            pending_end: self.transitioned_to_stopped,
            window: self.state@,
            lookback: self.last_few_samples@,
        }
    }
}

impl VadFilter {
    pub closed spec fn wf(&self) -> bool {
        &&& self.state.wf()
        &&& self.last_few_samples.wf()
        &&& state_inv(self@)
    }

    /// The abstract state of a valid segmenter satisfies the invariant: in
    /// particular the pre-roll is empty while speaking.
    pub proof fn lemma_inv(&self)
        requires
            self.wf(),
        ensures
            state_inv(self@),
    {
    }

    /// A segmenter that has seen no audio: silent window, empty pre-roll.
    pub fn new() -> (r: VadFilter)
        ensures
            r.wf(),
            state_inv(r@),
            r@ == initial_state(),
    {
        VadFilter {
            was_speaking: false,
            transitioned_to_stopped: false,
            state: RingBuff::new(),
            last_few_samples: LookbackBuffer::new(),
        }
    }

    /// Whether an `End` is due before the next chunk is read.
    pub fn has_pending_end(&self) -> (r: bool)
        ensures
            r == self@.pending_end,
    {
        self.transitioned_to_stopped
    }

    /// Hands out the pending `End`, if there is one.
    pub fn take_pending_end(&mut self) -> (r: Option<VoiceEvent>)
        requires
            old(self).wf(),
        ensures
            final(self).wf(),
            state_inv(final(self)@),
            final(self)@ == cleared(old(self)@),
            old(self)@.pending_end ==> r matches Some(VoiceEvent::End),
            !old(self)@.pending_end ==> r is None,
    {
        if self.transitioned_to_stopped {
            self.transitioned_to_stopped = false;
            Some(VoiceEvent::End)
        } else {
            None
        }
    }

    /// Reads one chunk. A voiced chunk comes back as `Start` or `Data`, with the
    /// buffered pre-roll in front of it; a silent chunk is absorbed.
    pub fn feed(&mut self, chunk: Vec<i16>) -> (r: Option<VoiceEvent>)
        requires
            old(self).wf(),
            !old(self)@.pending_end,
        ensures
            final(self).wf(),
            state_inv(final(self)@),
            final(self)@ == absorb(old(self)@, chunk@).0,
            match r {
                Some(e) => absorb(old(self)@, chunk@).1 == Some(e@),
                None => absorb(old(self)@, chunk@).1 is None,
            },
    {
        let mut chunk = chunk;
        self.state.append(chunk.as_slice());
        let activation = self.state.sum();
        let d = decide(self.was_speaking, activation);
        self.was_speaking = d.speaking;
        self.transitioned_to_stopped = d.exited;
        if d.speaking {
            let mut v = self.last_few_samples.drain();
            v.append(&mut chunk);
            if d.entered {
                Some(VoiceEvent::Start(v))
            } else {
                Some(VoiceEvent::Data(v))
            }
        } else {
            self.last_few_samples.push(chunk.as_slice());
            None
        }
    }
}

/// The chunks of a finite stream, as sequences.
pub open spec fn chunks_view(chunks: Seq<Vec<i16>>) -> Seq<Seq<i16>> {
    chunks.map_values(|c: Vec<i16>| c@)
}

/// The events of a list, as views.
pub open spec fn events_view(events: Seq<VoiceEvent>) -> Seq<EventView> {
    events.map_values(|e: VoiceEvent| e@)
}

impl VoiceEvent {
    /// Segments a finite audio stream: every event in order, including the
    /// `End` still pending after the last chunk.
    pub fn iter_from_audio(audio_input: Vec<Vec<i16>>) -> (r: Vec<VoiceEvent>)
        ensures
            events_view(r@) == stream_events(chunks_view(audio_input@)),
    {
        let ghost chunks = chunks_view(audio_input@);
        let mut filter = VadFilter::new();
        let mut events: Vec<VoiceEvent> = Vec::new();
        let mut i: usize = 0;
        assert(chunks.take(0) =~= Seq::<Seq<i16>>::empty());
        assert(events_view(events@) =~= Seq::<EventView>::empty());
        while i < audio_input.len()
            invariant
                filter.wf(),
                i <= audio_input@.len(),
                chunks == chunks_view(audio_input@),
                (filter@, events_view(events@)) == run(initial_state(), chunks.take(i as int)),
            decreases audio_input@.len() - i,
        {
            let ghost before = events_view(events@);
            let ghost s = filter@;
            proof {
                assert(chunks.take(i + 1).drop_last() =~= chunks.take(i as int));
            }
            if let Some(end) = filter.take_pending_end() {
                events.push(end);
            }
            assert(events_view(events@) =~= before + flush(s));
            let ghost mid = events_view(events@);
            let chunk = audio_input[i].clone();
            assert(chunk@ =~= chunks[i as int]);
            if let Some(e) = filter.feed(chunk) {
                events.push(e);
                assert(events_view(events@) =~= mid + seq![e@]);
            } else {
                assert(events_view(events@) =~= mid + Seq::<EventView>::empty());
            }
            i += 1;
        }
        assert(chunks.take(i as int) =~= chunks);
        let ghost before = events_view(events@);
        let ghost s = filter@;
        if let Some(end) = filter.take_pending_end() {
            events.push(end);
        }
        assert(events_view(events@) =~= before + flush(s));
        events
    }
}

/// The window `w` after `chunks` arrived in order.
pub open spec fn window_after(w: Seq<i16>, chunks: Seq<Seq<i16>>) -> Seq<i16>
    decreases chunks.len(),
{
    if chunks.len() == 0 {
        w
    } else {
        slide(window_after(w, chunks.drop_last()), chunks.last())
    }
}

proof fn lemma_keep_last_twice(a: Seq<i16>, c: Seq<i16>, n: nat)
    ensures
        keep_last(keep_last(a, n) + c, n) == keep_last(a + c, n),
{
    if a.len() > n {
        let k = keep_last(a, n);
        assert(k + c =~= (a + c).subrange(a.len() - n, (a + c).len() as int));
        assert(keep_last(k + c, n) =~= keep_last(a + c, n));
    }
}

proof fn lemma_quiet_run(s: SegState, chunks: Seq<Seq<i16>>)
    requires
        state_inv(s),
        !s.speaking,
        !s.pending_end,
        forall|i: int|
            0 <= i < chunks.len() ==> activation_of(
                #[trigger] window_after(s.window, chunks.take(i + 1)),
            ) <= START_THRESHOLD,
    ensures
        run(s, chunks).1 == Seq::<EventView>::empty(),
        !run(s, chunks).0.speaking,
        !run(s, chunks).0.pending_end,
        run(s, chunks).0.window == window_after(s.window, chunks),
        run(s, chunks).0.lookback == keep_last(s.lookback + concat(chunks), LOOKBACK_LEN as nat),
    decreases chunks.len(),
{
    if chunks.len() == 0 {
        assert(s.lookback + concat(chunks) =~= s.lookback);
    } else {
        let init = chunks.drop_last();
        assert forall|i: int| 0 <= i < init.len() implies activation_of(
            #[trigger] window_after(s.window, init.take(i + 1)),
        ) <= START_THRESHOLD by {
            assert(init.take(i + 1) =~= chunks.take(i + 1));
        }
        lemma_quiet_run(s, init);
        let mid = run(s, init).0;
        assert(chunks.take(chunks.len() as int) =~= chunks);
        assert(window_after(s.window, chunks.take(chunks.len() - 1 + 1)) == window_after(
            s.window,
            chunks,
        ));
        lemma_keep_last_twice(s.lookback + concat(init), chunks.last(), LOOKBACK_LEN as nat);
        assert(s.lookback + concat(init) + chunks.last() =~= s.lookback + concat(chunks));
        assert(run(s, chunks).1 =~= Seq::<EventView>::empty());
    }
}

/// While the activation never exceeds the start threshold, a silent
/// segmenter produces no event at all, not even at the end of the stream; in
/// particular a whole stream segmented from the start yields nothing.
pub proof fn lemma_quiet_stream_is_silent(s: SegState, chunks: Seq<Seq<i16>>)
    requires
        state_inv(s),
        !s.speaking,
        !s.pending_end,
        forall|i: int|
            0 <= i < chunks.len() ==> activation_of(
                #[trigger] window_after(s.window, chunks.take(i + 1)),
            ) <= START_THRESHOLD,
    ensures
        run(s, chunks).1 + flush(run(s, chunks).0) == Seq::<EventView>::empty(),
        s == initial_state() ==> stream_events(chunks) == Seq::<EventView>::empty(),
{
    lemma_quiet_run(s, chunks);
    assert(run(s, chunks).1 + flush(run(s, chunks).0) =~= Seq::<EventView>::empty());
}

/// During silence the pre-roll holds exactly the most recent silent samples,
/// never more than `LOOKBACK_LEN` of them.
pub proof fn lemma_silence_keeps_recent(s: SegState, chunks: Seq<Seq<i16>>)
    requires
        state_inv(s),
        !s.speaking,
        !s.pending_end,
        forall|i: int|
            0 <= i < chunks.len() ==> activation_of(
                #[trigger] window_after(s.window, chunks.take(i + 1)),
            ) <= START_THRESHOLD,
    ensures
        run(s, chunks).0.lookback == keep_last(s.lookback + concat(chunks), LOOKBACK_LEN as nat),
        run(s, chunks).0.lookback.len() <= LOOKBACK_LEN,
{
    lemma_quiet_run(s, chunks);
}

/// Silent chunks that fit in the pre-roll buffer together, followed by a chunk
/// that lifts the activation above the start threshold, come out as one
/// `Start` carrying all of those samples in order.
pub proof fn lemma_pre_roll_round_trip(s: SegState, chunks: Seq<Seq<i16>>, onset: Seq<i16>)
    requires
        state_inv(s),
        !s.speaking,
        !s.pending_end,
        s.lookback.len() == 0,
        concat(chunks).len() <= LOOKBACK_LEN,
        forall|i: int|
            0 <= i < chunks.len() ==> activation_of(
                #[trigger] window_after(s.window, chunks.take(i + 1)),
            ) <= START_THRESHOLD,
        activation_of(slide(window_after(s.window, chunks), onset)) > START_THRESHOLD,
    ensures
        run(s, chunks).1 + step(run(s, chunks).0, onset).1 == seq![
            EventView::Start(concat(chunks) + onset),
        ],
        step(run(s, chunks).0, onset).0.lookback == Seq::<i16>::empty(),
{
    lemma_quiet_run(s, chunks);
    assert(s.lookback + concat(chunks) =~= concat(chunks));
    let mid = run(s, chunks).0;
    lemma_run_inv(s, chunks);
    lemma_onset(mid, onset);
    assert(run(s, chunks).1 + step(mid, onset).1 =~= seq![
        EventView::Start(concat(chunks) + onset),
    ]);
}

/// Every state reached from a valid one is valid; in particular the pre-roll
/// never holds more than `LOOKBACK_LEN` samples.
pub proof fn lemma_run_inv(s: SegState, chunks: Seq<Seq<i16>>)
    requires
        state_inv(s),
    ensures
        state_inv(run(s, chunks).0),
    decreases chunks.len(),
{
    if chunks.len() > 0 {
        lemma_run_inv(s, chunks.drop_last());
    }
}

/// A chunk that lifts a silent stream above the start threshold yields, after
/// an `End` still owed to an earlier utterance, a `Start` carrying the
/// pre-roll followed by the chunk; the pre-roll is then empty.
pub proof fn lemma_onset(s: SegState, chunk: Seq<i16>)
    requires
        state_inv(s),
        !s.speaking,
        activation_of(slide(s.window, chunk)) > START_THRESHOLD,
    ensures
        step(s, chunk).1 == flush(s) + seq![EventView::Start(s.lookback + chunk)],
        step(s, chunk).0.speaking,
        step(s, chunk).0.lookback == Seq::<i16>::empty(),
{
}

/// While speaking, a chunk that keeps the activation above the continue
/// threshold yields exactly one `Data` event carrying that chunk.
pub proof fn lemma_sustain(s: SegState, chunk: Seq<i16>)
    requires
        state_inv(s),
        s.speaking,
        activation_of(slide(s.window, chunk)) > CONTINUE_THRESHOLD,
    ensures
        step(s, chunk).1 == seq![EventView::Data(chunk)],
        step(s, chunk).0.speaking,
{
    assert(s.lookback + chunk =~= chunk);
    assert(step(s, chunk).1 =~= seq![EventView::Data(chunk)]);
}

/// While speaking, a chunk that drops the activation to the continue
/// threshold or below yields no event itself; the next event is `End`,
/// whether another chunk follows or the stream stops.
pub proof fn lemma_release(s: SegState, chunk: Seq<i16>, next: Seq<i16>)
    requires
        state_inv(s),
        s.speaking,
        activation_of(slide(s.window, chunk)) <= CONTINUE_THRESHOLD,
    ensures
        step(s, chunk).1 == Seq::<EventView>::empty(),
        flush(step(s, chunk).0) == seq![EventView::End],
        step(step(s, chunk).0, next).1.len() >= 1,
        step(step(s, chunk).0, next).1[0] == EventView::End,
{
    assert(step(s, chunk).1 =~= Seq::<EventView>::empty());
}

} // verus!
