use crate::vad::{EventView, VoiceEvent};
use vstd::prelude::*;

verus! {

/// A streaming speech decoder holding one live session at a time.
///
/// Its model: the audio fed to the live session, the audio of every finished
/// session, and the text each finished session returned, in order. A verified
/// implementation defines the three model functions over its own state; the
/// closed defaults only let implementations written outside verified code
/// compile, and tell a caller nothing.
pub trait Recognizer {
    /// Audio fed to the live session so far.
    closed spec fn session_audio(&self) -> Seq<i16> {
        Seq::empty()
    }

    /// Audio of each finished session, oldest first.
    closed spec fn finished(&self) -> Seq<Seq<i16>> {
        Seq::empty()
    }

    /// Text returned by each finished session, oldest first.
    closed spec fn texts(&self) -> Seq<Seq<char>> {
        Seq::empty()
    }

    /// Finishes the current session, returns its text, and opens a fresh
    /// session for the next utterance.
    fn recognize(&mut self) -> (r: String)
        ensures
            final(self).session_audio() == Seq::<i16>::empty(),
            final(self).finished() == old(self).finished().push(old(self).session_audio()),
            final(self).texts() == old(self).texts().push(r@),
    ;

    /// Feeds audio to the current session.
    fn feed(&mut self, data: &[i16])
        ensures
            final(self).session_audio() == old(self).session_audio() + data@,
            final(self).finished() == old(self).finished(),
            final(self).texts() == old(self).texts(),
    ;
}

/// The text of a finished session, if it is worth emitting: empty decodes are
/// dropped.
pub fn committed_text(text: String) -> (r: Option<String>)
    ensures
        text@.len() == 0 ==> r is None,
        text@.len() > 0 ==> r == Some(text),
{
    if text.as_str().is_empty() {
        None
    } else {
        Some(text)
    }
}

/// What the recognizer has been given after `events`, starting from a live
/// session holding `live`: the audio of the session still open, and the audio
/// of each session that an `End` finished.
pub open spec fn assembled(live: Seq<i16>, events: Seq<EventView>) -> (Seq<i16>, Seq<Seq<i16>>)
    decreases events.len(),
{
    if events.len() == 0 {
        (live, Seq::empty())
    } else {
        let (open, done) = assembled(live, events.drop_last());
        match events.last() {
            EventView::Start(c) => (open + c, done),
            EventView::Data(c) => (open + c, done),
            EventView::End => (Seq::empty(), done.push(open)),
        }
    }
}

/// The nonempty texts of `texts`, in order.
pub open spec fn nonempty_texts(texts: Seq<Seq<char>>) -> Seq<Seq<char>>
    decreases texts.len(),
{
    if texts.len() == 0 {
        Seq::empty()
    } else if texts.last().len() == 0 {
        nonempty_texts(texts.drop_last())
    } else {
        nonempty_texts(texts.drop_last()).push(texts.last())
    }
}

/// The events of a list, as views.
pub open spec fn events_of(events: Seq<VoiceEvent>) -> Seq<EventView> {
    events.map_values(|e: VoiceEvent| e@)
}

/// The strings of a list, as character sequences.
pub open spec fn strings_of(strings: Seq<String>) -> Seq<Seq<char>> {
    strings.map_values(|s: String| s@)
}

/// Hands one voice event to `recognizer`: the audio of `Start` and `Data` is
/// fed to the live session; `End` finishes that session once and yields its
/// text unless that is empty.
pub fn handle_event<R: Recognizer>(recognizer: &mut R, event: &VoiceEvent) -> (r: Option<String>)
    ensures
        match event@ {
            EventView::Start(c) => {
                &&& final(recognizer).session_audio() == old(recognizer).session_audio() + c
                &&& final(recognizer).finished() == old(recognizer).finished()
                &&& final(recognizer).texts() == old(recognizer).texts()
                &&& r is None
            },
            EventView::Data(c) => {
                &&& final(recognizer).session_audio() == old(recognizer).session_audio() + c
                &&& final(recognizer).finished() == old(recognizer).finished()
                &&& final(recognizer).texts() == old(recognizer).texts()
                &&& r is None
            },
            EventView::End => {
                &&& final(recognizer).session_audio() == Seq::<i16>::empty()
                &&& final(recognizer).finished() == old(recognizer).finished().push(
                    old(recognizer).session_audio(),
                )
                &&& final(recognizer).texts().len() == old(recognizer).texts().len() + 1
                &&& final(recognizer).texts().drop_last() == old(recognizer).texts()
                &&& (r is None <==> final(recognizer).texts().last().len() == 0)
                &&& (r matches Some(t) ==> t@ == final(recognizer).texts().last())
            },
        },
{
    match event {
        VoiceEvent::Start(data) => {
            recognizer.feed(data.as_slice());
            None
        },
        VoiceEvent::Data(data) => {
            recognizer.feed(data.as_slice());
            None
        },
        VoiceEvent::End => {
            let text = recognizer.recognize();
            proof {
                assert(recognizer.texts().drop_last() =~= old(recognizer).texts());
            }
            committed_text(text)
        },
    }
}

/// Drives one recognition session per utterance over a stream of voice events.
pub struct RecognizedStrings<R: Recognizer> {
    recognizer: R,
}

impl<R: Recognizer> RecognizedStrings<R> {
    /// The recognizer that decodes the utterances.
    pub closed spec fn engine(&self) -> R {
        self.recognizer
    }

    pub fn new(recognizer: R) -> (r: RecognizedStrings<R>)
        ensures
            r.engine() == recognizer,
    {
        RecognizedStrings { recognizer }
    }

    /// Takes one voice event, as `handle_event` does with the held recognizer.
    pub fn handle(&mut self, event: &VoiceEvent) -> (r: Option<String>)
        ensures
            match event@ {
                EventView::Start(c) => {
                    &&& final(self).engine().session_audio() == old(self).engine().session_audio()
                        + c
                    &&& final(self).engine().finished() == old(self).engine().finished()
                    &&& final(self).engine().texts() == old(self).engine().texts()
                    &&& r is None
                },
                EventView::Data(c) => {
                    &&& final(self).engine().session_audio() == old(self).engine().session_audio()
                        + c
                    &&& final(self).engine().finished() == old(self).engine().finished()
                    &&& final(self).engine().texts() == old(self).engine().texts()
                    &&& r is None
                },
                EventView::End => {
                    &&& final(self).engine().session_audio() == Seq::<i16>::empty()
                    &&& final(self).engine().finished() == old(self).engine().finished().push(
                        old(self).engine().session_audio(),
                    )
                    &&& final(self).engine().texts().len() == old(self).engine().texts().len() + 1
                    &&& final(self).engine().texts().drop_last() == old(self).engine().texts()
                    &&& (r is None <==> final(self).engine().texts().last().len() == 0)
                    &&& (r matches Some(t) ==> t@ == final(self).engine().texts().last())
                },
            },
    {
        handle_event(&mut self.recognizer, event)
    }

    /// Gives the recognizer back.
    pub fn into_inner(self) -> (r: R)
        ensures
            r == self.engine(),
    {
        self.recognizer
    }
}

/// Recognises every utterance of a finite event stream, in order. The
/// recognizer is fed exactly the audio of each `Start` and `Data`, and
/// finishes one session per `End`; the result is the nonempty texts of those
/// sessions.
pub fn recognize_stream<R: Recognizer>(recognizer: &mut R, voice_events: &Vec<VoiceEvent>) -> (r:
    Vec<String>)
    ensures
        final(recognizer).session_audio() == assembled(
            old(recognizer).session_audio(),
            events_of(voice_events@),
        ).0,
        final(recognizer).finished() == old(recognizer).finished() + assembled(
            old(recognizer).session_audio(),
            events_of(voice_events@),
        ).1,
        final(recognizer).texts().len() == old(recognizer).texts().len() + assembled(
            old(recognizer).session_audio(),
            events_of(voice_events@),
        ).1.len(),
        final(recognizer).texts().subrange(0, old(recognizer).texts().len() as int) == old(
            recognizer,
        ).texts(),
        strings_of(r@) == nonempty_texts(
            final(recognizer).texts().subrange(
                old(recognizer).texts().len() as int,
                final(recognizer).texts().len() as int,
            ),
        ),
{
    let ghost a0 = recognizer.session_audio();
    let ghost f0 = recognizer.finished();
    let ghost t0 = recognizer.texts();
    let ghost events = events_of(voice_events@);
    let mut out: Vec<String> = Vec::new();
    let mut i: usize = 0;
    proof {
        assert(events.take(0) =~= Seq::<EventView>::empty());
        assert(f0 + Seq::<Seq<i16>>::empty() =~= f0);
        assert(recognizer.texts().subrange(0, t0.len() as int) =~= t0);
        assert(recognizer.texts().subrange(t0.len() as int, t0.len() as int) =~= Seq::<
            Seq<char>,
        >::empty());
        assert(strings_of(out@) =~= Seq::<Seq<char>>::empty());
    }
    while i < voice_events.len()
        invariant
            i <= voice_events@.len(),
            events == events_of(voice_events@),
            recognizer.session_audio() == assembled(a0, events.take(i as int)).0,
            recognizer.finished() == f0 + assembled(a0, events.take(i as int)).1,
            recognizer.texts().len() == t0.len() + assembled(a0, events.take(i as int)).1.len(),
            recognizer.texts().subrange(0, t0.len() as int) == t0,
            strings_of(out@) == nonempty_texts(
                recognizer.texts().subrange(t0.len() as int, recognizer.texts().len() as int),
            ),
        decreases voice_events@.len() - i,
    {
        let ghost before = *recognizer;
        let ghost out_before = strings_of(out@);
        proof {
            assert(events.take(i + 1).drop_last() =~= events.take(i as int));
        }
        let r = handle_event(recognizer, &voice_events[i]);
        let ghost n = recognizer.texts().len();
        proof {
            let t_before = before.texts().subrange(t0.len() as int, before.texts().len() as int);
            let t_after = recognizer.texts().subrange(t0.len() as int, n as int);
            if voice_events@[i as int]@ is End {
                assert(t_after.drop_last() =~= t_before);
                assert(t_after.last() == recognizer.texts().last());
                assert(recognizer.texts().subrange(0, t0.len() as int) =~= before.texts().subrange(
                    0,
                    t0.len() as int,
                ));
                let (open, done) = assembled(a0, events.take(i as int));
                assert(f0 + done.push(open) =~= (f0 + done).push(open));
            } else {
                assert(t_after =~= t_before);
            }
        }
        if let Some(text) = r {
            out.push(text);
            proof {
                assert(strings_of(out@) =~= out_before.push(text@));
            }
        } else {
            proof {
                assert(strings_of(out@) =~= out_before);
            }
        }
        i += 1;
    }
    assert(events.take(i as int) =~= events);
    out
}

} // verus!
