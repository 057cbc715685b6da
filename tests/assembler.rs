use speech_streamer::streamer::{
    committed_text, handle_event, recognize_stream, RecognizedStrings, Recognizer,
};
use speech_streamer::vad::VoiceEvent;

/// What a scripted recognizer was asked to do.
#[derive(Debug, PartialEq)]
enum Call {
    Feed(Vec<i16>),
    Finish,
}

/// Returns the queued texts in turn and records every call.
struct Scripted {
    texts: Vec<String>,
    calls: Vec<Call>,
    finished: usize,
}

impl Scripted {
    fn new(texts: &[&str]) -> Scripted {
        Scripted { texts: texts.iter().map(|t| t.to_string()).collect(), calls: Vec::new(), finished: 0 }
    }
}

impl Recognizer for Scripted {
    fn recognize(&mut self) -> String {
        let t = self.texts.get(self.finished).cloned().unwrap_or_default();
        self.finished += 1;
        self.calls.push(Call::Finish);
        t
    }

    fn feed(&mut self, data: &[i16]) {
        self.calls.push(Call::Feed(data.to_vec()));
    }
}

#[test]
fn empty_decode_emits_nothing() {
    let mut strings = RecognizedStrings::new(Scripted::new(&[""]));
    assert_eq!(strings.handle(&VoiceEvent::Start(vec![1, 2])), None);
    assert_eq!(strings.handle(&VoiceEvent::End), None);
    let recognizer = strings.into_inner();
    assert_eq!(recognizer.calls, vec![Call::Feed(vec![1, 2]), Call::Finish]);
}

#[test]
fn utterance_text_is_emitted_at_end() {
    let mut strings = RecognizedStrings::new(Scripted::new(&["hello"]));
    assert_eq!(strings.handle(&VoiceEvent::Start(vec![1])), None);
    assert_eq!(strings.handle(&VoiceEvent::Data(vec![2])), None);
    assert_eq!(strings.handle(&VoiceEvent::End), Some("hello".to_string()));
    let recognizer = strings.into_inner();
    assert_eq!(recognizer.calls, vec![Call::Feed(vec![1]), Call::Feed(vec![2]), Call::Finish]);
}

#[test]
fn committed_text_drops_only_empty() {
    assert_eq!(committed_text(String::new()), None);
    assert_eq!(committed_text("a".to_string()), Some("a".to_string()));
    assert_eq!(committed_text(" ".to_string()), Some(" ".to_string()));
}

#[test]
fn stream_skips_empty_utterances() {
    let events = vec![
        VoiceEvent::Start(vec![1]),
        VoiceEvent::End,
        VoiceEvent::Start(vec![2]),
        VoiceEvent::Data(vec![3]),
        VoiceEvent::End,
        VoiceEvent::Start(vec![4]),
        VoiceEvent::End,
    ];
    let mut recognizer = Scripted::new(&["", "good morning", "bye"]);
    let texts = recognize_stream(&mut recognizer, &events);
    assert_eq!(texts, vec!["good morning".to_string(), "bye".to_string()]);
    assert_eq!(
        recognizer.calls,
        vec![
            Call::Feed(vec![1]),
            Call::Finish,
            Call::Feed(vec![2]),
            Call::Feed(vec![3]),
            Call::Finish,
            Call::Feed(vec![4]),
            Call::Finish,
        ]
    );
}

#[test]
fn stream_without_end_emits_nothing() {
    let events = vec![VoiceEvent::Start(vec![1]), VoiceEvent::Data(vec![2])];
    let mut recognizer = Scripted::new(&["never"]);
    assert!(recognize_stream(&mut recognizer, &events).is_empty());
    assert_eq!(recognizer.calls, vec![Call::Feed(vec![1]), Call::Feed(vec![2])]);
}

#[test]
fn feeds_payloads_in_order_with_one_finish_per_end() {
    let mut recognizer = Scripted::new(&["hello"]);
    let events = vec![VoiceEvent::Start(vec![1, 2]), VoiceEvent::Data(vec![3]), VoiceEvent::End];
    assert_eq!(recognize_stream(&mut recognizer, &events), vec!["hello".to_string()]);
    assert_eq!(
        recognizer.calls,
        vec![Call::Feed(vec![1, 2]), Call::Feed(vec![3]), Call::Finish]
    );
}

#[test]
fn empty_first_utterance_is_dropped() {
    let mut recognizer = Scripted::new(&["", "hi"]);
    let events = vec![
        VoiceEvent::Start(vec![1]),
        VoiceEvent::End,
        VoiceEvent::Start(vec![2]),
        VoiceEvent::End,
    ];
    assert_eq!(recognize_stream(&mut recognizer, &events), vec!["hi".to_string()]);
    assert_eq!(
        recognizer.calls,
        vec![Call::Feed(vec![1]), Call::Finish, Call::Feed(vec![2]), Call::Finish]
    );
}

#[test]
fn segmented_audio_reaches_the_recognizer_with_its_pre_roll() {
    let events = VoiceEvent::iter_from_audio(vec![
        vec![1i16; 8000],
        vec![9i16; 8000],
        vec![0i16; 16000],
    ]);
    let mut recognizer = Scripted::new(&["words"]);
    let mut handled = Vec::new();
    for e in &events {
        if let Some(t) = handle_event(&mut recognizer, e) {
            handled.push(t);
        }
    }
    assert_eq!(handled, vec!["words".to_string()]);
    let mut utterance = vec![1i16; 8000];
    utterance.extend(vec![9i16; 8000]);
    assert_eq!(recognizer.calls, vec![Call::Feed(utterance), Call::Finish]);
}
