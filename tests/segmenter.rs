use speech_streamer::vad::{decide, VadFilter, VoiceEvent};

fn chunk(value: i16, len: usize) -> Vec<i16> {
    vec![value; len]
}

#[test]
fn silent_second_yields_nothing() {
    let events = VoiceEvent::iter_from_audio(vec![chunk(0, 16000)]);
    assert!(events.is_empty());
}

#[test]
fn loud_second_starts_an_utterance() {
    let events = VoiceEvent::iter_from_audio(vec![chunk(5, 16000)]);
    assert_eq!(events, vec![VoiceEvent::Start(chunk(5, 16000))]);
}

#[test]
fn silence_after_speech_ends_the_utterance() {
    let events = VoiceEvent::iter_from_audio(vec![chunk(5, 16000), chunk(0, 16000)]);
    assert_eq!(events, vec![VoiceEvent::Start(chunk(5, 16000)), VoiceEvent::End]);
}

#[test]
fn ending_chunk_is_absorbed_and_end_comes_next() {
    let mut filter = VadFilter::new();
    assert_eq!(filter.feed(chunk(5, 16000)), Some(VoiceEvent::Start(chunk(5, 16000))));
    assert_eq!(filter.take_pending_end(), None);
    assert_eq!(filter.feed(chunk(0, 16000)), None);
    assert!(filter.has_pending_end());
    assert_eq!(filter.take_pending_end(), Some(VoiceEvent::End));
    assert!(!filter.has_pending_end());
    assert_eq!(filter.take_pending_end(), None);
}

#[test]
fn quiet_stream_below_start_threshold_yields_nothing() {
    // Amplitude 4 over the whole window gives activation 64000.
    let chunks: Vec<Vec<i16>> = (0..10).map(|_| chunk(4, 1600)).collect();
    let events = VoiceEvent::iter_from_audio(chunks);
    assert!(events.is_empty());
}

#[test]
fn activation_exactly_at_start_threshold_does_not_start() {
    // 14000 samples of 5 give activation 70000, which is not above the threshold.
    let events = VoiceEvent::iter_from_audio(vec![chunk(5, 14000)]);
    assert!(events.is_empty());
    let events = VoiceEvent::iter_from_audio(vec![chunk(5, 14000), chunk(1, 1)]);
    let mut expected = chunk(5, 14000);
    expected.push(1);
    assert_eq!(events, vec![VoiceEvent::Start(expected)]);
}

#[test]
fn start_carries_pre_roll_before_the_chunk() {
    let mut filter = VadFilter::new();
    assert_eq!(filter.feed(vec![1, 2, 3]), None);
    assert_eq!(filter.feed(vec![-4, 5]), None);
    let loud = chunk(10, 8000);
    let mut expected = vec![1, 2, 3, -4, 5];
    expected.extend_from_slice(&loud);
    assert_eq!(filter.feed(loud), Some(VoiceEvent::Start(expected)));
    // The pre-roll was emptied: the next voiced chunk comes alone.
    assert_eq!(filter.feed(vec![7, 7]), Some(VoiceEvent::Data(vec![7, 7])));
}

#[test]
fn speech_continues_above_continue_threshold() {
    // 8000 samples of 10 (80000), then 8000 of 0 leaves 80000 in the window:
    // data. A second silent half-second drops it to 0: end.
    let events = VoiceEvent::iter_from_audio(vec![
        chunk(10, 8000),
        chunk(0, 8000),
        chunk(0, 8000),
        chunk(0, 10),
    ]);
    assert_eq!(
        events,
        vec![
            VoiceEvent::Start(chunk(10, 8000)),
            VoiceEvent::Data(chunk(0, 8000)),
            VoiceEvent::End,
        ]
    );
}

#[test]
fn speech_stays_on_between_the_two_thresholds() {
    // Activation 50000 does not start speech but sustains it.
    let mut filter = VadFilter::new();
    assert_eq!(filter.feed(chunk(10, 16000)), Some(VoiceEvent::Start(chunk(10, 16000))));
    assert_eq!(filter.feed(chunk(3, 16000)), Some(VoiceEvent::Data(chunk(3, 16000))));
    let mut other = VadFilter::new();
    assert_eq!(other.feed(chunk(3, 16000)), None);
}

#[test]
fn second_utterance_starts_after_end() {
    let events = VoiceEvent::iter_from_audio(vec![
        chunk(5, 16000),
        chunk(0, 16000),
        chunk(9, 16000),
    ]);
    // The silent second that ended the first utterance is the second's pre-roll.
    let mut second = chunk(0, 16000);
    second.extend(chunk(9, 16000));
    assert_eq!(
        events,
        vec![VoiceEvent::Start(chunk(5, 16000)), VoiceEvent::End, VoiceEvent::Start(second)]
    );
}

#[test]
fn pre_roll_keeps_only_the_latest_second() {
    let mut filter = VadFilter::new();
    // 20000 silent samples, numbered so their order shows.
    let silent: Vec<i16> = (0..20000).map(|i| (i % 3) as i16).collect();
    assert_eq!(filter.feed(silent.clone()), None);
    let loud = chunk(100, 1000);
    let mut expected: Vec<i16> = silent[4000..].to_vec();
    expected.extend_from_slice(&loud);
    match filter.feed(loud) {
        Some(VoiceEvent::Start(samples)) => {
            assert_eq!(samples.len(), 17000);
            assert_eq!(samples, expected);
        }
        other => panic!("expected a start, got {:?}", other),
    }
}

#[test]
fn empty_input_yields_nothing() {
    assert!(VoiceEvent::iter_from_audio(Vec::new()).is_empty());
    assert!(VoiceEvent::iter_from_audio(vec![Vec::new(), Vec::new()]).is_empty());
}

#[test]
fn hysteresis_thresholds_are_strict() {
    let d = decide(false, 70000);
    assert!(!d.speaking && !d.entered && !d.exited);
    let d = decide(false, 70001);
    assert!(d.speaking && d.entered && !d.exited);
    let d = decide(true, 40001);
    assert!(d.speaking && !d.entered && !d.exited);
    let d = decide(true, 40000);
    assert!(!d.speaking && !d.entered && d.exited);
    let d = decide(true, 50000);
    assert!(d.speaking);
    let d = decide(false, 50000);
    assert!(!d.speaking);
}

#[test]
fn quiet_pre_roll_comes_back_whole_with_the_onset() {
    let events = VoiceEvent::iter_from_audio(vec![chunk(1, 8000), chunk(9, 8000)]);
    let mut expected = chunk(1, 8000);
    expected.extend(chunk(9, 8000));
    assert_eq!(events, vec![VoiceEvent::Start(expected)]);
}
