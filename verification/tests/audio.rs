use shamash::audio::{ResampleMethod, Resampler, UtteranceBuffer, VadAction, VadState};
use shamash::listener::{listener_gate, FRAME_SAMPLES, LISTEN_SAMPLE_RATE, VAD_GAP_FRAMES, VAD_MAX_FRAMES};

#[test]
fn resampling_method_follows_the_rate_ratio() {
    assert_eq!(Resampler::new(48_000, 48_000).method(), ResampleMethod::PassThrough);
    assert_eq!(
        Resampler::new(48_000, 16_000).method(),
        ResampleMethod::Average { factor: 3 }
    );
    assert_eq!(Resampler::new(44_100, 16_000).method(), ResampleMethod::Linear);
    assert_eq!(Resampler::new(16_000, 48_000).method(), ResampleMethod::Linear);
    assert_eq!(Resampler::new(8_000, 0).method(), ResampleMethod::Linear);
    assert_eq!(Resampler::new(0, 0).method(), ResampleMethod::PassThrough);
    let r = Resampler::new(48_000, 16_000);
    assert_eq!((r.input_rate_hz(), r.output_rate_hz()), (48_000, 16_000));
}

#[test]
fn gate_flushes_utterance_on_silence_gap() {
    let mut vad = VadState::new(320, 2, 100);
    for _ in 0..5 {
        assert_eq!(vad.step(true), VadAction::Append);
    }
    assert_eq!(vad.step(false), VadAction::Discard);
    assert_eq!(vad.step(false), VadAction::Flush { frames: 5 });
    assert_eq!(vad.step(false), VadAction::Discard);
}

#[test]
fn gate_discards_leading_silence() {
    let mut vad = VadState::new(320, 2, 100);
    for _ in 0..10 {
        assert_eq!(vad.step(false), VadAction::Discard);
    }
    for _ in 0..3 {
        assert_eq!(vad.step(true), VadAction::Append);
    }
    assert_eq!(vad.step(false), VadAction::Discard);
    assert_eq!(vad.step(false), VadAction::Flush { frames: 3 });
}

#[test]
fn gate_overflow_flushes_mid_speech() {
    let mut vad = VadState::new(320, 2, 4);
    for _ in 0..3 {
        assert_eq!(vad.step(true), VadAction::Append);
    }
    assert_eq!(vad.step(true), VadAction::AppendAndFlush { frames: 4 });
    assert_eq!(vad.step(false), VadAction::Discard);
}

#[test]
fn loud_frame_ends_a_silent_streak() {
    let mut vad = VadState::new(320, 2, 100);
    assert_eq!(vad.step(true), VadAction::Append);
    assert_eq!(vad.step(false), VadAction::Discard);
    assert_eq!(vad.step(true), VadAction::Append);
    assert_eq!(vad.step(false), VadAction::Discard);
    assert_eq!(vad.step(false), VadAction::Flush { frames: 2 });
}

#[test]
fn listener_gate_isolates_utterances() {
    let mut vad = listener_gate();
    assert_eq!(vad.frame_samples(), FRAME_SAMPLES);
    assert_eq!((LISTEN_SAMPLE_RATE, VAD_GAP_FRAMES, VAD_MAX_FRAMES), (16_000, 15, 600));
    for _ in 0..5 {
        assert_eq!(vad.step(true), VadAction::Append);
    }
    for _ in 0..14 {
        assert_eq!(vad.step(false), VadAction::Discard);
    }
    assert_eq!(vad.step(false), VadAction::Flush { frames: 5 });
}

#[test]
fn zero_cap_emits_every_loud_frame() {
    let mut vad = VadState::new(320, 0, 0);
    assert_eq!(vad.step(true), VadAction::AppendAndFlush { frames: 1 });
    assert_eq!(vad.step(false), VadAction::Discard);
}

#[test]
fn utterances_hold_the_voiced_frames_in_order() {
    let mut buffer: UtteranceBuffer<i16> = UtteranceBuffer::new(2, 2, 100);
    assert_eq!(buffer.frame_samples(), 2);
    assert!(buffer.push(vec![1, 2], false).is_empty());
    assert!(buffer.push(vec![3, 4], true).is_empty());
    assert!(buffer.push(vec![5, 6], false).is_empty());
    assert!(buffer.push(vec![7, 8], true).is_empty());
    assert!(buffer.push(vec![9, 9], false).is_empty());
    assert_eq!(buffer.push(vec![0, 0], false), vec![3, 4, 7, 8]);
    assert!(buffer.push(vec![1, 1], false).is_empty());
    assert!(buffer.push(vec![2, 2], true).is_empty());
    assert!(buffer.push(vec![0, 0], false).is_empty());
    assert_eq!(buffer.push(vec![0, 0], false), vec![2, 2]);
}

#[test]
fn a_full_utterance_is_handed_out_mid_speech() {
    let mut buffer: UtteranceBuffer<i16> = UtteranceBuffer::new(1, 2, 3);
    assert!(buffer.push(vec![1], true).is_empty());
    assert!(buffer.push(vec![2], true).is_empty());
    assert_eq!(buffer.push(vec![3], true), vec![1, 2, 3]);
    assert!(buffer.push(vec![4], true).is_empty());
    assert!(buffer.push(vec![0], false).is_empty());
    assert_eq!(buffer.push(vec![0], false), vec![4]);
}

#[test]
fn with_no_gap_the_first_quiet_frame_ends_an_utterance() {
    let mut buffer: UtteranceBuffer<i16> = UtteranceBuffer::new(1, 0, 100);
    assert!(buffer.push(vec![0], false).is_empty());
    assert!(buffer.push(vec![5], true).is_empty());
    assert_eq!(buffer.push(vec![0], false), vec![5]);
}
