use agent_voice_audio::engine::AudioEngineOptions;
use agent_voice_audio::engine::EngineState;
use agent_voice_audio::engine::ValidationError;

fn options(sample_rate: u32, enable_aec: bool, max_capture_frames: u32) -> AudioEngineOptions {
    AudioEngineOptions {
        sample_rate: Some(sample_rate),
        channels: None,
        enable_aec: Some(enable_aec),
        stream_delay_ms: None,
        max_capture_frames: Some(max_capture_frames),
    }
}

#[test]
fn defaults_apply_when_no_options_given() {
    let e = EngineState::new(None).unwrap();
    assert_eq!(e.target_sample_rate, 24000);
    assert_eq!(e.frame_size, 240);
    assert!(e.enable_aec);
    assert!(!e.started);
    let stats = e.get_stats();
    assert_eq!(stats.capture_frames, 0);
    assert_eq!(stats.processed_frames, 0);
    assert_eq!(stats.playback_underruns, 0);
    assert_eq!(stats.pending_playback_samples, 0);
    assert_eq!(stats.dropped_raw_frames, 0);
    assert_eq!(stats.dropped_processed_frames, 0);
}

#[test]
fn sample_rate_is_floored_at_8000() {
    let e = EngineState::new(Some(options(1000, true, 400))).unwrap();
    assert_eq!(e.target_sample_rate, 8000);
    assert_eq!(e.frame_size, 80);
}

#[test]
fn zero_queue_capacity_is_rejected() {
    let r = EngineState::new(Some(options(16000, true, 0)));
    assert!(matches!(r, Err(ValidationError::ZeroFrameQueueCapacity)));
}

#[test]
fn out_of_range_stream_delay_is_rejected() {
    let mut o = options(16000, true, 400);
    o.stream_delay_ms = Some(501);
    assert!(matches!(
        EngineState::new(Some(o)),
        Err(ValidationError::StreamDelayOutOfRange)
    ));
    o.stream_delay_ms = Some(-1);
    assert!(matches!(
        EngineState::new(Some(o)),
        Err(ValidationError::StreamDelayOutOfRange)
    ));
    o.stream_delay_ms = Some(500);
    assert!(EngineState::new(Some(o)).is_ok());
}

#[test]
fn odd_playback_bytes_are_rejected_without_effect() {
    let mut e = EngineState::new(Some(options(16000, true, 400))).unwrap();
    let before = e.get_stats();
    let r = e.play(&vec![1, 2, 3]);
    assert!(matches!(r, Err(ValidationError::OddPlaybackByteLength)));
    assert_eq!(e.get_stats(), before);
    assert!(e.play(&vec![1, 2]).is_ok());
    assert_eq!(e.get_stats().pending_playback_samples, 1);
}

#[test]
fn one_to_one_playback_drains_queue() {
    // pipeline 16000 => 160 samples per frame; device at the same rate.
    let mut e = EngineState::new(Some(options(16000, true, 400))).unwrap();
    let mut bytes: Vec<u8> = Vec::new();
    for _ in 0..160 {
        bytes.push(100);
        bytes.push(0);
    }
    e.play(&bytes).unwrap();
    assert_eq!(e.get_stats().pending_playback_samples, 160);
    let mut outputs: Vec<i16> = Vec::new();
    for _ in 0..160 {
        outputs.push(e.next_output_sample());
    }
    // The seeded accumulator serves two samples on the first pull, so the
    // 160th pull already outruns the 160 submitted samples by one.
    assert!(outputs[..159].iter().all(|&s| s == 100));
    assert_eq!(outputs[159], 0);
    let stats = e.get_stats();
    assert_eq!(stats.pending_playback_samples, 0);
    assert_eq!(stats.playback_underruns, 1);
}

#[test]
fn underruns_hold_zero_after_queue_empties() {
    let mut e = EngineState::new(Some(options(16000, true, 400))).unwrap();
    let mut bytes: Vec<u8> = Vec::new();
    for _ in 0..80 {
        bytes.push(7);
        bytes.push(0);
    }
    e.play(&bytes).unwrap();
    let mut outputs: Vec<i16> = Vec::new();
    for _ in 0..160 {
        outputs.push(e.next_output_sample());
    }
    // Consumption runs one ahead of the pull count: pulls 1..=79 yield the
    // submitted value, every later pull synthesizes silence.
    assert!(outputs[..79].iter().all(|&s| s == 7));
    assert!(outputs[79..].iter().all(|&s| s == 0));
    let stats = e.get_stats();
    assert_eq!(stats.playback_underruns, 81);
    assert_eq!(stats.pending_playback_samples, 0);
}

#[test]
fn rate_drift_stays_within_one_sample() {
    // device 48000 vs pipeline 16000: after m device pulls the converter has
    // advanced (48000 + m * 16000) / 48000 pipeline samples, within one of
    // the exact ratio m / 3.
    let mut e = EngineState::new(Some(options(16000, true, 400))).unwrap();
    e.set_device_rates(48000, 48000);
    for _ in 0..48 {
        let s = e.next_output_sample();
        assert_eq!(s, 0);
    }
    // 48 * 16000 / 48000 = 16 exactly; the seed adds the immediate first one.
    assert_eq!(e.get_stats().playback_underruns, 17);
}

#[test]
fn capture_assembles_exact_frames() {
    // device and pipeline at 16000: the seeded accumulator appends the first
    // device sample twice, so 159 device samples complete one 160-sample
    // frame.
    let mut e = EngineState::new(Some(options(16000, false, 400))).unwrap();
    for _ in 0..158 {
        e.on_captured_device_sample(5);
    }
    assert_eq!(e.get_stats().capture_frames, 0);
    e.on_captured_device_sample(5);
    let stats = e.get_stats();
    assert_eq!(stats.capture_frames, 1);
    assert_eq!(stats.processed_frames, 1);
    assert_eq!(stats.dropped_raw_frames, 0);
    let raw = e.pop_raw_frames(10);
    assert_eq!(raw.len(), 1);
    assert_eq!(raw[0].len(), 320);
    let mut expected: Vec<u8> = Vec::new();
    for _ in 0..160 {
        expected.push(5);
        expected.push(0);
    }
    assert_eq!(raw[0], expected);
    // echo cancellation disabled: the processed queue holds the same bytes
    let processed = e.pop_processed_frames(10);
    assert_eq!(processed, vec![expected]);
}

#[test]
fn processed_frames_keep_frame_length_with_aec() {
    let mut e = EngineState::new(Some(options(16000, true, 400))).unwrap();
    for _ in 0..159 {
        e.on_captured_device_sample(1000);
    }
    let stats = e.get_stats();
    assert_eq!(stats.capture_frames, 1);
    assert_eq!(stats.processed_frames, 1);
    let processed = e.pop_processed_frames(10);
    assert_eq!(processed.len(), 1);
    assert_eq!(processed[0].len(), 320);
}

#[test]
fn full_queue_evicts_oldest_and_counts_drop() {
    let mut e = EngineState::new(Some(options(16000, false, 1))).unwrap();
    // first frame: all ones (first sample is appended twice by the seed)
    for _ in 0..159 {
        e.on_captured_device_sample(1);
    }
    // second frame: all twos
    for _ in 0..160 {
        e.on_captured_device_sample(2);
    }
    let stats = e.get_stats();
    assert_eq!(stats.capture_frames, 2);
    assert_eq!(stats.processed_frames, 2);
    assert_eq!(stats.dropped_raw_frames, 1);
    assert_eq!(stats.dropped_processed_frames, 1);
    let raw = e.pop_raw_frames(10);
    assert_eq!(raw.len(), 1);
    let mut expected: Vec<u8> = Vec::new();
    for _ in 0..160 {
        expected.push(2);
        expected.push(0);
    }
    assert_eq!(raw[0], expected);
}

#[test]
fn capture_upsamples_by_repetition() {
    // device 8000 vs pipeline 16000: the seed appends the first sample three
    // times, every later device sample twice, so 80 device samples complete
    // one 160-sample frame with one sample left over.
    let mut e = EngineState::new(Some(options(16000, false, 400))).unwrap();
    e.set_device_rates(16000, 8000);
    for _ in 0..79 {
        e.on_captured_device_sample(3);
    }
    assert_eq!(e.get_stats().capture_frames, 0);
    e.on_captured_device_sample(3);
    assert_eq!(e.get_stats().capture_frames, 1);
}

#[test]
fn zero_device_rate_is_coerced_to_one() {
    let mut e = EngineState::new(Some(options(16000, false, 400))).unwrap();
    e.set_device_rates(0, 0);
    assert_eq!(e.playback_device_rate, 1);
    assert_eq!(e.capture_device_rate, 1);
    // one device pull advances (1 + 16000) / 1 pipeline samples
    let s = e.next_output_sample();
    assert_eq!(s, 0);
    assert_eq!(e.get_stats().playback_underruns, 16001);
}

#[test]
fn stop_preserves_counters_and_queues() {
    let mut e = EngineState::new(Some(options(16000, false, 400))).unwrap();
    for _ in 0..159 {
        e.on_captured_device_sample(9);
    }
    e.play(&vec![9, 0]).unwrap();
    assert!(e.on_start());
    let before = e.get_stats();
    e.on_stop();
    assert!(!e.started);
    assert_eq!(e.get_stats(), before);
    let raw = e.pop_raw_frames(10);
    assert_eq!(raw.len(), 1);
}

#[test]
fn duplicate_start_is_a_no_op() {
    let mut e = EngineState::new(Some(options(16000, false, 400))).unwrap();
    assert!(e.on_start());
    let before = e.get_stats();
    assert!(!e.on_start());
    assert_eq!(e.get_stats(), before);
    e.on_stop();
    assert!(e.on_start());
}

#[test]
fn stream_delay_is_accepted_only_within_processor_range() {
    let mut e = EngineState::new(Some(options(16000, true, 400))).unwrap();
    assert!(e.set_stream_delay(0));
    assert!(e.set_stream_delay(500));
    assert!(e.set_stream_delay(42));
    assert!(!e.set_stream_delay(-1));
    assert!(!e.set_stream_delay(501));
}
