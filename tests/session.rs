use sonicdeck::session::{
    buffer_request, frames_from_ms, progress_percent, resolve_devices, stream_plan, total_duration_ms,
    trim_frames, BufferRequest, Phase, PlaybackError, PlaybackSession, Progress, TickAction, PREFERRED_BUFFER_FRAMES,
    TICK_MS,
};

fn streaming(total_ms: u64) -> PlaybackSession {
    let mut s = PlaybackSession::new();
    assert!(s.begin_decoding());
    assert!(s.begin_streaming(total_ms));
    s
}

#[test]
fn one_second_stereo_buffer_reports_twenty_ticks_then_completes_once() {
    let frames = 48000usize;
    let total = total_duration_ms(frames, None, None, 48000);
    assert_eq!(total, 1000);
    let mut s = streaming(total);
    let mut ticks = Vec::new();
    let mut completes = 0;
    for _ in 0..40 {
        match s.tick(false) {
            TickAction::Report(p) => ticks.push(p),
            TickAction::Finish => completes += 1,
            TickAction::Idle => {}
        }
    }
    assert_eq!(completes, 1);
    assert_eq!(ticks.len(), 20);
    for (i, p) in ticks.iter().enumerate() {
        let tick = 50 * (i as u64 + 1);
        assert_eq!(*p, Progress { elapsed_ms: tick, total_ms: 1000, percent: (tick / 10) as u8 });
    }
    assert_eq!(s.phase, Phase::Completed);
}

#[test]
fn stop_request_halts_progress_at_the_next_tick() {
    let mut s = streaming(1000);
    assert!(matches!(s.tick(false), TickAction::Report(_)));
    assert!(matches!(s.tick(false), TickAction::Report(_)));
    assert_eq!(s.tick(true), TickAction::Finish);
    assert_eq!(s.phase, Phase::Stopped);
    assert_eq!(s.elapsed_ms, 100);
    for _ in 0..5 {
        assert_eq!(s.tick(false), TickAction::Idle);
    }
}

#[test]
fn completion_wins_over_a_late_stop() {
    let mut s = streaming(50);
    assert_eq!(s.tick(false), TickAction::Report(Progress { elapsed_ms: 50, total_ms: 50, percent: 100 }));
    assert_eq!(s.tick(true), TickAction::Finish);
    assert_eq!(s.phase, Phase::Completed);
}

#[test]
fn zero_length_playback_completes_at_first_tick() {
    let mut s = streaming(0);
    assert_eq!(s.tick(false), TickAction::Finish);
    assert_eq!(s.tick(false), TickAction::Idle);
}

#[test]
fn stopping_one_session_leaves_the_other_sequence() {
    let mut a = streaming(200);
    let mut b = streaming(200);
    let mut seq_b = Vec::new();
    assert_eq!(a.tick(true), TickAction::Finish);
    for _ in 0..6 {
        assert_eq!(a.tick(false), TickAction::Idle);
        seq_b.push(b.tick(false));
    }
    let mut alone = streaming(200);
    let seq_alone: Vec<TickAction> = (0..6).map(|_| alone.tick(false)).collect();
    assert_eq!(seq_b, seq_alone);
}

#[test]
fn phases_move_in_order() {
    let mut s = PlaybackSession::new();
    assert_eq!(s.phase, Phase::Requested);
    assert!(!s.begin_streaming(10));
    assert_eq!(s.tick(false), TickAction::Idle);
    assert!(s.begin_decoding());
    assert!(!s.begin_decoding());
    assert_eq!(s.phase, Phase::Decoding);
    assert!(s.fail());
    assert_eq!(s.phase, Phase::Failed);
    assert!(!s.fail());
    assert!(!s.begin_streaming(10));
}

#[test]
fn millisecond_offsets_to_frames() {
    assert_eq!(frames_from_ms(500, 48000), 24000);
    assert_eq!(frames_from_ms(1, 44100), 44);
    assert_eq!(frames_from_ms(0, 48000), 0);
    assert_eq!(frames_from_ms(u64::MAX, u32::MAX), usize::MAX);
    assert_eq!(trim_frames(Some(250), None, 48000), (Some(12000), None));
    assert_eq!(trim_frames(None, Some(1000), 44100), (None, Some(44100)));
}

#[test]
fn duration_of_trimmed_range() {
    assert_eq!(total_duration_ms(48000, Some(12000), Some(36000), 48000), 500);
    assert_eq!(total_duration_ms(48000, Some(36000), Some(12000), 48000), 0);
    assert_eq!(total_duration_ms(44100, None, None, 44100), 1000);
    assert_eq!(total_duration_ms(22050, Some(0), None, 44100), 500);
}

#[test]
fn percent_is_clamped() {
    assert_eq!(progress_percent(50, 1000), 5);
    assert_eq!(progress_percent(1050, 1000), 100);
    assert_eq!(progress_percent(333, 1000), 33);
    assert_eq!(progress_percent(10, 0), 100);
}

#[test]
fn buffer_sizes_in_order() {
    assert_eq!(PREFERRED_BUFFER_FRAMES, 256);
    assert_eq!(TICK_MS, 50);
    let tried: Vec<BufferRequest> = (0..6).filter_map(buffer_request).collect();
    assert_eq!(
        tried,
        vec![
            BufferRequest::Fixed(256),
            BufferRequest::Fixed(512),
            BufferRequest::Fixed(1024),
            BufferRequest::DeviceDefault
        ]
    );
}

#[test]
fn devices_must_exist() {
    assert_eq!(resolve_devices(3, 0, 2), Ok((0, 2)));
    assert_eq!(resolve_devices(3, 3, 0), Err(PlaybackError::DeviceNotFound));
    assert_eq!(resolve_devices(0, 0, 0), Err(PlaybackError::DeviceNotFound));
}

#[test]
fn stream_plan_needs_channels_and_rate() {
    assert!(matches!(stream_plan(10, 2, 48000, 0, 2, None, None), Err(PlaybackError::StreamConfigFailure(_))));
    assert!(matches!(stream_plan(10, 0, 48000, 48000, 2, None, None), Err(PlaybackError::StreamConfigFailure(_))));
    assert!(matches!(stream_plan(10, 2, 48000, 48000, 0, None, None), Err(PlaybackError::StreamConfigFailure(_))));
    let p = stream_plan(10, 2, 48000, 44100, 2, Some(1), Some(4)).unwrap();
    assert_eq!(p.max_frame, 4);
    assert_eq!(p.start_frame, 1);
}

#[test]
fn error_variants_are_distinct() {
    let a = PlaybackError::DecodeFailure("bad header".to_string());
    assert_ne!(a, PlaybackError::UnsupportedSampleFormat);
    assert_ne!(PlaybackError::DeviceNotFound, PlaybackError::UnsupportedSampleFormat);
}

#[test]
fn duration_end_is_bounded_by_the_buffer() {
    assert_eq!(total_duration_ms(10, None, Some(100), 1000), 10);
    assert_eq!(total_duration_ms(10, Some(4), Some(100), 1000), 6);
    assert_eq!(total_duration_ms(10, Some(20), Some(100), 1000), 0);
}
