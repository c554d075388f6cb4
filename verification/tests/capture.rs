use beam::capture::{
    cursor_mode, frame_duration, next_frame, stream_dimensions, CaptureAction, CaptureEvent,
    CaptureLoop, Codec, CursorMode, FrameClock, FrameSlot, NextFrame, RawFrame, Resolution,
    StreamSettings, CAPTURE_TIMEOUT, FRAME_INTERVAL,
};
use beam::duration::Duration;

fn picture(value: u8) -> RawFrame {
    RawFrame { bgra: vec![value; 16], width: 2, height: 2, stride: 8, captured_at: 7 }
}

fn resolution(value: f32) -> Resolution {
    Resolution { bits: value.to_bits() }
}

#[test]
fn streams_are_h264_at_full_size_by_default() {
    let settings = StreamSettings::default();
    assert_eq!(settings.codec, Codec::H264);
    assert_eq!(f32::from_bits(settings.resolution.bits), 1.0);
    assert_eq!(settings.bitrate, 40_000_000);
    assert!(settings.host_cursor_visible);
}

#[test]
fn resolutions_are_clamped_like_numbers() {
    let values = [
        0.0f32, -0.0, 0.1, 0.24999999, 0.25, 0.25000003, 0.5, 0.75, 0.99999994, 1.0, 1.0000001,
        2.0, 1e30, -1.0, -1e30, f32::INFINITY, f32::NEG_INFINITY, f32::MIN_POSITIVE, 1e-45,
    ];
    for value in values {
        let clamped = f32::from_bits(resolution(value).clamp().bits);
        assert_eq!(clamped.to_bits(), value.clamp(0.25, 1.0).to_bits());
    }
    assert!(f32::from_bits(resolution(f32::NAN).clamp().bits).is_nan());
}

#[test]
fn streams_have_even_sides() {
    assert_eq!(stream_dimensions(1920, 1080), (1920, 1080));
    assert_eq!(stream_dimensions(1367, 769), (1366, 768));
    assert_eq!(stream_dimensions(0, 1), (2, 2));
    assert_eq!(stream_dimensions(3, 2), (2, 2));
}

#[test]
fn frames_last_until_the_next_one() {
    assert_eq!(frame_duration(None, 5).nanos, FRAME_INTERVAL);
    assert_eq!(frame_duration(Some(1_000_000_000), 1_020_000_000), Duration::from_millis(20));
    assert_eq!(frame_duration(Some(9), 9), Duration::from_millis(1));
    assert_eq!(frame_duration(Some(10), 9).nanos, 16_666_667);
    assert_eq!(frame_duration(Some(0), 5_000_000_000), Duration::from_secs(1));
}

#[test]
fn frame_clock_counts_from_zero() {
    let mut clock = FrameClock::new();
    assert_eq!(clock.tick(1_000_000_000), (0, Duration { nanos: 16_666_667 }));
    assert_eq!(clock.tick(1_030_000_000), (1, Duration::from_millis(30)));
    assert_eq!(clock.tick(1_000_000_000), (2, Duration { nanos: 16_666_667 }));
}

#[test]
fn slot_keeps_the_newest_frame() {
    let mut slot = FrameSlot::new();
    assert!(matches!(next_frame(&mut slot), NextFrame::Pending));
    slot.publish(picture(1));
    slot.publish(picture(2));
    match next_frame(&mut slot) {
        NextFrame::Ready(frame) => assert_eq!(frame.bgra[0], 2),
        _ => panic!("a frame was published"),
    }
    assert!(matches!(next_frame(&mut slot), NextFrame::Pending));
    slot.publish(picture(3));
    slot.close();
    assert!(matches!(next_frame(&mut slot), NextFrame::Ready(_)));
    assert!(matches!(next_frame(&mut slot), NextFrame::Finished));
}

#[test]
fn cursor_follows_the_settings() {
    let mut settings = StreamSettings::default();
    assert_eq!(cursor_mode(&settings), CursorMode::Embedded);
    settings.host_cursor_visible = false;
    assert_eq!(cursor_mode(&settings), CursorMode::Hidden);
}

#[test]
fn capture_publishes_usable_pictures() {
    let mut capture = CaptureLoop::new(100);
    let event = CaptureEvent::Video { pixels: Some(vec![1, 2, 3]), width: 2, height: 2, stride: 9 };
    match capture.on_event(event, 200, 300) {
        CaptureAction::Publish(frame) => {
            assert_eq!(frame.bgra, vec![1, 2, 3]);
            assert_eq!((frame.width, frame.height, frame.stride), (2, 2, 9));
            assert_eq!(frame.captured_at, 300);
        }
        _ => panic!("the picture is usable"),
    }
    assert_eq!(capture.last_frame, 200);
    let narrow = CaptureEvent::Video { pixels: Some(vec![]), width: 1, height: 9, stride: 4 };
    assert!(matches!(capture.on_event(narrow, 250, 0), CaptureAction::Continue));
    let elsewhere = CaptureEvent::Video { pixels: None, width: 9, height: 9, stride: 36 };
    assert!(matches!(capture.on_event(elsewhere, 250, 0), CaptureAction::Continue));
    assert_eq!(capture.last_frame, 200);
    assert!(matches!(capture.on_event(CaptureEvent::Audio, 250, 0), CaptureAction::ForwardAudio));
    assert_eq!(capture.last_frame, 200);
}

#[test]
fn capture_ends_where_nobody_takes_the_audio() {
    let mut capture = CaptureLoop::new(100);
    assert!(matches!(capture.on_event(CaptureEvent::Audio, 110, 0), CaptureAction::ForwardAudio));
    assert!(matches!(capture.on_event(CaptureEvent::AudioRefused, 120, 0), CaptureAction::Stop));
    assert_eq!(capture.last_frame, 100);
}

#[test]
fn capture_stalls_after_the_timeout() {
    let mut capture = CaptureLoop::new(100);
    let early = 100 + CAPTURE_TIMEOUT - 1;
    assert!(matches!(capture.on_event(CaptureEvent::Other, early, 0), CaptureAction::Continue));
    assert!(matches!(capture.on_event(CaptureEvent::Other, early + 1, 0), CaptureAction::Stalled));
    assert!(matches!(capture.on_event(CaptureEvent::Other, 50, 0), CaptureAction::Continue));
}

#[test]
fn durations_add_and_clamp() {
    let second = Duration::from_secs(1);
    let milli = Duration::from_millis(1);
    assert_eq!(second.plus(milli).nanos, 1_001_000_000);
    assert_eq!(second.saturating_sub(milli).nanos, 999_000_000);
    assert_eq!(milli.saturating_sub(second), Duration::zero());
    assert_eq!(Duration { nanos: 1_999 }.as_micros(), 1);
    assert!(Duration::zero().is_zero());
    assert!(!milli.is_zero());
    assert_eq!(Duration::zero().clamp(milli, second), milli);
    assert_eq!(Duration::from_secs(9).clamp(milli, second), second);
}
