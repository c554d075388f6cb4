use beam::capture::{Codec, HardwareCodecAvailability, Resolution, StreamSettings};
use beam::duration::Duration;
use beam::rtc::{
    audio_capability, change_settings, channel_role, next_step, plan_source, read_offer,
    registrations,
    video_capability, AnswerStep, ChannelRole, ConnectionState, Format, Media, MessageAction,
    Phase, SessionAction, SessionEvent, SettingsChange, SourcePlan, StreamSession,
};

fn media() -> Media {
    Media::new(false, HardwareCodecAvailability { h264: true, h265: false, av1: false })
}

fn change() -> SettingsChange {
    SettingsChange { codec: None, resolution: None, bitrate: None, host_cursor_visible: None }
}

#[test]
fn tracks_carry_the_chosen_codec() {
    let h264 = video_capability(Codec::H264);
    assert_eq!((h264.format, h264.clock_rate, h264.channels), (Format::H264, 90_000, 0));
    assert_eq!(
        h264.fmtp_line,
        "level-asymmetry-allowed=1;packetization-mode=1;profile-level-id=42e01f"
    );
    assert_eq!(video_capability(Codec::Av1).format, Format::Av1);
    assert_eq!(video_capability(Codec::H265).fmtp_line, "");
    let audio = audio_capability();
    assert_eq!((audio.format, audio.clock_rate, audio.channels), (Format::Opus, 48_000, 2));
}

#[test]
fn codecs_are_registered() {
    let mut found = Vec::new();
    for registration in registrations() {
        found.push((registration.capability.format, registration.payload_type, registration.video));
    }
    assert_eq!(
        found,
        vec![
            (Format::H264, 102, true),
            (Format::Av1, 45, true),
            (Format::H265, 127, true),
            (Format::Opus, 111, false),
        ]
    );
}

#[test]
fn channels_have_roles() {
    assert_eq!(channel_role("input"), ChannelRole::Control);
    assert_eq!(channel_role("pointer"), ChannelRole::Pointer);
    assert_eq!(channel_role("Input"), ChannelRole::Unknown);
    assert_eq!(channel_role(""), ChannelRole::Unknown);
}

#[test]
fn settings_stay_in_bounds() {
    let current = StreamSettings::default();
    let wild = SettingsChange {
        codec: Some(Codec::Av1),
        resolution: Some(Resolution { bits: 7.5f32.to_bits() }),
        bitrate: Some(4_000_000_000),
        host_cursor_visible: Some(false),
    };
    let next = change_settings(&current, &wild);
    assert_eq!(next.codec, Codec::Av1);
    assert_eq!(f32::from_bits(next.resolution.bits), 1.0);
    assert_eq!(next.bitrate, 200_000_000);
    assert!(!next.host_cursor_visible);
    let low = SettingsChange {
        resolution: Some(Resolution { bits: (-1.0f32).to_bits() }),
        bitrate: Some(3),
        ..change()
    };
    let least = change_settings(&next, &low);
    assert_eq!(f32::from_bits(least.resolution.bits), 0.25);
    assert_eq!(least.bitrate, 1_000_000);
    assert_eq!(least.codec, Codec::Av1);
}

#[test]
fn changes_are_idempotent() {
    let current = StreamSettings::default();
    assert_eq!(change_settings(&current, &change()), current);
    let half = SettingsChange { resolution: Some(Resolution { bits: 0.5f32.to_bits() }), ..change() };
    let once = change_settings(&current, &half);
    assert_eq!(change_settings(&once, &half), once);
    assert_eq!(f32::from_bits(once.resolution.bits), 0.5);
}

#[test]
fn messages_change_settings_or_are_input() {
    let mut media = media();
    let slow = SettingsChange { bitrate: Some(2_000_000), ..change() };
    assert_eq!(media.on_message(ChannelRole::Pointer, Some(slow)), MessageAction::Forward);
    assert_eq!(media.on_message(ChannelRole::Unknown, Some(slow)), MessageAction::Ignore);
    assert_eq!(media.on_message(ChannelRole::Control, None), MessageAction::Forward);
    assert_eq!(media.settings.bitrate, 40_000_000);
    match media.on_message(ChannelRole::Control, Some(slow)) {
        MessageAction::Reply(settings) => assert_eq!(settings.bitrate, 2_000_000),
        _ => panic!("the settings change"),
    }
    assert_eq!(media.settings.bitrate, 2_000_000);
}

#[test]
fn warmup_keeps_the_reading() {
    let mut media = media();
    media.on_frame(Duration { nanos: 2_500_900 });
    assert_eq!(media.encode_duration_us, 2_500);
    media.on_frame(Duration::zero());
    assert_eq!(media.encode_duration_us, 2_500);
    media.on_frame(Duration { nanos: 999 });
    assert_eq!(media.encode_duration_us, 0);
}

#[test]
fn offers_replace_the_session() {
    let mut media = media();
    for (offer, fails_at) in [None, Some(4), Some(1), Some(8), None].into_iter().enumerate() {
        let before = media.active;
        let started = media.started;
        let answer = media.answer();
        assert_eq!((answer.previous, media.active), (before, None), "offer {offer}");
        let mut step = AnswerStep::EndPrevious;
        let mut told = Vec::new();
        for place in 0..9 {
            told.extend(answer.to_end(step));
            step = media.after_step(step, Some(place) != fails_at);
        }
        assert_eq!(told, before.into_iter().collect::<Vec<u64>>());
        assert_eq!(step == AnswerStep::Done, fails_at.is_none());
        let served = if fails_at == Some(1) { None } else { Some(started) };
        assert_eq!(media.active, served);
    }
    assert_eq!((media.active, media.started), (Some(3), 4));
    media.settings.codec = Codec::Av1;
    assert_eq!(media.answer().video.format, Format::Av1);
}

#[test]
fn one_session_is_served_at_a_time() {
    let mut media = media();
    let first = media.answer();
    assert_eq!(first.previous, None);
    assert_eq!(first.video.format, Format::H264);
    assert_eq!(first.audio.format, Format::Opus);
    assert_eq!(media.begin_session(), 0);
    let second = media.answer();
    assert_eq!(second.previous, Some(0));
    assert_eq!(media.active, None);
    assert_eq!(media.begin_session(), 1);
    assert_eq!(media.shutdown(), Some(1));
    assert_eq!(media.shutdown(), None);
    assert_eq!(media.started, 2);
}

#[test]
fn answers_take_every_step() {
    let mut step = AnswerStep::EndPrevious;
    for _ in 0..8 {
        step = next_step(step, true);
    }
    assert_eq!(step, AnswerStep::ReadAnswer);
    assert_eq!(next_step(step, true), AnswerStep::Done);
    assert_eq!(next_step(step, false), AnswerStep::MissingAnswer);
    assert_eq!(next_step(AnswerStep::EndPrevious, false), AnswerStep::CreatePeer);
    assert_eq!(next_step(AnswerStep::GatherCandidates, false), AnswerStep::ReadAnswer);
    assert_eq!(next_step(AnswerStep::SetOffer, false), AnswerStep::Failed);
    assert_eq!(next_step(AnswerStep::Failed, true), AnswerStep::Failed);
    assert_eq!(next_step(AnswerStep::Done, false), AnswerStep::Done);
}

fn streaming(persistent: bool) -> StreamSession {
    let mut session = StreamSession::new(persistent);
    let connected = SessionEvent::State(ConnectionState::Connected);
    assert_eq!(
        session.on_event(SessionEvent::State(ConnectionState::Connecting)),
        SessionAction::PollState
    );
    assert_eq!(session.on_event(connected), SessionAction::ReadState);
    assert_eq!(session.on_event(connected), SessionAction::Start);
    session
}

#[test]
fn sessions_stream_once_connected() {
    let mut session = streaming(false);
    assert_eq!(session.on_event(SessionEvent::Video { ended: false }), SessionAction::SendVideo);
    assert_eq!(session.on_event(SessionEvent::Sent { failed: false }), SessionAction::Wait);
    assert_eq!(session.on_event(SessionEvent::Audio { ended: false }), SessionAction::SendAudio);
    assert_eq!(session.on_event(SessionEvent::Sent { failed: false }), SessionAction::Wait);
    assert_eq!(
        session.on_event(SessionEvent::State(ConnectionState::Connected)),
        SessionAction::Wait
    );
    assert_eq!(
        session.on_event(SessionEvent::State(ConnectionState::Disconnected)),
        SessionAction::Finish { forget_source: false, stop_source: true }
    );
    assert_eq!(session.phase, Phase::Over);
    assert_eq!(session.on_event(SessionEvent::Shutdown), SessionAction::Wait);
}

#[test]
fn unconnected_sessions_are_closed() {
    for event in [SessionEvent::Shutdown, SessionEvent::ConnectTimeout] {
        let mut session = StreamSession::new(true);
        assert_eq!(session.on_event(event), SessionAction::Close);
        assert_eq!(session.phase, Phase::Over);
    }
    let mut session = StreamSession::new(true);
    let failed = SessionEvent::State(ConnectionState::Failed);
    assert_eq!(session.on_event(failed), SessionAction::ReadState);
    assert_eq!(session.on_event(failed), SessionAction::Close);
}

#[test]
fn streams_end_for_many_reasons() {
    let ends = [
        SessionEvent::Shutdown,
        SessionEvent::EncoderFailed,
        SessionEvent::Video { ended: true },
        SessionEvent::Audio { ended: true },
        SessionEvent::SourceFailed { cached: false },
    ];
    for event in ends {
        let mut session = streaming(true);
        assert_eq!(
            session.on_event(event),
            SessionAction::Finish { forget_source: false, stop_source: false }
        );
    }
    let mut session = streaming(true);
    assert_eq!(
        session.on_event(SessionEvent::SourceFailed { cached: true }),
        SessionAction::Finish { forget_source: true, stop_source: false }
    );
    let mut session = streaming(false);
    session.on_event(SessionEvent::Video { ended: false });
    assert_eq!(
        session.on_event(SessionEvent::Shutdown),
        SessionAction::Finish { forget_source: false, stop_source: true }
    );
}

#[test]
fn audio_is_sent_before_a_shutdown_is_heeded() {
    let mut session = streaming(false);
    session.on_event(SessionEvent::Audio { ended: false });
    assert_eq!(session.on_event(SessionEvent::Shutdown), SessionAction::Wait);
    assert_eq!(session.phase, Phase::SendingAudio);
    assert_eq!(
        session.on_event(SessionEvent::Sent { failed: true }),
        SessionAction::Finish { forget_source: false, stop_source: true }
    );
}

#[test]
fn persistent_sources_are_reused() {
    assert_eq!(plan_source(false, Some(false)), SourcePlan::Start);
    assert_eq!(plan_source(true, None), SourcePlan::StartAndKeep);
    assert_eq!(plan_source(true, Some(true)), SourcePlan::StartAndKeep);
    assert_eq!(plan_source(true, Some(false)), SourcePlan::Reuse);
}

#[test]
fn offers_are_session_descriptions() {
    let sdp = "v=0\r\no=- 4215775240449105457 2 IN IP4 127.0.0.1\r\ns=-\r\nt=0 0\r\n";
    let offer = read_offer(sdp.to_string()).unwrap();
    assert_eq!(offer.sdp, sdp);
    assert!(read_offer("v=1\r\n".to_string()).is_none());
    assert!(read_offer("no description".to_string()).is_none());
    let short = "v=0\r\no=- 1 2 IN IP4\r\ns=-\r\nt=0 0\r\n";
    assert!(read_offer(short.to_string()).is_none());
    assert_eq!(next_step(AnswerStep::SetOffer, false), AnswerStep::Failed);
}
