//! The media session: what is offered to the peer, what its data channels may change, and how a
//! session goes from the first contact to its end.

use vstd::prelude::*;
use webrtc::peer_connection::sdp::session_description::RTCSessionDescription;

use crate::capture::{
    law_resolution_range, Codec, HardwareCodecAvailability, Resolution, StreamSettings, CODEC, ONE,
    QUARTER,
};
use crate::duration::{Duration, NANOS_PER_MICRO};
use crate::text::same;

verus! {

/// The formats that are negotiated with a peer.
#[derive(Clone, Copy, Debug, PartialEq, Eq, Structural)]
pub enum Format {
    H264,
    Av1,
    H265,
    Opus,
}

/// What a track or a registered codec can carry.
#[derive(Clone, Copy, Debug)]
pub struct CodecCapability {
    pub format: Format,
    pub clock_rate: u32,
    pub channels: u16,
    /// The parameters of the format in a session description.
    pub fmtp_line: &'static str,
}

/// The parameters under which H.264 is offered: the constrained baseline profile at level 3.1,
/// in packets that may hold parts of a unit.
pub const H264_PARAMETERS: &'static str =
    "level-asymmetry-allowed=1;packetization-mode=1;profile-level-id=42e01f";

/// The clock of every video format, in ticks per second.
pub const VIDEO_CLOCK_RATE: u32 = 90_000;

/// The clock of the audio format, in ticks per second.
pub const AUDIO_CLOCK_RATE: u32 = 48_000;

/// The format of a video codec.
pub open spec fn format_of(codec: Codec) -> Format {
    match codec {
        Codec::H264 => Format::H264,
        Codec::Av1 => Format::Av1,
        Codec::H265 => Format::H265,
    }
}

/// The capability is that of a video track in the given codec.
pub open spec fn carries_video(capability: CodecCapability, codec: Codec) -> bool {
    &&& capability.format == format_of(codec)
    &&& capability.clock_rate == VIDEO_CLOCK_RATE
    &&& capability.channels == 0
    &&& capability.fmtp_line@ == if codec == Codec::H264 {
        H264_PARAMETERS@
    } else {
        ""@
    }
}

/// The capability is that of the stereo audio track.
pub open spec fn carries_audio(capability: CodecCapability) -> bool {
    &&& capability.format == Format::Opus
    &&& capability.clock_rate == AUDIO_CLOCK_RATE
    &&& capability.channels == 2
    &&& capability.fmtp_line@ == ""@
}

/// The capability of the video track under the chosen codec.
pub fn video_capability(codec: Codec) -> (capability: CodecCapability)
    ensures
        carries_video(capability, codec),
{
    match codec {
        Codec::H264 => CodecCapability {
            format: Format::H264,
            clock_rate: VIDEO_CLOCK_RATE,
            channels: 0,
            fmtp_line: H264_PARAMETERS,
        },
        Codec::Av1 => CodecCapability {
            format: Format::Av1,
            clock_rate: VIDEO_CLOCK_RATE,
            channels: 0,
            fmtp_line: "",
        },
        Codec::H265 => CodecCapability {
            format: Format::H265,
            clock_rate: VIDEO_CLOCK_RATE,
            channels: 0,
            fmtp_line: "",
        },
    }
}

/// The capability of the audio track.
pub fn audio_capability() -> (capability: CodecCapability)
    ensures
        carries_audio(capability),
{
    CodecCapability {
        format: Format::Opus,
        clock_rate: AUDIO_CLOCK_RATE,
        channels: 2,
        fmtp_line: "",
    }
}

/// A codec that peers may agree on, with the number by which its packets are known.
#[derive(Clone, Copy, Debug)]
pub struct Registration {
    pub capability: CodecCapability,
    pub payload_type: u8,
    pub video: bool,
}

/// The registrations of the three video codecs and of the audio codec, in this order.
pub open spec fn registers_all(list: Seq<Registration>) -> bool {
    &&& list.len() == 4
    &&& carries_video(list[0].capability, Codec::H264)
    &&& list[0].payload_type == 102 && list[0].video
    &&& carries_video(list[1].capability, Codec::Av1)
    &&& list[1].payload_type == 45 && list[1].video
    &&& carries_video(list[2].capability, Codec::H265)
    &&& list[2].payload_type == 127 && list[2].video
    &&& carries_audio(list[3].capability)
    &&& list[3].payload_type == 111 && !list[3].video
}

/// The codecs that are registered before any peer connects.
pub fn registrations() -> (list: Vec<Registration>)
    ensures
        registers_all(list@),
{
    vec![
        Registration {
            capability: video_capability(Codec::H264),
            payload_type: 102,
            video: true,
        },
        Registration { capability: video_capability(Codec::Av1), payload_type: 45, video: true },
        Registration {
            capability: video_capability(Codec::H265),
            payload_type: 127,
            video: true,
        },
        Registration { capability: audio_capability(), payload_type: 111, video: false },
    ]
}

/// Whatever codec a viewer chooses, the track that carries it is of a registered kind; and no
/// two registrations share a payload type.
pub proof fn law_every_track_is_registered(list: Seq<Registration>, codec: Codec)
    requires
        registers_all(list),
    ensures
        exists|i: int|
            0 <= i < list.len() && list[i].video && carries_video(
                #[trigger] list[i].capability,
                codec,
            ),
        exists|i: int|
            0 <= i < list.len() && !list[i].video && carries_audio(#[trigger] list[i].capability),
        forall|i: int, j: int|
            0 <= i < j < list.len() ==> #[trigger] list[i].payload_type
                != #[trigger] list[j].payload_type,
{
    match codec {
        Codec::H264 => assert(carries_video(list[0].capability, codec)),
        Codec::Av1 => assert(carries_video(list[1].capability, codec)),
        Codec::H265 => assert(carries_video(list[2].capability, codec)),
    }
    assert(carries_audio(list[3].capability));
}

/// What a data channel is for.
#[derive(Clone, Copy, Debug, PartialEq, Eq, Structural)]
pub enum ChannelRole {
    /// Settings of the stream, and input that must arrive in order.
    Control,
    /// Pointer movements, of which the newest matters.
    Pointer,
    /// Nothing that Beam knows.
    Unknown,
}

/// The role of the channel with the given label.
pub open spec fn role_of(label: Seq<char>) -> ChannelRole {
    if label == "input"@ {
        ChannelRole::Control
    } else if label == "pointer"@ {
        ChannelRole::Pointer
    } else {
        ChannelRole::Unknown
    }
}

pub fn channel_role(label: &str) -> (role: ChannelRole)
    ensures
        role == role_of(label@),
{
    if same(label, "input") {
        ChannelRole::Control
    } else if same(label, "pointer") {
        ChannelRole::Pointer
    } else {
        ChannelRole::Unknown
    }
}

/// A change of the stream settings; what is absent stays as it is.
#[derive(Clone, Copy, Debug, PartialEq, Eq, Structural)]
pub struct SettingsChange {
    pub codec: Option<Codec>,
    pub resolution: Option<Resolution>,
    pub bitrate: Option<u32>,
    pub host_cursor_visible: Option<bool>,
}

/// The least bit rate of a stream, in bits per second.
pub const MIN_BITRATE: u32 = 1_000_000;

/// The greatest bit rate of a stream, in bits per second.
pub const MAX_BITRATE: u32 = 200_000_000;

pub open spec fn or_current<T>(chosen: Option<T>, current: T) -> T {
    match chosen {
        Some(value) => value,
        None => current,
    }
}

/// A bit rate held within its bounds.
pub open spec fn bounded_bitrate(bitrate: u32) -> u32 {
    if bitrate < MIN_BITRATE {
        MIN_BITRATE
    } else if bitrate > MAX_BITRATE {
        MAX_BITRATE
    } else {
        bitrate
    }
}

/// The settings after a change.
pub open spec fn changed(current: StreamSettings, change: SettingsChange) -> StreamSettings {
    StreamSettings {
        codec: or_current(change.codec, current.codec),
        resolution: or_current(change.resolution, current.resolution).clamped(),
        bitrate: bounded_bitrate(or_current(change.bitrate, current.bitrate)),
        host_cursor_visible: or_current(change.host_cursor_visible, current.host_cursor_visible),
    }
}

/// Settings that any change leads to: a resolution between a quarter and one, and a bit rate
/// within its bounds.
pub open spec fn in_bounds(settings: StreamSettings) -> bool {
    &&& QUARTER <= settings.resolution.bits <= ONE
    &&& MIN_BITRATE <= settings.bitrate <= MAX_BITRATE
}

/// The settings after a change.
pub fn change_settings(current: &StreamSettings, change: &SettingsChange) -> (next: StreamSettings)
    ensures
        next == changed(*current, *change),
{
    let resolution: Resolution = match change.resolution {
        Some(resolution) => resolution,
        None => current.resolution,
    };
    let bitrate: u32 = match change.bitrate {
        Some(bitrate) => bitrate,
        None => current.bitrate,
    };
    StreamSettings {
        codec: match change.codec {
            Some(codec) => codec,
            None => current.codec,
        },
        resolution: resolution.clamp(),
        bitrate: if bitrate < MIN_BITRATE {
            MIN_BITRATE
        } else if bitrate > MAX_BITRATE {
            MAX_BITRATE
        } else {
            bitrate
        },
        host_cursor_visible: match change.host_cursor_visible {
            Some(visible) => visible,
            None => current.host_cursor_visible,
        },
    }
}

/// A change leads to settings within bounds, whatever numbers it asks for.
pub proof fn law_changed_settings_are_in_bounds(current: StreamSettings, change: SettingsChange)
    requires
        or_current(change.resolution, current.resolution).is_number(),
    ensures
        in_bounds(changed(current, change)),
{
    law_resolution_range(or_current(change.resolution, current.resolution));
}

/// Making a change a second time changes nothing, nor does a change that asks for nothing.
pub proof fn law_changes_are_idempotent(
    current: StreamSettings,
    change: SettingsChange,
    nothing: SettingsChange,
)
    requires
        nothing == (SettingsChange {
            codec: None,
            resolution: None,
            bitrate: None,
            host_cursor_visible: None,
        }),
    ensures
        changed(changed(current, change), change) == changed(current, change),
        changed(changed(current, change), nothing) == changed(current, change),
        in_bounds(current) ==> changed(current, nothing) == current,
{
}

/// What is done about a message on a data channel.
#[derive(Clone, Copy, Debug, PartialEq, Eq, Structural)]
pub enum MessageAction {
    /// Tell the peer the settings that are now in effect.
    Reply(StreamSettings),
    /// Hand the message to the input.
    Forward,
    /// Nothing.
    Ignore,
}

/// How often the statistics of the stream are sent, in milliseconds.
pub const STATS_INTERVAL_MILLIS: u64 = 250;

/// The time that the encoder takes, in microseconds, as it is shown after a frame. The first
/// packets behind a change of codec carry no time: the last reading stays.
pub open spec fn reading_after(current: u64, encode_duration: Duration) -> u64 {
    if encode_duration.nanos == 0 {
        current
    } else {
        (encode_duration.nanos / NANOS_PER_MICRO) as u64
    }
}

/// The reading after a row of frames.
pub open spec fn reading_after_all(current: u64, frames: Seq<Duration>) -> u64
    decreases frames.len(),
{
    if frames.len() == 0 {
        current
    } else {
        reading_after(reading_after_all(current, frames.drop_last()), frames.last())
    }
}

/// The reading is that of the last frame with a time: frames without one behind it do not
/// change it.
pub proof fn law_warmup_keeps_the_reading(current: u64, frames: Seq<Duration>, warmup: Seq<Duration>)
    requires
        forall|i: int| 0 <= i < warmup.len() ==> (#[trigger] warmup[i]).nanos == 0,
    ensures
        reading_after_all(current, frames + warmup) == reading_after_all(current, frames),
    decreases warmup.len(),
{
    let all = frames + warmup;
    if warmup.len() == 0 {
        assert(all =~= frames);
    } else {
        assert(all.drop_last() =~= frames + warmup.drop_last());
        law_warmup_keeps_the_reading(current, frames, warmup.drop_last());
    }
}

/// What all sessions share.
pub struct Media {
    pub settings: StreamSettings,
    pub hardware_codecs: HardwareCodecAvailability,
    /// Sources outlive the sessions that they were started for.
    pub persistent_sessions: bool,
    /// The time that the encoder takes for a frame, in microseconds.
    pub encode_duration_us: u64,
    /// The session that is served.
    pub active: Option<u64>,
    /// How many sessions there have been.
    pub started: u64,
}

/// What is known when an offer has come.
pub struct Answer {
    /// The session that has to end first.
    pub previous: Option<u64>,
    /// The settings that hold for the whole session.
    pub settings: StreamSettings,
    /// What the video track carries.
    pub video: CodecCapability,
    /// What the audio track carries.
    pub audio: CodecCapability,
}

impl Answer {
    /// The session that a step of the answer tells to end.
    pub open spec fn told_in(self, step: AnswerStep) -> Option<u64> {
        if step is EndPrevious {
            self.previous
        } else {
            None
        }
    }

    /// The session that has to be told to end in a step of the answer, if any.
    pub fn to_end(&self, step: AnswerStep) -> (session: Option<u64>)
        ensures
            session == self.told_in(step),
    {
        match step {
            AnswerStep::EndPrevious => self.previous,
            _ => None,
        }
    }
}

/// What all sessions share, when an offer has come and no session is served.
pub open spec fn offered(media: Media) -> Media {
    Media { active: None, ..media }
}

/// The answer to an offer that comes now: it ends the session that is served, and offers what
/// the settings ask for.
pub open spec fn is_answer_to(answer: Answer, media: Media) -> bool {
    &&& answer.previous == media.active
    &&& answer.settings == media.settings
    &&& carries_video(answer.video, media.settings.codec)
    &&& carries_audio(answer.audio)
}

/// What all sessions share, when another one is served.
pub open spec fn begun(media: Media) -> Media {
    Media { active: Some(media.started), started: (media.started + 1) as u64, ..media }
}

/// What all sessions share, behind a step of an answer.
pub open spec fn stepped(media: Media, step: AnswerStep, succeeded: bool) -> Media {
    if step is CreatePeer && succeeded {
        begun(media)
    } else {
        media
    }
}

impl Media {
    /// The number of every session is less than the count.
    pub open spec fn wf(self) -> bool {
        self.active matches Some(session) ==> session < self.started
    }

    pub fn new(persistent_sessions: bool, hardware_codecs: HardwareCodecAvailability) -> (media:
        Media)
        ensures
            media.wf(),
            media.settings == (StreamSettings {
                codec: CODEC,
                resolution: Resolution { bits: ONE },
                bitrate: 40_000_000,
                host_cursor_visible: true,
            }),
            media.hardware_codecs == hardware_codecs,
            media.persistent_sessions == persistent_sessions,
            media.encode_duration_us == 0,
            media.active is None,
            media.started == 0,
    {
        Media {
            settings: StreamSettings::default(),
            hardware_codecs,
            persistent_sessions,
            encode_duration_us: 0,
            active: None,
            started: 0,
        }
    }

    /// Begins to answer an offer: the session that is served, if any, ends.
    pub fn answer(&mut self) -> (answer: Answer)
        requires
            old(self).wf(),
        ensures
            final(self).wf(),
            *final(self) == offered(*old(self)),
            is_answer_to(answer, *old(self)),
    {
        Answer {
            previous: self.active.take(),
            settings: self.settings,
            video: video_capability(self.settings.codec),
            audio: audio_capability(),
        }
    }

    /// Makes a session the one that is served, as there is a connection for it, and numbers it.
    pub fn begin_session(&mut self) -> (session: u64)
        requires
            old(self).wf(),
            old(self).started < u64::MAX,
        ensures
            final(self).wf(),
            *final(self) == begun(*old(self)),
            session == old(self).started,
    {
        let session: u64 = self.started;
        self.started = session + 1;
        self.active = Some(session);
        session
    }

    /// Decides what follows a step of an answer, by whether it succeeded. Once there is a
    /// connection, its session is the one that is served.
    pub fn after_step(&mut self, step: AnswerStep, succeeded: bool) -> (next: AnswerStep)
        requires
            old(self).wf(),
            step is CreatePeer && succeeded ==> old(self).started < u64::MAX,
        ensures
            final(self).wf(),
            *final(self) == stepped(*old(self), step, succeeded),
            next == following(step, succeeded),
    {
        if step == AnswerStep::CreatePeer && succeeded {
            self.begin_session();
        }
        next_step(step, succeeded)
    }

    /// Ends the session that is served, if any, and returns it.
    pub fn shutdown(&mut self) -> (session: Option<u64>)
        requires
            old(self).wf(),
        ensures
            final(self).wf(),
            *final(self) == offered(*old(self)),
            session == old(self).active,
    {
        self.active.take()
    }

    /// Decides on a message that came on a channel of the given role. `change` is what the
    /// message asks for, where it can be read as a change of the settings.
    pub fn on_message(&mut self, role: ChannelRole, change: Option<SettingsChange>) -> (action:
        MessageAction)
        ensures
            match (role, change) {
                (ChannelRole::Control, Some(change)) => {
                    &&& *final(self) == (Media {
                        settings: changed(old(self).settings, change),
                        ..*old(self)
                    })
                    &&& action == MessageAction::Reply(final(self).settings)
                },
                (ChannelRole::Unknown, _) => *final(self) == *old(self) && action
                    == MessageAction::Ignore,
                _ => *final(self) == *old(self) && action == MessageAction::Forward,
            },
    {
        match role {
            ChannelRole::Control => match change {
                Some(change) => {
                    self.settings = change_settings(&self.settings, &change);
                    MessageAction::Reply(self.settings)
                },
                None => MessageAction::Forward,
            },
            ChannelRole::Pointer => MessageAction::Forward,
            ChannelRole::Unknown => MessageAction::Ignore,
        }
    }

    /// Takes note of the time that a frame took to encode.
    pub fn on_frame(&mut self, encode_duration: Duration)
        ensures
            *final(self) == (Media {
                encode_duration_us: reading_after(old(self).encode_duration_us, encode_duration),
                ..*old(self)
            }),
    {
        if !encode_duration.is_zero() {
            self.encode_duration_us =
            #[verifier::truncate]
            (encode_duration.as_micros() as u64);
        }
    }
}

/// What happens to the sessions.
#[derive(Clone, Copy, Debug, PartialEq, Eq, Structural)]
pub enum MediaEvent {
    /// An offer came.
    Offer,
    /// There is a connection for the offer.
    Begin,
    /// Beam ends.
    Shutdown,
}

/// The sessions after a row of events: how many there have been, which is served, and which
/// have been ended, in order.
pub open spec fn sessions_after(events: Seq<MediaEvent>) -> (int, Option<int>, Seq<int>)
    decreases events.len(),
{
    if events.len() == 0 {
        (0, None, Seq::empty())
    } else {
        let (started, active, ended) = sessions_after(events.drop_last());
        match events.last() {
            MediaEvent::Begin => (started + 1, Some(started), ended),
            _ => (
                started,
                None,
                match active {
                    Some(session) => ended.push(session),
                    None => ended,
                },
            ),
        }
    }
}

/// Event `i` makes no session out of turn: an offer stands before it.
pub open spec fn comes_in_turn(events: Seq<MediaEvent>, i: int) -> bool {
    events[i] == MediaEvent::Begin ==> i > 0 && events[i - 1] == MediaEvent::Offer
}

/// Offers are answered one at a time: every connection is preceded by its offer.
pub open spec fn in_turn(events: Seq<MediaEvent>) -> bool {
    forall|i: int| 0 <= i < events.len() ==> #[trigger] comes_in_turn(events, i)
}

/// The first `count` numbers.
pub open spec fn first_numbers(count: int) -> Seq<int> {
    Seq::new(count as nat, |i: int| i)
}

/// No session is forgotten: of those that have begun, in order, all but the one that is served
/// have been ended, each once.
pub proof fn law_one_session_at_a_time(events: Seq<MediaEvent>)
    requires
        in_turn(events),
    ensures
        ({
            let (started, active, ended) = sessions_after(events);
            &&& started >= 0
            &&& active is Some ==> started > 0 && active == Some(started - 1)
            &&& ended == first_numbers(
                if active is Some {
                    started - 1
                } else {
                    started
                },
            )
        }),
        events.len() > 0 && events.last() != MediaEvent::Begin ==> sessions_after(events).1 is None,
    decreases events.len(),
{
    if events.len() > 0 {
        let before = events.drop_last();
        assert forall|i: int| 0 <= i < before.len() implies #[trigger] comes_in_turn(before, i) by {
            assert(comes_in_turn(events, i));
        }
        law_one_session_at_a_time(before);
        if events.last() == MediaEvent::Begin {
            assert(comes_in_turn(events, events.len() - 1));
            assert(before.last() == MediaEvent::Offer);
        }
        let (started, active, ended) = sessions_after(before);
        if events.last() != MediaEvent::Begin && active is Some {
            assert(ended.push(started - 1) =~= first_numbers(started));
        }
    }
}

/// The steps of an answer to an offer.
#[derive(Clone, Copy, Debug, PartialEq, Eq, Structural)]
pub enum AnswerStep {
    /// Tell the session that is served to end, and close its connection.
    EndPrevious,
    CreatePeer,
    AddVideoTrack,
    AddAudioTrack,
    /// Read the offer and hand it to the connection.
    SetOffer,
    CreateAnswer,
    SetAnswer,
    /// Wait until the addresses under which this machine is reached have been gathered.
    GatherCandidates,
    /// Read the answer as it stands now.
    ReadAnswer,
    /// Start the session and send the answer.
    Done,
    /// Report that there is no answer.
    MissingAnswer,
    /// Report what failed.
    Failed,
}

/// The place of a step in the order in which they come.
pub open spec fn rank(step: AnswerStep) -> int {
    match step {
        AnswerStep::EndPrevious => 0,
        AnswerStep::CreatePeer => 1,
        AnswerStep::AddVideoTrack => 2,
        AnswerStep::AddAudioTrack => 3,
        AnswerStep::SetOffer => 4,
        AnswerStep::CreateAnswer => 5,
        AnswerStep::SetAnswer => 6,
        AnswerStep::GatherCandidates => 7,
        AnswerStep::ReadAnswer => 8,
        _ => 9,
    }
}

/// The step in the given place, when all goes well.
pub open spec fn step_at(place: int) -> AnswerStep {
    if place <= 0 {
        AnswerStep::EndPrevious
    } else if place == 1 {
        AnswerStep::CreatePeer
    } else if place == 2 {
        AnswerStep::AddVideoTrack
    } else if place == 3 {
        AnswerStep::AddAudioTrack
    } else if place == 4 {
        AnswerStep::SetOffer
    } else if place == 5 {
        AnswerStep::CreateAnswer
    } else if place == 6 {
        AnswerStep::SetAnswer
    } else if place == 7 {
        AnswerStep::GatherCandidates
    } else if place == 8 {
        AnswerStep::ReadAnswer
    } else {
        AnswerStep::Done
    }
}

/// Whether it matters that a step succeeds.
pub open spec fn can_fail(step: AnswerStep) -> bool {
    !(step is EndPrevious || step is GatherCandidates) && rank(step) < 9
}

/// The step that follows, by whether the one before it succeeded.
pub open spec fn following(step: AnswerStep, succeeded: bool) -> AnswerStep {
    if rank(step) == 9 {
        step
    } else if succeeded || !can_fail(step) {
        step_at(rank(step) + 1)
    } else if step is ReadAnswer {
        AnswerStep::MissingAnswer
    } else {
        AnswerStep::Failed
    }
}

pub fn next_step(step: AnswerStep, succeeded: bool) -> (next: AnswerStep)
    ensures
        next == following(step, succeeded),
{
    match (step, succeeded) {
        (AnswerStep::EndPrevious, _) => AnswerStep::CreatePeer,
        (AnswerStep::CreatePeer, true) => AnswerStep::AddVideoTrack,
        (AnswerStep::AddVideoTrack, true) => AnswerStep::AddAudioTrack,
        (AnswerStep::AddAudioTrack, true) => AnswerStep::SetOffer,
        (AnswerStep::SetOffer, true) => AnswerStep::CreateAnswer,
        (AnswerStep::CreateAnswer, true) => AnswerStep::SetAnswer,
        (AnswerStep::SetAnswer, true) => AnswerStep::GatherCandidates,
        (AnswerStep::GatherCandidates, _) => AnswerStep::ReadAnswer,
        (AnswerStep::ReadAnswer, true) => AnswerStep::Done,
        (AnswerStep::ReadAnswer, false) => AnswerStep::MissingAnswer,
        (AnswerStep::Done, _) => AnswerStep::Done,
        (AnswerStep::MissingAnswer, _) => AnswerStep::MissingAnswer,
        _ => AnswerStep::Failed,
    }
}

/// The step that is reached when the steps had the given outcomes.
pub open spec fn step_after(outcomes: Seq<bool>) -> AnswerStep
    decreases outcomes.len(),
{
    if outcomes.len() == 0 {
        AnswerStep::EndPrevious
    } else {
        following(step_after(outcomes.drop_last()), outcomes.last())
    }
}

/// No step that matters failed.
pub open spec fn all_went_well(outcomes: Seq<bool>) -> bool {
    forall|i: int| 0 <= i < outcomes.len() && can_fail(step_at(i)) ==> #[trigger] outcomes[i]
}

/// An offer is answered, and its session started, exactly when every step has been taken and
/// none that matters failed; and after as many outcomes as there are steps it is decided.
pub proof fn law_answers_need_every_step(outcomes: Seq<bool>)
    ensures
        step_after(outcomes) is Done <==> outcomes.len() >= 9 && all_went_well(outcomes.take(9)),
        outcomes.len() >= 9 ==> rank(step_after(outcomes)) == 9,
        outcomes.len() < 9 && all_went_well(outcomes) ==> step_after(outcomes) == step_at(
            outcomes.len() as int,
        ),
        outcomes.len() < 9 && !all_went_well(outcomes) ==> step_after(outcomes) is Failed
            || step_after(outcomes) is MissingAnswer,
    decreases outcomes.len(),
{
    if outcomes.len() > 0 {
        let before = outcomes.drop_last();
        let n = before.len() as int;
        law_answers_need_every_step(before);
        if n >= 9 {
            assert(before.take(9) =~= outcomes.take(9));
        } else {
            assert(all_went_well(outcomes) <==> all_went_well(before) && (can_fail(step_at(n))
                ==> outcomes.last())) by {
                assert forall|i: int| 0 <= i < n implies before[i] == outcomes[i] by {}
                if all_went_well(outcomes) {
                    assert forall|i: int| 0 <= i < n && can_fail(step_at(i)) implies #[trigger] before[i] by {
                        assert(outcomes[i]);
                    }
                    assert(outcomes[n] == outcomes.last());
                }
                if all_went_well(before) && (can_fail(step_at(n)) ==> outcomes.last()) {
                    assert forall|i: int| 0 <= i < outcomes.len() && can_fail(step_at(i)) implies #[trigger] outcomes[i] by {
                        if i < n {
                            assert(before[i]);
                        }
                    }
                }
            }
            if n == 8 {
                assert(outcomes.take(9) =~= outcomes);
            }
        }
    }
}

/// An offer is not answered once a step that matters has failed, such as reading it.
pub proof fn law_failed_steps_are_final(outcomes: Seq<bool>, place: int)
    requires
        0 <= place < 9,
        place < outcomes.len(),
        can_fail(step_at(place)),
        !outcomes[place],
    ensures
        !(step_after(outcomes) is Done),
        outcomes.len() == place + 1 ==> step_after(outcomes) is Failed || step_after(outcomes)
            is MissingAnswer,
{
    law_answers_need_every_step(outcomes);
    if outcomes.len() >= 9 {
        assert(outcomes.take(9)[place] == outcomes[place]);
        assert(!all_went_well(outcomes.take(9)));
    } else {
        assert(!all_went_well(outcomes));
    }
    if outcomes.len() == 9 {
        law_answers_need_every_step(outcomes.drop_last());
        assert(outcomes.take(9) =~= outcomes);
    }
}

/// What all sessions share, when an offer has come and the steps of its answer had the given
/// outcomes.
pub open spec fn answered(media: Media, outcomes: Seq<bool>) -> Media
    decreases outcomes.len(),
{
    if outcomes.len() == 0 {
        offered(media)
    } else {
        let before = outcomes.drop_last();
        stepped(answered(media, before), step_after(before), outcomes.last())
    }
}

proof fn lemma_answered(media: Media, outcomes: Seq<bool>)
    requires
        media.started < u64::MAX,
    ensures
        answered(media, outcomes) == if outcomes.len() >= 2 && outcomes[1] {
            begun(offered(media))
        } else {
            offered(media)
        },
    decreases outcomes.len(),
{
    if outcomes.len() > 0 {
        let before = outcomes.drop_last();
        lemma_answered(media, before);
        law_answers_need_every_step(before);
        if before.len() >= 2 {
            assert(before[1] == outcomes[1]);
        }
        if before.len() == 1 {
            assert(all_went_well(before));
        }
    }
}

/// An offer ends the session that was served, once and before anything else, also where it is
/// not answered in the end. Where it is answered, one session is served, the new one, and its
/// video track carries the codec of the settings that held when the offer came.
pub proof fn law_offers_replace_the_session(media: Media, answer: Answer, outcomes: Seq<bool>)
    requires
        media.wf(),
        media.started < u64::MAX,
        is_answer_to(answer, media),
        rank(step_after(outcomes)) == 9,
    ensures
        outcomes.len() > 0,
        answer.told_in(step_after(outcomes.take(0))) == media.active,
        forall|i: int|
            0 < i < outcomes.len() ==> (#[trigger] answer.told_in(step_after(outcomes.take(i))))
                is None,
        answered(media, outcomes).wf(),
        media.active is Some ==> answered(media, outcomes).active != media.active,
        step_after(outcomes) is Done ==> {
            &&& answered(media, outcomes) == begun(offered(media))
            &&& answered(media, outcomes).active == Some(media.started)
            &&& carries_video(answer.video, media.settings.codec)
            &&& answer.settings == media.settings
        },
{
    law_answers_need_every_step(outcomes);
    lemma_answered(media, outcomes);
    assert(outcomes.take(0) =~= Seq::<bool>::empty());
    assert forall|i: int| 0 < i < outcomes.len() implies (#[trigger] answer.told_in(
        step_after(outcomes.take(i)),
    )) is None by {
        law_answers_need_every_step(outcomes.take(i));
    }
    if step_after(outcomes) is Done {
        assert(outcomes.take(9)[1] == outcomes[1]);
        assert(can_fail(step_at(1)));
    }
}

/// `webrtc::peer_connection::sdp::session_description::RTCSessionDescription`, which is handed
/// on to the connection and not looked into.
#[verifier::external_type_specification]
#[verifier::external_body]
pub struct ExSessionDescription(RTCSessionDescription);

/// `webrtc::Error`, which is told apart from success and not looked into.
#[verifier::external_type_specification]
#[verifier::external_body]
pub struct ExWebrtcError(webrtc::Error);

/// The offer that a text describes; `None` where it is no session description.
pub uninterp spec fn described(sdp: Seq<char>) -> Option<RTCSessionDescription>;

/// `RTCSessionDescription::offer` reads a text as the description of an offer. What it gives
/// rests on the text alone.
#[verifier::external_body]
fn parse_offer(sdp: String) -> (offer: Result<RTCSessionDescription, webrtc::Error>)
    ensures
        described(sdp@) == match offer {
            Ok(offer) => Some(offer),
            Err(_) => None,
        },
{
    RTCSessionDescription::offer(sdp)
}

/// Reads the offer of a peer, where it is a session description. Where it is none, the step that
/// sets the offer has failed.
pub fn read_offer(sdp: String) -> (offer: Option<RTCSessionDescription>)
    ensures
        offer == described(sdp@),
{
    match parse_offer(sdp) {
        Ok(offer) => Some(offer),
        Err(_) => None,
    }
}

/// Why an offer got no answer although nothing failed.
pub const MISSING_ANSWER: &'static str = "missing local description";

/// How a connection to a peer stands.
#[derive(Clone, Copy, Debug, PartialEq, Eq, Structural)]
pub enum ConnectionState {
    Unspecified,
    New,
    Connecting,
    Connected,
    Disconnected,
    Failed,
    Closed,
}

/// How long a peer may take to connect, in seconds.
pub const CONNECT_TIMEOUT_SECONDS: u64 = 15;

/// How often the state is read while a peer connects, in milliseconds.
pub const CONNECT_POLL_MILLIS: u64 = 50;

/// How long a stream waits for something to happen before it reads the state, in milliseconds.
pub const STATE_POLL_MILLIS: u64 = 100;

/// Where a session stands.
#[derive(Clone, Copy, Debug, PartialEq, Eq, Structural)]
pub enum Phase {
    /// The peer connects.
    Connecting,
    /// The peer no longer connects: whether it is connected is read next.
    Settled,
    /// The stream waits for something to happen.
    Streaming,
    /// A video frame is being sent.
    SendingVideo,
    /// An audio frame is being sent.
    SendingAudio,
    /// The session has ended.
    Over,
}

/// What can happen to a session.
#[derive(Clone, Copy, Debug, PartialEq, Eq, Structural)]
pub enum SessionEvent {
    /// The state of the connection was read.
    State(ConnectionState),
    /// The peer took too long to connect.
    ConnectTimeout,
    /// The session was told to end.
    Shutdown,
    /// Capture failed; `cached` where the source is the one that is kept for later sessions.
    SourceFailed { cached: bool },
    /// The encoder failed.
    EncoderFailed,
    /// There is a video frame to send, or there will be none.
    Video { ended: bool },
    /// There is an audio frame to send, or there will be none.
    Audio { ended: bool },
    /// The frame was sent, or could not be.
    Sent { failed: bool },
}

/// What is done next.
#[derive(Clone, Copy, Debug, PartialEq, Eq, Structural)]
pub enum SessionAction {
    /// Read the state again after a while, unless told to end.
    PollState,
    /// Read the state now.
    ReadState,
    /// Start capture, the encoder and the audio.
    Start,
    /// Wait for the next thing to happen.
    Wait,
    /// Send the video frame.
    SendVideo,
    /// Send the audio frame.
    SendAudio,
    /// Close the connection: nothing was started.
    Close,
    /// Stop the encoder, the audio and, where it serves this session alone, the source; forget
    /// the source that is kept for later sessions where it failed; close the connection.
    Finish { forget_source: bool, stop_source: bool },
}

/// The peer has not yet connected, nor failed to.
pub open spec fn connects(state: ConnectionState) -> bool {
    state is New || state is Connecting
}

/// The event ends a session in this phase.
pub open spec fn ends(phase: Phase, event: SessionEvent) -> bool {
    match phase {
        Phase::Connecting => event is Shutdown || event is ConnectTimeout,
        Phase::Settled => event is State && event->0 != ConnectionState::Connected,
        Phase::Streaming => match event {
            SessionEvent::State(state) => state != ConnectionState::Connected,
            SessionEvent::Shutdown => true,
            SessionEvent::SourceFailed { .. } => true,
            SessionEvent::EncoderFailed => true,
            SessionEvent::Video { ended } => ended,
            SessionEvent::Audio { ended } => ended,
            _ => false,
        },
        Phase::SendingVideo => event is Shutdown || event == (SessionEvent::Sent { failed: true }),
        Phase::SendingAudio => event == (SessionEvent::Sent { failed: true }),
        Phase::Over => false,
    }
}

/// The phase behind an event. An event that the phase does not wait for changes nothing.
pub open spec fn next_phase(phase: Phase, event: SessionEvent) -> Phase {
    if ends(phase, event) {
        Phase::Over
    } else {
        match (phase, event) {
            (Phase::Connecting, SessionEvent::State(state)) => if connects(state) {
                Phase::Connecting
            } else {
                Phase::Settled
            },
            (Phase::Settled, SessionEvent::State(_)) => Phase::Streaming,
            (Phase::Streaming, SessionEvent::Video { .. }) => Phase::SendingVideo,
            (Phase::Streaming, SessionEvent::Audio { .. }) => Phase::SendingAudio,
            (Phase::SendingVideo, SessionEvent::Sent { .. }) => Phase::Streaming,
            (Phase::SendingAudio, SessionEvent::Sent { .. }) => Phase::Streaming,
            _ => phase,
        }
    }
}

/// What is done on an event.
pub open spec fn action_on(phase: Phase, event: SessionEvent, persistent: bool) -> SessionAction {
    if ends(phase, event) {
        if phase is Connecting || phase is Settled {
            SessionAction::Close
        } else {
            SessionAction::Finish {
                forget_source: persistent && event == (SessionEvent::SourceFailed { cached: true }),
                stop_source: !persistent,
            }
        }
    } else {
        match (phase, event) {
            (Phase::Connecting, SessionEvent::State(state)) => if connects(state) {
                SessionAction::PollState
            } else {
                SessionAction::ReadState
            },
            (Phase::Settled, SessionEvent::State(_)) => SessionAction::Start,
            (Phase::Streaming, SessionEvent::Video { .. }) => SessionAction::SendVideo,
            (Phase::Streaming, SessionEvent::Audio { .. }) => SessionAction::SendAudio,
            _ => SessionAction::Wait,
        }
    }
}

/// A session with one peer. The sources of persistent sessions outlive them.
pub struct StreamSession {
    pub phase: Phase,
    pub persistent: bool,
}

impl StreamSession {
    pub fn new(persistent: bool) -> (session: StreamSession)
        ensures
            session.phase == Phase::Connecting,
            session.persistent == persistent,
    {
        StreamSession { phase: Phase::Connecting, persistent }
    }

    /// Ends the session and says what is left to do.
    fn end(&mut self, forget_source: bool) -> (action: SessionAction)
        ensures
            final(self).phase == Phase::Over,
            final(self).persistent == old(self).persistent,
            action == if old(self).phase is Connecting || old(self).phase is Settled {
                SessionAction::Close
            } else {
                SessionAction::Finish { forget_source, stop_source: !old(self).persistent }
            },
    {
        let action: SessionAction = match self.phase {
            Phase::Connecting | Phase::Settled => SessionAction::Close,
            _ => SessionAction::Finish { forget_source, stop_source: !self.persistent },
        };
        self.phase = Phase::Over;
        action
    }

    /// Decides what is done on an event.
    pub fn on_event(&mut self, event: SessionEvent) -> (action: SessionAction)
        ensures
            final(self).phase == next_phase(old(self).phase, event),
            final(self).persistent == old(self).persistent,
            action == action_on(old(self).phase, event, old(self).persistent),
    {
        match self.phase {
            Phase::Connecting => match event {
                SessionEvent::State(ConnectionState::New)
                | SessionEvent::State(ConnectionState::Connecting) => SessionAction::PollState,
                SessionEvent::State(_) => {
                    self.phase = Phase::Settled;
                    SessionAction::ReadState
                },
                SessionEvent::Shutdown | SessionEvent::ConnectTimeout => self.end(false),
                _ => SessionAction::Wait,
            },
            Phase::Settled => match event {
                SessionEvent::State(ConnectionState::Connected) => {
                    self.phase = Phase::Streaming;
                    SessionAction::Start
                },
                SessionEvent::State(_) => self.end(false),
                _ => SessionAction::Wait,
            },
            Phase::Streaming => self.on_stream_event(event),
            Phase::SendingVideo => match event {
                SessionEvent::Shutdown => self.end(false),
                SessionEvent::Sent { failed } => if failed {
                    self.end(false)
                } else {
                    self.phase = Phase::Streaming;
                    SessionAction::Wait
                },
                _ => SessionAction::Wait,
            },
            Phase::SendingAudio => match event {
                SessionEvent::Sent { failed } => if failed {
                    self.end(false)
                } else {
                    self.phase = Phase::Streaming;
                    SessionAction::Wait
                },
                _ => SessionAction::Wait,
            },
            Phase::Over => SessionAction::Wait,
        }
    }

    /// Decides on an event that comes while the stream waits for one.
    fn on_stream_event(&mut self, event: SessionEvent) -> (action: SessionAction)
        requires
            old(self).phase is Streaming,
        ensures
            final(self).phase == next_phase(Phase::Streaming, event),
            final(self).persistent == old(self).persistent,
            action == action_on(Phase::Streaming, event, old(self).persistent),
    {
        match event {
            SessionEvent::State(ConnectionState::Connected) => SessionAction::Wait,
            SessionEvent::State(_) => self.end(false),
            SessionEvent::Shutdown => self.end(false),
            SessionEvent::SourceFailed { cached } => {
                let forget: bool = self.persistent && cached;
                self.end(forget)
            },
            SessionEvent::EncoderFailed => self.end(false),
            SessionEvent::Video { ended } => if ended {
                self.end(false)
            } else {
                self.phase = Phase::SendingVideo;
                SessionAction::SendVideo
            },
            SessionEvent::Audio { ended } => if ended {
                self.end(false)
            } else {
                self.phase = Phase::SendingAudio;
                SessionAction::SendAudio
            },
            SessionEvent::ConnectTimeout | SessionEvent::Sent { .. } => SessionAction::Wait,
        }
    }
}

/// The phase behind a row of events.
pub open spec fn phase_after(phase: Phase, events: Seq<SessionEvent>) -> Phase
    decreases events.len(),
{
    if events.len() == 0 {
        phase
    } else {
        next_phase(phase_after(phase, events.drop_last()), events.last())
    }
}

/// The action closes the connection.
pub open spec fn closes(action: SessionAction) -> bool {
    action is Close || action is Finish
}

/// A session ends once: what ended stays ended, whatever happens behind it.
pub proof fn law_what_ended_stays_ended(
    phase: Phase,
    before: Seq<SessionEvent>,
    after: Seq<SessionEvent>,
)
    requires
        phase_after(phase, before) is Over,
    ensures
        phase_after(phase, before + after) is Over,
    decreases after.len(),
{
    let all = before + after;
    if after.len() == 0 {
        assert(all =~= before);
    } else {
        assert(all.drop_last() =~= before + after.drop_last());
        law_what_ended_stays_ended(phase, before, after.drop_last());
    }
}

/// The connection is closed exactly when the session ends, so it is closed once; what was
/// started is stopped exactly where it was started.
pub proof fn law_the_end_closes_the_connection(phase: Phase, event: SessionEvent, persistent: bool)
    ensures
        closes(action_on(phase, event, persistent)) <==> !(phase is Over) && next_phase(
            phase,
            event,
        ) is Over,
        action_on(phase, event, persistent) is Finish ==> !(phase is Connecting) && !(
        phase is Settled),
        action_on(phase, event, persistent) is Close ==> phase is Connecting || phase is Settled,
{
}

/// Nothing is streamed to a peer that never connected.
pub proof fn law_streams_need_a_connection(events: Seq<SessionEvent>)
    requires
        phase_after(Phase::Connecting, events) is Streaming || phase_after(
            Phase::Connecting,
            events,
        ) is SendingVideo || phase_after(Phase::Connecting, events) is SendingAudio,
    ensures
        events.contains(SessionEvent::State(ConnectionState::Connected)),
    decreases events.len(),
{
    if events.len() > 0 {
        let before = phase_after(Phase::Connecting, events.drop_last());
        if before is Settled {
            assert(events.last() == SessionEvent::State(ConnectionState::Connected));
            assert(events[events.len() - 1] == events.last());
        } else {
            law_streams_need_a_connection(events.drop_last());
            let i = choose|i: int|
                0 <= i < events.drop_last().len() && events.drop_last()[i] == SessionEvent::State(
                    ConnectionState::Connected,
                );
            assert(events[i] == SessionEvent::State(ConnectionState::Connected));
        }
    }
}

/// A source that is kept for later sessions survives a session's end unless it failed, and a
/// source that serves one session alone never does.
pub proof fn law_persistent_sources_survive(phase: Phase, event: SessionEvent, persistent: bool)
    requires
        action_on(phase, event, persistent) is Finish,
    ensures
        action_on(phase, event, persistent)->stop_source == !persistent,
        action_on(phase, event, persistent)->forget_source ==> persistent
            && event is SourceFailed,
{
}

/// Where the source of a session comes from.
#[derive(Clone, Copy, Debug, PartialEq, Eq, Structural)]
pub enum SourcePlan {
    /// The one that is kept.
    Reuse,
    /// A new one, which is kept.
    StartAndKeep,
    /// A new one for this session alone.
    Start,
}

/// Where the source of a session comes from. `kept` tells of the source that is kept for
/// persistent sessions, if there is one, whether it has closed.
pub fn plan_source(persistent: bool, kept: Option<bool>) -> (plan: SourcePlan)
    ensures
        plan == if !persistent {
            SourcePlan::Start
        } else if kept == Some(false) {
            SourcePlan::Reuse
        } else {
            SourcePlan::StartAndKeep
        },
{
    if !persistent {
        return SourcePlan::Start;
    }
    match kept {
        Some(closed) => if closed {
            SourcePlan::StartAndKeep
        } else {
            SourcePlan::Reuse
        },
        None => SourcePlan::StartAndKeep,
    }
}

/// What a change names is what holds afterwards: the codec and the visibility of the pointer as
/// they are named, a resolution and a bit rate as they are named where they are within bounds,
/// and at the nearer bound where they are not.
pub proof fn law_what_is_chosen_holds(current: StreamSettings, change: SettingsChange)
    ensures
        change.codec is Some ==> changed(current, change).codec == change.codec->0,
        change.host_cursor_visible is Some ==> changed(current, change).host_cursor_visible
            == change.host_cursor_visible->0,
        change.resolution is Some && 0x3e80_0000 <= change.resolution->0.bits <= 0x3f80_0000
            ==> changed(current, change).resolution == change.resolution->0,
        change.bitrate is Some && 1_000_000 <= change.bitrate->0 <= 200_000_000 ==> changed(
            current,
            change,
        ).bitrate == change.bitrate->0,
        change.bitrate is Some && change.bitrate->0 < 1_000_000 ==> changed(current, change).bitrate
            == 1_000_000,
        change.bitrate is Some && change.bitrate->0 > 200_000_000 ==> changed(
            current,
            change,
        ).bitrate == 200_000_000,
{
}

/// What a change does not name stays as it was, where it was within bounds.
pub proof fn law_what_is_not_chosen_stays(current: StreamSettings, change: SettingsChange)
    ensures
        change.codec is None ==> changed(current, change).codec == current.codec,
        change.host_cursor_visible is None ==> changed(current, change).host_cursor_visible
            == current.host_cursor_visible,
        change.resolution is None && 0x3e80_0000 <= current.resolution.bits <= 0x3f80_0000
            ==> changed(current, change).resolution == current.resolution,
        change.bitrate is None && 1_000_000 <= current.bitrate <= 200_000_000 ==> changed(
            current,
            change,
        ).bitrate == current.bitrate,
{
}

/// Each choice is made for itself: of two changes that name different things, it makes no
/// difference which comes first, or whether they come as one.
pub proof fn law_choices_are_independent(
    current: StreamSettings,
    codec: Option<Codec>,
    resolution: Option<Resolution>,
    bitrate: Option<u32>,
    host_cursor_visible: Option<bool>,
)
    ensures
        ({
            let all = SettingsChange { codec, resolution, bitrate, host_cursor_visible };
            let first = SettingsChange { resolution: None, host_cursor_visible: None, ..all };
            let second = SettingsChange { codec: None, bitrate: None, ..all };
            &&& changed(changed(current, first), second) == changed(current, all)
            &&& changed(changed(current, second), first) == changed(current, all)
        }),
{
}

/// The video track carries the codec that was chosen, on a clock of ninety thousand ticks; only
/// H.264 comes with parameters. The audio track carries stereo.
pub proof fn law_tracks_carry_what_was_chosen(capability: CodecCapability)
    ensures
        carries_video(capability, Codec::H264) <==> {
            &&& capability.format == Format::H264
            &&& capability.clock_rate == 90_000
            &&& capability.channels == 0
            &&& capability.fmtp_line@
                == "level-asymmetry-allowed=1;packetization-mode=1;profile-level-id=42e01f"@
        },
        carries_video(capability, Codec::H265) <==> {
            &&& capability.format == Format::H265
            &&& capability.clock_rate == 90_000
            &&& capability.channels == 0
            &&& capability.fmtp_line@ == ""@
        },
        carries_video(capability, Codec::Av1) <==> {
            &&& capability.format == Format::Av1
            &&& capability.clock_rate == 90_000
            &&& capability.channels == 0
            &&& capability.fmtp_line@ == ""@
        },
        carries_audio(capability) <==> {
            &&& capability.format == Format::Opus
            &&& capability.clock_rate == 48_000
            &&& capability.channels == 2
            &&& capability.fmtp_line@ == ""@
        },
{
}

/// Each format is registered once, under the payload type by which peers know it.
pub proof fn law_formats_are_registered_once(list: Seq<Registration>, i: int)
    requires
        registers_all(list),
        0 <= i < list.len(),
    ensures
        list.len() == 4,
        list[i].payload_type == 102 <==> list[i].capability.format == Format::H264,
        list[i].payload_type == 45 <==> list[i].capability.format == Format::Av1,
        list[i].payload_type == 127 <==> list[i].capability.format == Format::H265,
        list[i].payload_type == 111 <==> list[i].capability.format == Format::Opus,
        list[i].video <==> list[i].capability.format != Format::Opus,
        exists|j: int| 0 <= j < list.len() && #[trigger] list[j].payload_type == 102,
        exists|j: int| 0 <= j < list.len() && #[trigger] list[j].payload_type == 45,
        exists|j: int| 0 <= j < list.len() && #[trigger] list[j].payload_type == 127,
        exists|j: int| 0 <= j < list.len() && #[trigger] list[j].payload_type == 111,
{
    assert(list[0].payload_type == 102 && list[1].payload_type == 45);
    assert(list[2].payload_type == 127 && list[3].payload_type == 111);
}

/// Settings travel on the channel "input", pointer movements on "pointer"; every other channel
/// is unknown.
pub proof fn law_channels_go_by_their_labels(label: Seq<char>)
    ensures
        role_of("input"@) == ChannelRole::Control,
        role_of("pointer"@) == ChannelRole::Pointer,
        label != "input"@ && label != "pointer"@ ==> role_of(label) == ChannelRole::Unknown,
{
    reveal_strlit("input");
    reveal_strlit("pointer");
    assert("input"@[0] != "pointer"@[0]);
}

/// The reading behind a frame with a time is that time in whole microseconds, whatever it was
/// before; a frame without a time leaves it.
pub proof fn law_readings_are_microseconds(current: u64, nanos: u128)
    requires
        nanos < 1_000 * 0x1_0000_0000_0000_0000,
    ensures
        nanos > 0 ==> ({
            let reading = reading_after(current, Duration { nanos });
            1_000 * reading <= nanos < 1_000 * (reading + 1)
        }),
        nanos == 0 ==> reading_after(current, Duration { nanos }) == current,
{
}

/// The steps of an answer come in this order, each behind the success of the one before it; that
/// the previous session could not be ended, or that no address was gathered, does not matter.
pub proof fn law_answers_go_step_by_step(succeeded: bool)
    ensures
        following(AnswerStep::EndPrevious, succeeded) == AnswerStep::CreatePeer,
        following(AnswerStep::CreatePeer, true) == AnswerStep::AddVideoTrack,
        following(AnswerStep::AddVideoTrack, true) == AnswerStep::AddAudioTrack,
        following(AnswerStep::AddAudioTrack, true) == AnswerStep::SetOffer,
        following(AnswerStep::SetOffer, true) == AnswerStep::CreateAnswer,
        following(AnswerStep::CreateAnswer, true) == AnswerStep::SetAnswer,
        following(AnswerStep::SetAnswer, true) == AnswerStep::GatherCandidates,
        following(AnswerStep::GatherCandidates, succeeded) == AnswerStep::ReadAnswer,
        following(AnswerStep::ReadAnswer, true) == AnswerStep::Done,
        following(AnswerStep::ReadAnswer, false) == AnswerStep::MissingAnswer,
        following(AnswerStep::Done, succeeded) == AnswerStep::Done,
        following(AnswerStep::MissingAnswer, succeeded) == AnswerStep::MissingAnswer,
        following(AnswerStep::Failed, succeeded) == AnswerStep::Failed,
        forall|step: AnswerStep|
            step is CreatePeer || step is AddVideoTrack || step is AddAudioTrack || step is SetOffer
                || step is CreateAnswer || step is SetAnswer ==> #[trigger] following(step, false)
                == AnswerStep::Failed,
{
}

/// Answering an offer touches the sessions alone: the settings, the reading and what the machine
/// offers stay as they are, and so does the count until there is a connection.
pub proof fn law_answers_leave_the_rest(media: Media, outcomes: Seq<bool>)
    requires
        media.started < u64::MAX,
    ensures
        ({
            let after = answered(media, outcomes);
            &&& after.settings == media.settings
            &&& after.hardware_codecs == media.hardware_codecs
            &&& after.persistent_sessions == media.persistent_sessions
            &&& after.encode_duration_us == media.encode_duration_us
            &&& outcomes.len() >= 2 && outcomes[1] ==> after.active == Some(media.started)
                && after.started == media.started + 1
            &&& outcomes.len() < 2 || !outcomes[1] ==> after.active is None && after.started
                == media.started
        }),
{
    lemma_answered(media, outcomes);
}

/// While a peer connects, the session goes on waiting, however often the state is read; once
/// the peer is connected, and is still so when that is read again, the session streams.
pub proof fn law_sessions_wait_for_their_peer(events: Seq<SessionEvent>, persistent: bool)
    requires
        forall|i: int|
            0 <= i < events.len() ==> #[trigger] events[i] == SessionEvent::State(
                ConnectionState::New,
            ) || events[i] == SessionEvent::State(ConnectionState::Connecting),
    ensures
        phase_after(Phase::Connecting, events) == Phase::Connecting,
        forall|i: int|
            0 <= i < events.len() ==> action_on(Phase::Connecting, #[trigger] events[i], persistent)
                == SessionAction::PollState,
        ({
            let connected = SessionEvent::State(ConnectionState::Connected);
            &&& phase_after(Phase::Connecting, events.push(connected)) == Phase::Settled
            &&& phase_after(Phase::Connecting, events.push(connected).push(connected))
                == Phase::Streaming
            &&& action_on(Phase::Connecting, connected, persistent) == SessionAction::ReadState
            &&& action_on(Phase::Settled, connected, persistent) == SessionAction::Start
        }),
    decreases events.len(),
{
    let connected = SessionEvent::State(ConnectionState::Connected);
    if events.len() > 0 {
        assert forall|i: int| 0 <= i < events.drop_last().len() implies #[trigger] events.drop_last()[i]
            == SessionEvent::State(ConnectionState::New) || events.drop_last()[i]
            == SessionEvent::State(ConnectionState::Connecting) by {
            assert(events[i] == events.drop_last()[i]);
        }
        law_sessions_wait_for_their_peer(events.drop_last(), persistent);
        assert(events[events.len() - 1] == events.last());
    }
    assert(events.push(connected).drop_last() =~= events);
    assert(events.push(connected).push(connected).drop_last() =~= events.push(connected));
}

/// A peer that is gone, has failed or is in no known state is not waited for: its state is read
/// once more, and unless it is connected then, the connection is closed and nothing is started.
pub proof fn law_lost_peers_are_given_up(state: ConnectionState, again: ConnectionState, persistent: bool)
    requires
        state is Unspecified || state is Connected || state is Disconnected || state is Failed
            || state is Closed,
    ensures
        next_phase(Phase::Connecting, SessionEvent::State(state)) == Phase::Settled,
        action_on(Phase::Connecting, SessionEvent::State(state), persistent)
            == SessionAction::ReadState,
        !(again is Connected) ==> next_phase(Phase::Settled, SessionEvent::State(again))
            == Phase::Over,
        !(again is Connected) ==> action_on(
            Phase::Settled,
            SessionEvent::State(again),
            persistent,
        ) == SessionAction::Close,
{
}

/// A session that is told to end while its peer connects, or whose peer takes too long, is over
/// with nothing started; a session that has settled is not ended by these.
pub proof fn law_connecting_can_be_called_off(persistent: bool)
    ensures
        next_phase(Phase::Connecting, SessionEvent::Shutdown) == Phase::Over,
        next_phase(Phase::Connecting, SessionEvent::ConnectTimeout) == Phase::Over,
        action_on(Phase::Connecting, SessionEvent::Shutdown, persistent) == SessionAction::Close,
        action_on(Phase::Connecting, SessionEvent::ConnectTimeout, persistent)
            == SessionAction::Close,
        next_phase(Phase::Settled, SessionEvent::Shutdown) == Phase::Settled,
        next_phase(Phase::Settled, SessionEvent::ConnectTimeout) == Phase::Settled,
        next_phase(Phase::Streaming, SessionEvent::ConnectTimeout) == Phase::Streaming,
{
}

/// A frame, and the news that it was sent.
pub open spec fn frame_sent(frame: SessionEvent) -> Seq<SessionEvent> {
    seq![frame, SessionEvent::Sent { failed: false }]
}

/// A stream goes on frame by frame: each is sent as what it is, and once it was sent the stream
/// waits for the next, as it does while the peer stays connected.
pub proof fn law_streams_go_on(before: Seq<SessionEvent>, phase: Phase, persistent: bool)
    requires
        phase_after(phase, before) == Phase::Streaming,
    ensures
        ({
            let video = SessionEvent::Video { ended: false };
            let audio = SessionEvent::Audio { ended: false };
            let sent = SessionEvent::Sent { failed: false };
            let connected = SessionEvent::State(ConnectionState::Connected);
            &&& phase_after(phase, before + frame_sent(video)) == Phase::Streaming
            &&& phase_after(phase, before + frame_sent(audio)) == Phase::Streaming
            &&& phase_after(phase, before.push(connected)) == Phase::Streaming
            &&& phase_after(phase, before.push(video)) == Phase::SendingVideo
            &&& phase_after(phase, before.push(audio)) == Phase::SendingAudio
            &&& action_on(Phase::Streaming, video, persistent) == SessionAction::SendVideo
            &&& action_on(Phase::Streaming, audio, persistent) == SessionAction::SendAudio
            &&& action_on(Phase::Streaming, connected, persistent) == SessionAction::Wait
            &&& action_on(Phase::SendingVideo, sent, persistent) == SessionAction::Wait
            &&& action_on(Phase::SendingAudio, sent, persistent) == SessionAction::Wait
        }),
{
    let video = SessionEvent::Video { ended: false };
    let audio = SessionEvent::Audio { ended: false };
    let connected = SessionEvent::State(ConnectionState::Connected);
    assert(before.push(video).drop_last() =~= before);
    assert(before.push(audio).drop_last() =~= before);
    assert(before.push(connected).drop_last() =~= before);
    assert((before + frame_sent(video)).drop_last() =~= before.push(video));
    assert((before + frame_sent(audio)).drop_last() =~= before.push(audio));
    assert((before + frame_sent(video)).last() == SessionEvent::Sent { failed: false });
    assert((before + frame_sent(audio)).last() == SessionEvent::Sent { failed: false });
}

/// What ends a stream: the order to end, the loss of the peer, the failure or the end of what is
/// streamed. What was started is then stopped: the source where it serves this session alone;
/// where it is kept it is forgotten if it is the kept one that failed.
pub proof fn law_streams_end(state: ConnectionState, cached: bool, persistent: bool)
    ensures
        forall|event: SessionEvent|
            #![trigger next_phase(Phase::Streaming, event)]
            event is Shutdown || event is EncoderFailed || event == (SessionEvent::Video {
                ended: true,
            }) || event == (SessionEvent::Audio { ended: true }) || event == SessionEvent::State(
                state,
            ) && !(state is Connected) ==> {
                &&& next_phase(Phase::Streaming, event) == Phase::Over
                &&& action_on(Phase::Streaming, event, persistent) == (SessionAction::Finish {
                    forget_source: false,
                    stop_source: !persistent,
                })
            },
        next_phase(Phase::Streaming, SessionEvent::SourceFailed { cached }) == Phase::Over,
        action_on(Phase::Streaming, SessionEvent::SourceFailed { cached }, persistent) == (
        SessionAction::Finish { forget_source: persistent && cached, stop_source: !persistent }),
{
}

/// A frame that cannot be sent ends the stream; the order to end does so while a video frame is
/// being sent, and waits until an audio frame was sent.
pub proof fn law_failed_sends_end_the_stream(persistent: bool)
    ensures
        ({
            let failed = SessionEvent::Sent { failed: true };
            let finish = SessionAction::Finish { forget_source: false, stop_source: !persistent };
            &&& next_phase(Phase::SendingVideo, failed) == Phase::Over
            &&& next_phase(Phase::SendingAudio, failed) == Phase::Over
            &&& next_phase(Phase::SendingVideo, SessionEvent::Shutdown) == Phase::Over
            &&& next_phase(Phase::SendingAudio, SessionEvent::Shutdown) == Phase::SendingAudio
            &&& action_on(Phase::SendingVideo, failed, persistent) == finish
            &&& action_on(Phase::SendingAudio, failed, persistent) == finish
            &&& action_on(Phase::SendingVideo, SessionEvent::Shutdown, persistent) == finish
        }),
{
}

/// What a phase does not wait for changes nothing: no news of frames before the stream, none but
/// that it was sent, or the order to end, while a frame is being sent, and nothing at the end.
pub proof fn law_stray_events_change_nothing(event: SessionEvent, persistent: bool)
    ensures
        !(event is State) && !(event is Shutdown) && !(event is ConnectTimeout) ==> {
            &&& next_phase(Phase::Connecting, event) == Phase::Connecting
            &&& action_on(Phase::Connecting, event, persistent) == SessionAction::Wait
        },
        !(event is State) ==> {
            &&& next_phase(Phase::Settled, event) == Phase::Settled
            &&& action_on(Phase::Settled, event, persistent) == SessionAction::Wait
        },
        event is ConnectTimeout || event is Sent ==> {
            &&& next_phase(Phase::Streaming, event) == Phase::Streaming
            &&& action_on(Phase::Streaming, event, persistent) == SessionAction::Wait
        },
        !(event is Sent) && !(event is Shutdown) ==> {
            &&& next_phase(Phase::SendingVideo, event) == Phase::SendingVideo
            &&& action_on(Phase::SendingVideo, event, persistent) == SessionAction::Wait
        },
        !(event is Sent) ==> {
            &&& next_phase(Phase::SendingAudio, event) == Phase::SendingAudio
            &&& action_on(Phase::SendingAudio, event, persistent) == SessionAction::Wait
        },
        next_phase(Phase::Over, event) == Phase::Over,
        action_on(Phase::Over, event, persistent) == SessionAction::Wait,
{
}

/// An answer offers what is chosen when the offer comes: the codec of the settings for the
/// picture, and stereo at 48 kHz for the sound. The session that is served has to end for it.
pub proof fn law_answers_offer_what_is_chosen(answer: Answer, media: Media)
    requires
        is_answer_to(answer, media),
    ensures
        answer.previous == media.active,
        answer.settings == media.settings,
        answer.video.format == match media.settings.codec {
            Codec::H264 => Format::H264,
            Codec::H265 => Format::H265,
            Codec::Av1 => Format::Av1,
        },
        answer.video.clock_rate == 90_000,
        answer.audio.format == Format::Opus,
        answer.audio.clock_rate == 48_000,
        answer.audio.channels == 2,
{
}

} // verus!
