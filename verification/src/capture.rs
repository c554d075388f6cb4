//! Screen capture: the frames, the settings they are streamed with, and the slot through which
//! the capture thread hands the newest frame to the encoder.

use vstd::arithmetic::power2::{lemma_pow2_adds, lemma_pow2_pos, pow2};
use vstd::prelude::*;

use crate::duration::{clamped_to, Duration, NANOS_PER_MILLI, NANOS_PER_SECOND};
use crate::ieee::{lemma_units_increase, units_of};

pub mod ffmpeg;
pub mod h264;

verus! {

/// A video codec that the stream can use.
#[derive(Clone, Copy, Debug, PartialEq, Eq, Structural)]
pub enum Codec {
    Av1,
    H264,
    H265,
}

/// For which codecs a hardware encoder was compiled in.
#[derive(Clone, Copy, Debug, PartialEq, Eq, Structural)]
pub struct HardwareCodecAvailability {
    pub h264: bool,
    pub h265: bool,
    pub av1: bool,
}

/// The codec of a stream for which none was chosen.
pub const CODEC: Codec = Codec::H264;

/// Frames per second that are captured and encoded.
pub const FPS: u32 = 60;

/// How long capture may go without a frame, in nanoseconds.
pub const CAPTURE_TIMEOUT: u128 = 2_000_000_000;

/// One sixtieth of a second in nanoseconds, rounded to the nearest.
pub const FRAME_INTERVAL: u128 = 16_666_667;

/// The factor by which the captured picture is scaled, a single-precision number kept as its
/// IEEE 754 bit pattern.
#[derive(Clone, Copy, Debug, PartialEq, Eq, Structural)]
pub struct Resolution {
    pub bits: u32,
}

/// The bit pattern of 0.25.
pub const QUARTER: u32 = 0x3e80_0000;

/// The bit pattern of 1.0.
pub const ONE: u32 = 0x3f80_0000;

/// The bit pattern of infinity; the greater patterns without sign are not numbers.
pub const INFINITY: u32 = 0x7f80_0000;

/// The sign bit.
pub const SIGN: u32 = 0x8000_0000;

impl Resolution {
    pub open spec fn magnitude(self) -> int {
        if self.bits >= SIGN {
            self.bits - SIGN
        } else {
            self.bits as int
        }
    }

    pub open spec fn is_number(self) -> bool {
        self.magnitude() <= INFINITY
    }

    pub open spec fn is_finite(self) -> bool {
        self.magnitude() < INFINITY
    }

    /// The number that the bits stand for, in units of the smallest positive one, which is the
    /// 149th negative power of two. Meaningful for finite numbers.
    pub open spec fn units(self) -> int {
        if self.bits >= SIGN {
            -units_of(self.magnitude(), 0x80_0000)
        } else {
            units_of(self.magnitude(), 0x80_0000)
        }
    }

    /// The number held within a quarter and one; what is not a number stays as it is.
    pub open spec fn clamped(self) -> Resolution {
        if !self.is_number() {
            self
        } else if self.bits >= SIGN || self.bits < QUARTER {
            Resolution { bits: QUARTER }
        } else if self.bits > ONE {
            Resolution { bits: ONE }
        } else {
            self
        }
    }

    pub fn clamp(&self) -> (clamped: Resolution)
        ensures
            clamped == self.clamped(),
    {
        let magnitude: u32 = if self.bits >= SIGN {
            self.bits - SIGN
        } else {
            self.bits
        };
        if magnitude > INFINITY {
            *self
        } else if self.bits >= SIGN || self.bits < QUARTER {
            Resolution { bits: QUARTER }
        } else if self.bits > ONE {
            Resolution { bits: ONE }
        } else {
            *self
        }
    }
}

/// A clamped resolution is the nearest number in `[0.25, 1.0]`: it lies in that range, a finite
/// number of the range is kept, one below becomes 0.25 and one above becomes 1.0.
pub proof fn law_resolution_range(resolution: Resolution)
    requires
        resolution.is_number(),
    ensures
        pow2(147) <= resolution.clamped().units() <= pow2(149),
        resolution.is_finite() && pow2(147) <= resolution.units() <= pow2(149)
            ==> resolution.clamped() == resolution,
        resolution.is_finite() && resolution.units() < pow2(147)
            ==> resolution.clamped().units() == pow2(147),
        resolution.is_finite() && resolution.units() > pow2(149)
            ==> resolution.clamped().units() == pow2(149),
        resolution.clamped().clamped() == resolution.clamped(),
{
    let m = resolution.magnitude();
    assert(units_of(QUARTER as int, 0x80_0000) == 0x80_0000 * pow2(124));
    assert(units_of(ONE as int, 0x80_0000) == 0x80_0000 * pow2(126));
    vstd::arithmetic::power2::lemma2_to64();
    lemma_pow2_adds(23, 124);
    lemma_pow2_adds(23, 126);
    lemma_pow2_pos(147);
    assert(units_of(QUARTER as int, 0x80_0000) == pow2(147));
    assert(units_of(ONE as int, 0x80_0000) == pow2(149));
    lemma_units_increase(QUARTER as int, ONE as int, 0x80_0000);
    if m < INFINITY {
        if m < QUARTER {
            lemma_units_increase(m, QUARTER as int, 0x80_0000);
        } else if m > QUARTER {
            lemma_units_increase(QUARTER as int, m, 0x80_0000);
        }
        if m < ONE {
            lemma_units_increase(m, ONE as int, 0x80_0000);
        } else if m > ONE {
            lemma_units_increase(ONE as int, m, 0x80_0000);
        }
    }
    assert(units_of(0, 0x80_0000) == 0);
    if 0 < m < INFINITY {
        lemma_units_increase(0, m, 0x80_0000);
    }
}

/// What a viewer can choose about the stream.
#[derive(Clone, Copy, Debug, PartialEq, Eq, Structural)]
pub struct StreamSettings {
    pub codec: Codec,
    pub resolution: Resolution,
    pub bitrate: u32,
    pub host_cursor_visible: bool,
}

impl Default for StreamSettings {
    fn default() -> (settings: StreamSettings)
        ensures
            settings == (StreamSettings {
                codec: CODEC,
                resolution: Resolution { bits: ONE },
                bitrate: 40_000_000,
                host_cursor_visible: true,
            }),
    {
        StreamSettings {
            codec: CODEC,
            resolution: Resolution { bits: ONE },
            bitrate: 40_000_000,
            host_cursor_visible: true,
        }
    }
}

/// A compressed frame on its way to the peer.
pub struct EncodedFrame {
    pub data: Vec<u8>,
    pub duration: Duration,
    pub encode_duration: Duration,
}

/// A captured picture in BGRA, with the time at which it was taken in nanoseconds since the
/// Unix epoch.
pub struct RawFrame {
    pub bgra: Vec<u8>,
    pub width: usize,
    pub height: usize,
    pub stride: usize,
    pub captured_at: u128,
}

/// How long the frame taken at `captured_at` is shown: the time since the frame before it, or
/// the nominal interval where there is none or the clock went back, within a millisecond and a
/// second.
pub open spec fn shown_for(previous: Option<u128>, captured_at: u128) -> Duration {
    clamped_to(
        match previous {
            Some(time) if time <= captured_at => Duration { nanos: (captured_at - time) as u128 },
            _ => Duration { nanos: FRAME_INTERVAL },
        },
        Duration { nanos: NANOS_PER_MILLI },
        Duration { nanos: NANOS_PER_SECOND },
    )
}

pub fn frame_duration(previous: Option<u128>, captured_at: u128) -> (duration: Duration)
    ensures
        duration == shown_for(previous, captured_at),
        NANOS_PER_MILLI <= duration.nanos <= NANOS_PER_SECOND,
{
    let elapsed: Duration = match previous {
        Some(time) => if time <= captured_at {
            Duration { nanos: captured_at - time }
        } else {
            Duration { nanos: FRAME_INTERVAL }
        },
        None => Duration { nanos: FRAME_INTERVAL },
    };
    elapsed.clamp(Duration { nanos: NANOS_PER_MILLI }, Duration { nanos: NANOS_PER_SECOND })
}

/// Numbers the frames that go into an encoder and tells how long each is shown.
#[derive(Clone, Copy, Debug, PartialEq, Eq, Structural)]
pub struct FrameClock {
    /// The number of the next frame.
    pub next: i64,
    /// When the last frame was captured.
    pub previous: Option<u128>,
}

impl FrameClock {
    pub fn new() -> (clock: FrameClock)
        ensures
            clock == (FrameClock { next: 0, previous: None }),
    {
        FrameClock { next: 0, previous: None }
    }

    /// The number and the duration of the frame captured at `captured_at`.
    pub fn tick(&mut self, captured_at: u128) -> (frame: (i64, Duration))
        requires
            old(self).next < i64::MAX,
        ensures
            frame.0 == old(self).next,
            frame.1 == shown_for(old(self).previous, captured_at),
            NANOS_PER_MILLI <= frame.1.nanos <= NANOS_PER_SECOND,
            final(self).next == old(self).next + 1,
            final(self).previous == Some(captured_at),
    {
        let number: i64 = self.next;
        let duration: Duration = frame_duration(self.previous, captured_at);
        self.next = number + 1;
        self.previous = Some(captured_at);
        (number, duration)
    }
}

/// The even number of pixels, at least two, that a scaled side of `rounded` pixels gets.
pub open spec fn even_side(rounded: usize) -> usize {
    if rounded < 2 {
        2
    } else {
        (rounded - rounded % 2) as usize
    }
}

/// Makes a side even and at least two.
pub fn to_even_side(rounded: usize) -> (side: usize)
    ensures
        side == even_side(rounded),
        side >= 2,
        side % 2 == 0,
        rounded >= 2 ==> rounded - 1 <= side <= rounded,
{
    let least: usize = if rounded < 2 {
        2
    } else {
        rounded
    };
    assert(least & !1usize == least - least % 2) by (bit_vector);
    least & !1
}

/// The size of the stream, given the sides of the captured picture multiplied by the chosen
/// resolution and rounded.
pub fn stream_dimensions(scaled_width: usize, scaled_height: usize) -> (size: (usize, usize))
    ensures
        size == (even_side(scaled_width), even_side(scaled_height)),
        size.0 >= 2,
        size.1 >= 2,
        size.0 % 2 == 0,
        size.1 % 2 == 0,
{
    (to_even_side(scaled_width), to_even_side(scaled_height))
}

/// The size of a `source_width` by `source_height` picture shrunk or grown, with its proportions
/// kept, to fill a `width` by `height` area in one direction.
pub open spec fn fitted(source_width: int, source_height: int, width: int, height: int) -> (
    int,
    int,
) {
    if width * source_height <= height * source_width {
        (width, source_height * width / source_width)
    } else {
        (source_width * height / source_height, height)
    }
}

/// A fitted picture does not stick out of its area.
pub proof fn law_fitted_picture_fits(
    source_width: int,
    source_height: int,
    width: int,
    height: int,
)
    requires
        source_width >= 0,
        source_height >= 0,
        width >= 0,
        height >= 0,
        width * source_height <= height * source_width ==> source_width > 0,
    ensures
        0 <= fitted(source_width, source_height, width, height).0 <= width,
        0 <= fitted(source_width, source_height, width, height).1 <= height,
{
    if width * source_height <= height * source_width {
        assert(0 <= source_height * width / source_width <= height) by (nonlinear_arith)
            requires
                width * source_height <= height * source_width,
                source_width > 0,
                source_height >= 0,
                width >= 0,
                height >= 0,
        ;
    } else {
        assert(source_height > 0) by (nonlinear_arith)
            requires
                width * source_height > height * source_width,
                source_width >= 0,
                source_height >= 0,
                height >= 0,
                width >= 0,
        ;
        assert(0 <= source_width * height / source_height <= width) by (nonlinear_arith)
            requires
                width * source_height > height * source_width,
                source_height > 0,
                source_width >= 0,
                width >= 0,
                height >= 0,
        ;
    }
}

/// The place of the newest captured frame. A frame that was not fetched in time is replaced.
pub struct FrameSlot {
    pub frame: Option<RawFrame>,
    pub closed: bool,
}

/// What a fetch from the slot finds.
pub enum NextFrame {
    /// The newest frame.
    Ready(RawFrame),
    /// No frame, and none will come.
    Finished,
    /// No frame yet.
    Pending,
}

impl FrameSlot {
    pub fn new() -> (slot: FrameSlot)
        ensures
            slot.frame is None,
            !slot.closed,
    {
        FrameSlot { frame: None, closed: false }
    }

    /// Puts a frame in the slot, in place of the one that was there.
    pub fn publish(&mut self, frame: RawFrame)
        ensures
            final(self).frame == Some(frame),
            final(self).closed == old(self).closed,
    {
        self.frame = Some(frame);
    }

    /// Announces that no frame will follow.
    pub fn close(&mut self)
        ensures
            final(self).frame == old(self).frame,
            final(self).closed,
    {
        self.closed = true;
    }
}

/// What a fetch from a slot that holds `frame` finds.
pub open spec fn fetched(frame: Option<RawFrame>, closed: bool) -> NextFrame {
    match frame {
        Some(newest) => NextFrame::Ready(newest),
        None => if closed {
            NextFrame::Finished
        } else {
            NextFrame::Pending
        },
    }
}

/// Takes the newest frame out of the slot. A frame is handed out even after the slot was
/// closed, and never twice.
pub fn next_frame(slot: &mut FrameSlot) -> (next: NextFrame)
    ensures
        next == fetched(old(slot).frame, old(slot).closed),
        final(slot).frame is None,
        final(slot).closed == old(slot).closed,
{
    match slot.frame.take() {
        Some(frame) => NextFrame::Ready(frame),
        None => if slot.closed {
            NextFrame::Finished
        } else {
            NextFrame::Pending
        },
    }
}

/// What happens to a slot.
pub enum SlotEvent {
    Publish(RawFrame),
    Fetch,
    Close,
}

/// What a new slot holds after a row of events, and whether it is closed.
pub open spec fn slot_after(events: Seq<SlotEvent>) -> (Option<RawFrame>, bool)
    decreases events.len(),
{
    if events.len() == 0 {
        (None, false)
    } else {
        let (frame, closed) = slot_after(events.drop_last());
        match events.last() {
            SlotEvent::Publish(newest) => (Some(newest), closed),
            SlotEvent::Fetch => (None, closed),
            SlotEvent::Close => (frame, true),
        }
    }
}

/// The encoder gets the newest frame, once: what was published last is what a fetch finds,
/// closed or not, and the fetch behind that finds none.
pub proof fn law_newest_frame_wins(
    before: Seq<SlotEvent>,
    newest: RawFrame,
    closing: Seq<SlotEvent>,
)
    requires
        forall|i: int| 0 <= i < closing.len() ==> #[trigger] closing[i] is Close,
    ensures
        ({
            let events = before.push(SlotEvent::Publish(newest)) + closing;
            let (frame, closed) = slot_after(events);
            let (left, still_closed) = slot_after(events.push(SlotEvent::Fetch));
            &&& fetched(frame, closed) == NextFrame::Ready(newest)
            &&& still_closed == closed
            &&& !(fetched(left, still_closed) is Ready)
        }),
    decreases closing.len(),
{
    let published = before.push(SlotEvent::Publish(newest));
    let events = published + closing;
    assert(events.push(SlotEvent::Fetch).drop_last() =~= events);
    if closing.len() == 0 {
        assert(events =~= published);
        assert(published.drop_last() =~= before);
    } else {
        assert(events.drop_last() =~= published + closing.drop_last());
        law_newest_frame_wins(before, newest, closing.drop_last());
    }
}

/// Whether the pointer of the host is drawn into the captured picture.
#[derive(Clone, Copy, Debug, PartialEq, Eq, Structural)]
pub enum CursorMode {
    Embedded,
    Hidden,
}

/// How the pointer is captured under the given settings.
pub fn cursor_mode(settings: &StreamSettings) -> (mode: CursorMode)
    ensures
        mode == if settings.host_cursor_visible {
            CursorMode::Embedded
        } else {
            CursorMode::Hidden
        },
{
    if settings.host_cursor_visible {
        CursorMode::Embedded
    } else {
        CursorMode::Hidden
    }
}

/// What the capture backend reports.
pub enum CaptureEvent {
    /// A picture, with its pixels where they are in main memory.
    Video { pixels: Option<Vec<u8>>, width: u32, height: u32, stride: u32 },
    /// A piece of system audio.
    Audio,
    /// Nobody took the audio that was handed on.
    AudioRefused,
    /// Anything else, a timeout among them.
    Other,
}

/// What the capture thread does next.
pub enum CaptureAction {
    /// Put the frame in the slot and wake the encoder.
    Publish(RawFrame),
    /// Hand the audio on, and report it where nobody takes it.
    ForwardAudio,
    /// End the capture, without an error.
    Stop,
    /// Wait for the next event.
    Continue,
    /// Give up: no frame has come for too long.
    Stalled,
}

/// When the capture thread last got a frame it could use, on a clock that starts anywhere.
pub struct CaptureLoop {
    pub last_frame: u128,
}

/// A picture that can be streamed.
pub open spec fn usable(event: CaptureEvent) -> bool {
    match event {
        CaptureEvent::Video { pixels, width, height, stride: _ } => pixels is Some && width >= 2
            && height >= 2,
        _ => false,
    }
}

/// Capture has gone without a usable frame for the whole timeout.
pub open spec fn stalled(last_frame: u128, now: u128) -> bool {
    now - last_frame >= CAPTURE_TIMEOUT
}

impl CaptureLoop {
    /// Starts at `now`, as if a frame had just come.
    pub fn new(now: u128) -> (capture: CaptureLoop)
        ensures
            capture.last_frame == now,
    {
        CaptureLoop { last_frame: now }
    }

    /// Decides on an event that came at `now`, which is `wall_clock` nanoseconds after the Unix
    /// epoch.
    pub fn on_event(&mut self, event: CaptureEvent, now: u128, wall_clock: u128) -> (action:
        CaptureAction)
        ensures
            final(self).last_frame == if usable(event) {
                now
            } else {
                old(self).last_frame
            },
            match event {
                CaptureEvent::Video { pixels, width, height, stride } => if usable(event) {
                    &&& action matches CaptureAction::Publish(frame)
                    &&& pixels == Some(frame.bgra)
                    &&& frame.width == width
                    &&& frame.height == height
                    &&& frame.stride == stride
                    &&& frame.captured_at == wall_clock
                } else {
                    action is Continue
                },
                CaptureEvent::Audio => action is ForwardAudio,
                CaptureEvent::AudioRefused => action is Stop,
                CaptureEvent::Other => if stalled(old(self).last_frame, now) {
                    action is Stalled
                } else {
                    action is Continue
                },
            },
    {
        match event {
            CaptureEvent::Video { pixels, width, height, stride } => {
                let bgra: Vec<u8> = match pixels {
                    Some(bgra) => bgra,
                    None => return CaptureAction::Continue,
                };
                if width < 2 || height < 2 {
                    return CaptureAction::Continue;
                }
                self.last_frame = now;
                CaptureAction::Publish(
                    RawFrame {
                        bgra,
                        width: width as usize,
                        height: height as usize,
                        stride: stride as usize,
                        captured_at: wall_clock,
                    },
                )
            },
            CaptureEvent::Audio => CaptureAction::ForwardAudio,
            CaptureEvent::AudioRefused => CaptureAction::Stop,
            CaptureEvent::Other => {
                if now >= self.last_frame && now - self.last_frame >= CAPTURE_TIMEOUT {
                    CaptureAction::Stalled
                } else {
                    CaptureAction::Continue
                }
            },
        }
    }
}

/// How far two times are apart, in nanoseconds.
pub open spec fn apart(a: int, b: int) -> int {
    if a <= b {
        b - a
    } else {
        a - b
    }
}

/// A frame is shown for as long as it took to come, or for a sixtieth of a second where that is
/// not known, as nearly as a time between a millisecond and a second can be.
pub proof fn law_frames_are_shown_as_they_come(previous: Option<u128>, captured_at: u128)
    ensures
        ({
            let shown = shown_for(previous, captured_at).nanos as int;
            &&& 1_000_000 <= shown <= 1_000_000_000
            &&& (previous is Some && previous->0 <= captured_at) ==> forall|other: int|
                1_000_000 <= other <= 1_000_000_000 ==> apart(shown, captured_at - previous->0)
                    <= #[trigger] apart(other, captured_at - previous->0)
            &&& (previous is None || previous->0 > captured_at) ==> apart(
                60 * shown,
                1_000_000_000,
            ) <= 30
        }),
{
}

/// Frames that come at least a millisecond and at most a second apart are shown for all the time
/// between the first and the last, without a gap.
pub proof fn law_frames_follow_each_other(first: u128, second: u128, third: u128)
    requires
        first + 1_000_000 <= second <= first + 1_000_000_000,
        second + 1_000_000 <= third <= second + 1_000_000_000,
    ensures
        first + shown_for(Some(first), second).nanos + shown_for(Some(second), third).nanos == third,
{
}

/// The side of a stream is the greatest even number that is not longer than the scaled side, but
/// never less than two.
pub proof fn law_sides_are_even(rounded: usize, half: int)
    ensures
        exists|part: int| even_side(rounded) == #[trigger] (2 * part),
        even_side(rounded) >= 2,
        rounded >= 2 ==> even_side(rounded) <= rounded,
        2 * half <= rounded ==> 2 * half <= even_side(rounded),
        rounded < 2 ==> even_side(rounded) == 2,
{
    let side = even_side(rounded) as int;
    assert(side == 2 * (side / 2));
}

/// A fitted picture fills its area in one direction; in the other its side is that which keeps
/// the proportions, without a fraction of a pixel.
pub proof fn law_fitted_picture_keeps_proportions(
    source_width: int,
    source_height: int,
    width: int,
    height: int,
)
    requires
        source_width > 0,
        source_height > 0,
        width >= 0,
        height >= 0,
    ensures
        ({
            let (w, h) = fitted(source_width, source_height, width, height);
            &&& w <= width && h <= height
            &&& w == width && h * source_width <= source_height * width < (h + 1) * source_width
                || h == height && w * source_height <= source_width * height < (w + 1)
                * source_height
        }),
        width * source_height == height * source_width ==> fitted(
            source_width,
            source_height,
            width,
            height,
        ) == (width, height),
{
    law_fitted_picture_fits(source_width, source_height, width, height);
    let by_width = source_height * width;
    let by_height = source_width * height;
    let (h, w) = (by_width / source_width, by_height / source_height);
    assert(h * source_width <= by_width < (h + 1) * source_width) by (nonlinear_arith)
        requires
            h == by_width / source_width,
            source_width > 0,
    ;
    assert(w * source_height <= by_height < (w + 1) * source_height) by (nonlinear_arith)
        requires
            w == by_height / source_height,
            source_height > 0,
    ;
    if width * source_height == height * source_width {
        assert(h == height) by (nonlinear_arith)
            requires
                h * source_width <= height * source_width < (h + 1) * source_width,
                source_width > 0,
        ;
    }
}

/// A slot is closed once it has been told so, and holds the frame that was published since the
/// last fetch, if any was.
pub proof fn law_slots_remember(events: Seq<SlotEvent>)
    ensures
        slot_after(events).1 <==> exists|i: int|
            0 <= i < events.len() && #[trigger] events[i] is Close,
        slot_after(events).0 is Some <==> exists|i: int|
            {
                &&& 0 <= i < events.len()
                &&& #[trigger] events[i] is Publish
                &&& forall|j: int| i < j < events.len() ==> !(#[trigger] events[j] is Fetch)
            },
        slot_after(events).0 matches Some(frame) ==> exists|i: int|
            {
                &&& 0 <= i < events.len()
                &&& #[trigger] events[i] == SlotEvent::Publish(frame)
                &&& forall|j: int| i < j < events.len() ==> #[trigger] events[j] is Close
            },
    decreases events.len(),
{
    if events.len() > 0 {
        let n = events.len() - 1;
        let before = events.drop_last();
        law_slots_remember(before);
        assert(events[n] == events.last());
        if slot_after(before).1 {
            let i = choose|i: int| 0 <= i < before.len() && #[trigger] before[i] is Close;
            assert(events[i] is Close);
        }
        if exists|i: int| 0 <= i < events.len() && #[trigger] events[i] is Close {
            let i = choose|i: int| 0 <= i < events.len() && #[trigger] events[i] is Close;
            if i < n {
                assert(before[i] is Close);
            }
        }
        if slot_after(before).0 is Some && events.last() is Close {
            let frame = slot_after(before).0->0;
            let i = choose|i: int|
                {
                    &&& 0 <= i < before.len()
                    &&& #[trigger] before[i] == SlotEvent::Publish(frame)
                    &&& forall|j: int| i < j < before.len() ==> #[trigger] before[j] is Close
                };
            assert(events[i] == SlotEvent::Publish(frame));
            assert forall|j: int| i < j < events.len() implies #[trigger] events[j] is Close by {
                if j < n {
                    assert(before[j] is Close);
                }
            }
        }
        if exists|i: int|
            {
                &&& 0 <= i < events.len()
                &&& #[trigger] events[i] is Publish
                &&& forall|j: int| i < j < events.len() ==> !(#[trigger] events[j] is Fetch)
            } {
            let i = choose|i: int|
                {
                    &&& 0 <= i < events.len()
                    &&& #[trigger] events[i] is Publish
                    &&& forall|j: int| i < j < events.len() ==> !(#[trigger] events[j] is Fetch)
                };
            if i < n {
                assert(before[i] is Publish);
                assert forall|j: int| i < j < before.len() implies !(#[trigger] before[j]
                    is Fetch) by {
                    assert(!(events[j] is Fetch));
                }
                assert(!(events[n] is Fetch));
            }
        }
        if let SlotEvent::Publish(newest) = events.last() {
            assert(events[n] == SlotEvent::Publish(newest));
        }
    }
}

/// A fetch finds the frame that is there, whether the slot is closed or not; where there is none
/// it tells by the closing whether one may come.
pub proof fn law_fetches_find_what_is_there(frame: RawFrame, closed: bool)
    ensures
        fetched(Some(frame), closed) == NextFrame::Ready(frame),
        fetched(None, true) is Finished,
        fetched(None, false) is Pending,
{
}

/// A picture is of use where its pixels can be reached and it is at least two pixels wide and
/// high, whatever its stride. Nothing else is a picture.
pub proof fn law_small_pictures_are_of_no_use(pixels: Vec<u8>, width: u32, height: u32, stride: u32)
    ensures
        usable(CaptureEvent::Video { pixels: Some(pixels), width, height, stride }) <==> width > 1
            && height > 1,
        !usable(CaptureEvent::Video { pixels: None, width, height, stride }),
        !usable(CaptureEvent::Audio),
        !usable(CaptureEvent::AudioRefused),
        !usable(CaptureEvent::Other),
{
}

/// Capture counts as stalled from two seconds after the last picture on, and not before.
pub proof fn law_capture_stalls_after_two_seconds(last_frame: u128, waited: u128)
    requires
        last_frame + waited <= u128::MAX,
    ensures
        stalled(last_frame, (last_frame + waited) as u128) <==> waited >= 2 * 1_000_000_000,
{
}

/// Infinities are held within the range like other numbers, and what is not a number stays as it
/// is: the patterns whose exponent is full and whose fraction is not empty.
pub proof fn law_every_pattern_is_held(resolution: Resolution)
    ensures
        resolution.is_number() <==> resolution.bits & 0x7fff_ffff <= 0x7f80_0000,
        resolution.bits & 0x7fff_ffff > 0x7f80_0000 ==> resolution.clamped() == resolution,
        resolution.bits == 0x7f80_0000 ==> resolution.clamped().bits == 0x3f80_0000,
        resolution.bits == 0xff80_0000 ==> resolution.clamped().bits == 0x3e80_0000,
        0x3e80_0000 <= resolution.bits <= 0x3f80_0000 ==> resolution.clamped() == resolution,
{
    let bits = resolution.bits;
    assert(bits & 0x7fff_ffff == if bits >= 0x8000_0000 {
        (bits - 0x8000_0000) as u32
    } else {
        bits
    }) by (bit_vector);
}

} // verus!
