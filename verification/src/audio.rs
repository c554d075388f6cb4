//! System audio: raw samples of any layout become stereo, and stereo is cut into the frames that
//! the audio encoder takes.

use vstd::prelude::*;

use crate::platform::Platform;

verus! {

/// Samples of one encoded frame: 240 for each of two channels, five milliseconds at 48 kHz.
pub const OPUS_FRAME_SAMPLES: usize = 480;

/// How long one encoded frame lasts, in milliseconds.
pub const OPUS_FRAME_MILLIS: u64 = 5;

/// The rate that the audio encoder works at, in samples per second and channel.
pub const OPUS_SAMPLE_RATE: u32 = 48_000;

/// Room for one encoded frame, in bytes.
pub const MAX_PACKET: usize = 4_000;

/// How captured samples are stored; always with the lowest byte first.
#[derive(Clone, Copy, Debug, PartialEq, Eq, Structural)]
pub enum SampleFormat {
    I16,
    I32,
    F32,
    F64,
}

/// Captured samples: those of all channels in turn, or those of each channel on their own.
pub enum AudioData {
    Interleaved(Vec<u8>),
    Planar(Vec<Vec<u8>>),
}

/// A sample as it was captured; floating point numbers are kept as their IEEE 754 bit patterns.
#[derive(Clone, Copy, Debug, PartialEq, Eq, Structural)]
pub enum Sample {
    I16(i16),
    I32(i32),
    F32(u32),
    F64(u64),
}

/// Why samples could not be read.
#[derive(Clone, Copy, Debug, PartialEq, Eq, Structural)]
pub enum AudioError {
    NoChannels,
    InvalidLength,
    InvalidPlanarLength,
}

impl AudioError {
    pub open spec fn text(self) -> Seq<char> {
        match self {
            AudioError::NoChannels => "audio capture reported zero channels"@,
            AudioError::InvalidLength => "audio sample buffer has an invalid length"@,
            AudioError::InvalidPlanarLength => "planar audio sample buffer has an invalid length"@,
        }
    }

    pub fn message(&self) -> (message: &'static str)
        ensures
            message@ == self.text(),
    {
        match self {
            AudioError::NoChannels => "audio capture reported zero channels",
            AudioError::InvalidLength => "audio sample buffer has an invalid length",
            AudioError::InvalidPlanarLength => "planar audio sample buffer has an invalid length",
        }
    }
}

/// The bytes of one sample.
pub open spec fn size_of(format: SampleFormat) -> nat {
    match format {
        SampleFormat::I16 => 2,
        SampleFormat::I32 => 4,
        SampleFormat::F32 => 4,
        SampleFormat::F64 => 8,
    }
}

pub fn sample_size(format: SampleFormat) -> (size: usize)
    ensures
        size == size_of(format),
{
    match format {
        SampleFormat::I16 => 2,
        SampleFormat::I32 | SampleFormat::F32 => 4,
        SampleFormat::F64 => 8,
    }
}

/// The number that bytes stand for, the lowest first.
pub open spec fn little_endian(bytes: Seq<u8>) -> int
    decreases bytes.len(),
{
    if bytes.len() == 0 {
        0
    } else {
        bytes[0] + 256 * little_endian(bytes.skip(1))
    }
}

/// The sample that starts at a byte.
pub open spec fn sample_at(bytes: Seq<u8>, index: int, format: SampleFormat) -> Sample {
    let value = little_endian(bytes.subrange(index, index + size_of(format)));
    match format {
        SampleFormat::I16 => Sample::I16(
            if value < 0x8000 {
                value as i16
            } else {
                (value - 0x1_0000) as i16
            },
        ),
        SampleFormat::I32 => Sample::I32(
            if value < 0x8000_0000 {
                value as i32
            } else {
                (value - 0x1_0000_0000) as i32
            },
        ),
        SampleFormat::F32 => Sample::F32(value as u32),
        SampleFormat::F64 => Sample::F64(value as u64),
    }
}

/// Reads `count` bytes from `index` on as a number, the lowest byte first.
fn read_little_endian(bytes: &[u8], index: usize, count: usize) -> (value: u64)
    requires
        index + count <= bytes@.len(),
        count <= 8,
    ensures
        value == little_endian(bytes@.subrange(index as int, index + count)),
        count == 2 ==> value < 0x1_0000,
        count == 4 ==> value < 0x1_0000_0000,
{
    let mut value: u64 = 0;
    let mut i: usize = count;
    let ghost mut limit: int = 1;
    assert(bytes@.subrange(index + count, index + count).len() == 0);
    while i > 0
        invariant
            i <= count <= 8,
            index + count <= bytes.len(),
            value == little_endian(bytes@.subrange(index + i, index + count)),
            0 <= value < limit,
            limit == power_of_256(count - i),
        decreases i,
    {
        i -= 1;
        let ghost part = bytes@.subrange(index + i, index + count);
        assert(part.skip(1) =~= bytes@.subrange(index + i + 1, index + count));
        proof {
            reveal_with_fuel(power_of_256, 9);
            limit = 256 * limit;
        }
        value = value * 256 + bytes[index + i] as u64;
    }
    proof {
        reveal_with_fuel(power_of_256, 9);
    }
    value
}

spec fn power_of_256(exponent: int) -> int
    decreases exponent,
{
    if exponent <= 0 {
        1
    } else {
        256 * power_of_256(exponent - 1)
    }
}

/// Reads the sample that starts at a byte.
pub fn decode_one(bytes: &[u8], index: usize, format: SampleFormat) -> (sample: Sample)
    requires
        index + size_of(format) <= bytes@.len(),
    ensures
        sample == sample_at(bytes@, index as int, format),
{
    match format {
        SampleFormat::I16 => {
            let value: u64 = read_little_endian(bytes, index, 2);
            if value < 0x8000 {
                Sample::I16(value as i16)
            } else {
                Sample::I16((value as i32 - 0x1_0000) as i16)
            }
        },
        SampleFormat::I32 => {
            let value: u64 = read_little_endian(bytes, index, 4);
            if value < 0x8000_0000 {
                Sample::I32(value as i32)
            } else {
                Sample::I32((value as i64 - 0x1_0000_0000) as i32)
            }
        },
        SampleFormat::F32 => Sample::F32(read_little_endian(bytes, index, 4) as u32),
        SampleFormat::F64 => Sample::F64(read_little_endian(bytes, index, 8)),
    }
}

/// The samples of a buffer in which they follow each other.
pub open spec fn samples_in_turn(bytes: Seq<u8>, format: SampleFormat) -> Seq<Sample> {
    Seq::new(
        bytes.len() / size_of(format),
        |i: int| sample_at(bytes, i * size_of(format), format),
    )
}

/// Appends the samples of a buffer in which they follow each other.
pub fn decode_samples(output: &mut Vec<Sample>, bytes: &[u8], format: SampleFormat) -> (result:
    Result<(), AudioError>)
    ensures
        if bytes@.len() % size_of(format) == 0 {
            &&& result is Ok
            &&& final(output)@ == old(output)@ + samples_in_turn(bytes@, format)
        } else {
            &&& result == Err::<(), AudioError>(AudioError::InvalidLength)
            &&& final(output)@ == old(output)@
        },
{
    let size: usize = sample_size(format);
    if bytes.len() % size != 0 {
        return Err(AudioError::InvalidLength);
    }
    let ghost all = samples_in_turn(bytes@, format);
    let count: usize = bytes.len() / size;
    let mut i: usize = 0;
    assert(output@ =~= old(output)@ + all.take(0));
    while i < count
        invariant
            i <= count,
            size == size_of(format),
            size > 0,
            count == bytes.len() / size,
            all == samples_in_turn(bytes@, format),
            output@ == old(output)@ + all.take(i as int),
        decreases count - i,
    {
        assert(i * size + size <= bytes.len()) by (nonlinear_arith)
            requires
                i < bytes.len() / size,
                size > 0,
        ;
        let sample: Sample = decode_one(bytes, i * size, format);
        assert(all[i as int] == sample);
        output.push(sample);
        i += 1;
        assert(output@ =~= old(output)@ + all.take(i as int));
    }
    assert(all.take(i as int) =~= all);
    Ok(())
}

/// The samples of a buffer whose first half holds the left channel and whose second half holds
/// the right one, in turn.
pub open spec fn samples_of_halves(bytes: Seq<u8>, format: SampleFormat) -> Seq<Sample> {
    let half = bytes.len() / 2;
    Seq::new(
        2 * (half / size_of(format)),
        |i: int|
            sample_at(
                bytes,
                (i / 2) * size_of(format) + if i % 2 == 0 {
                    0
                } else {
                    half
                },
                format,
            ),
    )
}

/// Appends the samples of a buffer that holds the two channels one behind the other.
pub fn decode_planar_stereo(output: &mut Vec<Sample>, bytes: &[u8], format: SampleFormat) -> (result:
    Result<(), AudioError>)
    ensures
        if bytes@.len() % (2 * size_of(format)) == 0 {
            &&& result is Ok
            &&& final(output)@ == old(output)@ + samples_of_halves(bytes@, format)
        } else {
            &&& result == Err::<(), AudioError>(AudioError::InvalidPlanarLength)
            &&& final(output)@ == old(output)@
        },
{
    let size: usize = sample_size(format);
    if bytes.len() % (size * 2) != 0 {
        return Err(AudioError::InvalidPlanarLength);
    }
    let ghost all = samples_of_halves(bytes@, format);
    let half: usize = bytes.len() / 2;
    let count: usize = half / size;
    let mut i: usize = 0;
    assert(output@ =~= old(output)@ + all.take(0));
    while i < count
        invariant
            i <= count,
            size == size_of(format),
            size > 0,
            half == bytes.len() / 2,
            count == half / size,
            all == samples_of_halves(bytes@, format),
            output@ == old(output)@ + all.take(2 * i),
        decreases count - i,
    {
        assert(i * size + size <= half) by (nonlinear_arith)
            requires
                i < half / size,
                size > 0,
        ;
        let left: Sample = decode_one(bytes, i * size, format);
        let right: Sample = decode_one(bytes, half + i * size, format);
        assert((2 * i) / 2 == i && (2 * i + 1) / 2 == i);
        assert(all[2 * i] == left);
        assert(all[2 * i + 1] == right);
        output.push(left);
        output.push(right);
        i += 1;
        assert(output@ =~= old(output)@ + all.take(2 * i));
    }
    assert(all.take(2 * i) =~= all);
    Ok(())
}

/// The number of whole samples that every plane holds; none where there is no plane.
pub open spec fn planar_frames(planes: Seq<Vec<u8>>, format: SampleFormat) -> int
    decreases planes.len(),
{
    if planes.len() == 0 {
        0
    } else {
        let last = (planes.last()@.len() / size_of(format)) as int;
        let before = planar_frames(planes.drop_last(), format);
        if planes.len() == 1 || last < before {
            last
        } else {
            before
        }
    }
}

/// The samples of the first `used` planes, those of each frame in turn.
pub open spec fn samples_of_planes(planes: Seq<Vec<u8>>, format: SampleFormat, used: int) -> Seq<
    Sample,
> {
    Seq::new(
        (planar_frames(planes, format) * used) as nat,
        |i: int| sample_at(planes[i % used]@, (i / used) * size_of(format), format),
    )
}

/// The number of planes that are read.
pub open spec fn planes_used(planes: Seq<Vec<u8>>, channels: int) -> int {
    if channels < planes.len() {
        channels
    } else {
        planes.len() as int
    }
}

proof fn lemma_frames_fit(planes: Seq<Vec<u8>>, format: SampleFormat, plane: int)
    requires
        0 <= plane < planes.len(),
    ensures
        0 <= planar_frames(planes, format) * size_of(format) <= planes[plane]@.len(),
    decreases planes.len(),
{
    let size = size_of(format);
    let last = (planes.last()@.len() / size) as int;
    let frames = planar_frames(planes, format);
    assert(last * size <= planes.last()@.len());
    if planes.len() > 1 {
        if plane < planes.len() - 1 {
            lemma_frames_fit(planes.drop_last(), format, plane);
        } else {
            lemma_frames_fit(planes.drop_last(), format, 0);
        }
        assert(planes.drop_last()[0] == planes[0]);
    }
}

fn count_planar_frames(planes: &Vec<Vec<u8>>, format: SampleFormat) -> (frames: usize)
    ensures
        frames == planar_frames(planes@, format),
{
    let size: usize = sample_size(format);
    let mut frames: usize = 0;
    let mut i: usize = 0;
    while i < planes.len()
        invariant
            i <= planes@.len(),
            size == size_of(format),
            frames == planar_frames(planes@.take(i as int), format),
        decreases planes@.len() - i,
    {
        assert(planes@.take(i + 1).drop_last() =~= planes@.take(i as int));
        let here: usize = planes[i].len() / size;
        if i == 0 || here < frames {
            frames = here;
        }
        i += 1;
    }
    assert(planes@.take(i as int) =~= planes@);
    frames
}

/// Appends the samples of the planes, those of each frame in turn.
fn decode_planes(
    output: &mut Vec<Sample>,
    planes: &Vec<Vec<u8>>,
    format: SampleFormat,
    channels: usize,
)
    requires
        channels > 0,
    ensures
        final(output)@ == old(output)@ + samples_of_planes(
            planes@,
            format,
            planes_used(planes@, channels as int),
        ),
{
    let size: usize = sample_size(format);
    let frames: usize = count_planar_frames(planes, format);
    let used: usize = if channels < planes.len() {
        channels
    } else {
        planes.len()
    };
    let ghost all = samples_of_planes(planes@, format, used as int);
    let mut frame: usize = 0;
    assert(output@ =~= old(output)@ + all.take(0));
    proof {
        if used == 0 {
            assert(all =~= Seq::empty());
        }
    }
    while frame < frames
        invariant
            frame <= frames,
            frames == planar_frames(planes@, format),
            size == size_of(format),
            size > 0,
            used <= planes@.len(),
            used == 0 ==> planes@.len() == 0,
            all == samples_of_planes(planes@, format, used as int),
            output@ == old(output)@ + all.take(frame * used),
        decreases frames - frame,
    {
        let mut plane: usize = 0;
        assert(frame * used + used <= frames * used) by (nonlinear_arith)
            requires
                frame < frames,
        ;
        assert(frames * used == all.len());
        while plane < used
            invariant
                plane <= used <= planes@.len(),
                frame < frames,
                frames == planar_frames(planes@, format),
                size == size_of(format),
                size > 0,
                all == samples_of_planes(planes@, format, used as int),
                frame * used + used <= all.len(),
                output@ == old(output)@ + all.take(frame * used + plane),
            decreases used - plane,
        {
            let ghost position = frame * used + plane;
            proof {
                lemma_frames_fit(planes@, format, plane as int);
                vstd::arithmetic::div_mod::lemma_fundamental_div_mod_converse(
                    position,
                    used as int,
                    frame as int,
                    plane as int,
                );
            }
            assert(frame * size + size <= frames * size) by (nonlinear_arith)
                requires
                    frame < frames,
                    size > 0,
            ;
            let bytes: &[u8] = planes[plane].as_slice();
            assert(frames * size <= bytes.len());
            let sample: Sample = decode_one(bytes, frame * size, format);
            assert(all[position] == sample);
            output.push(sample);
            plane += 1;
            assert(output@ =~= old(output)@ + all.take(frame * used + plane));
        }
        assert((frame + 1) * used == frame * used + used) by (nonlinear_arith);
        frame += 1;
    }
    assert(all.take(frames * used) =~= all);
}

/// How a buffer is laid out that claims to hold the samples of all channels in turn: on macOS
/// one of two channels holds them one behind the other.
pub open spec fn halves(platform: Platform, channels: u16) -> bool {
    platform == Platform::MacOs && channels == 2
}

/// The samples of captured audio, those of each frame in turn.
pub open spec fn samples_of(
    data: AudioData,
    format: SampleFormat,
    channels: u16,
    platform: Platform,
) -> Seq<Sample> {
    match data {
        AudioData::Interleaved(bytes) => if halves(platform, channels) {
            samples_of_halves(bytes@, format)
        } else {
            samples_in_turn(bytes@, format)
        },
        AudioData::Planar(planes) => samples_of_planes(
            planes@,
            format,
            planes_used(planes@, channels as int),
        ),
    }
}

/// Why captured audio cannot be read, where it cannot.
pub open spec fn audio_error(
    data: AudioData,
    format: SampleFormat,
    channels: u16,
    platform: Platform,
) -> Option<AudioError> {
    if channels == 0 {
        Some(AudioError::NoChannels)
    } else {
        match data {
            AudioData::Interleaved(bytes) => if halves(platform, channels) {
                if bytes@.len() % (2 * size_of(format)) == 0 {
                    None
                } else {
                    Some(AudioError::InvalidPlanarLength)
                }
            } else if bytes@.len() % size_of(format) == 0 {
                None
            } else {
                Some(AudioError::InvalidLength)
            },
            AudioData::Planar(_) => None,
        }
    }
}

/// The number of groups of `channels` samples, the last of which may be short.
pub open spec fn groups(count: int, channels: int) -> int {
    (count + channels - 1) / channels
}

/// Samples of any number of channels as stereo: the first two channels, or one twice.
pub open spec fn stereo<T>(samples: Seq<T>, channels: int) -> Seq<T> {
    if channels == 1 {
        Seq::new(2 * samples.len(), |i: int| samples[i / 2])
    } else {
        Seq::new(
            (2 * groups(samples.len() as int, channels)) as nat,
            |i: int|
                {
                    let first = (i / 2) * channels;
                    if i % 2 == 1 && first + 1 < samples.len() {
                        samples[first + 1]
                    } else {
                        samples[first]
                    }
                },
        )
    }
}

/// Appends samples of any number of channels as stereo.
fn append_as_stereo<T: Copy>(output: &mut Vec<T>, samples: &Vec<T>, channels: usize)
    requires
        0 < channels <= u16::MAX,
    ensures
        final(output)@ == old(output)@ + stereo(samples@, channels as int),
{
    let ghost all = stereo(samples@, channels as int);
    let count: usize = samples.len();
    let mut start: usize = 0;
    let ghost mut group: int = 0;
    assert(output@ =~= old(output)@ + all.take(0));
    if channels == 1 {
        while start < count
            invariant
                start <= count,
                count == samples@.len(),
                channels == 1,
                all == stereo(samples@, channels as int),
                output@ == old(output)@ + all.take(2 * start),
            decreases count - start,
        {
            assert((2 * start) / 2 == start && (2 * start + 1) / 2 == start);
            assert(all[2 * start] == samples@[start as int]);
            assert(all[2 * start + 1] == samples@[start as int]);
            output.push(samples[start]);
            output.push(samples[start]);
            start += 1;
            assert(output@ =~= old(output)@ + all.take(2 * start));
        }
        assert(all.take(2 * start) =~= all);
        return;
    }
    proof {
        lemma_groups(count as int, channels as int);
    }
    while start < count
        invariant
            1 < channels <= u16::MAX,
            count == samples.len(),
            0 <= group <= groups(count as int, channels as int),
            start == if group < groups(count as int, channels as int) {
                group * channels
            } else {
                count as int
            },
            forall|k: int|
                0 <= k < groups(count as int, channels as int) ==> #[trigger] (k * channels) < count,
            groups(count as int, channels as int) * channels >= count,
            all == stereo(samples@, channels as int),
            output@ == old(output)@ + all.take(2 * group),
        decreases count - start,
    {
        let left: T = samples[start];
        let right: T = if start + 1 < count {
            samples[start + 1]
        } else {
            samples[start]
        };
        assert((2 * group) / 2 == group && (2 * group + 1) / 2 == group);
        assert(all[2 * group] == left);
        assert(all[2 * group + 1] == right);
        output.push(left);
        output.push(right);
        proof {
            group = group + 1;
            assert(group * channels == (group - 1) * channels + channels) by (nonlinear_arith);
            if group < groups(count as int, channels as int) {
                assert(group * channels < count);
            }
        }
        if count - start <= channels {
            start = count;
        } else {
            start += channels;
        }
        assert(output@ =~= old(output)@ + all.take(2 * group));
    }
    proof {
        if group < groups(count as int, channels as int) {
            assert(group * channels < count);
        }
    }
    assert(all.take(2 * group) =~= all);
}

proof fn lemma_groups(count: int, channels: int)
    requires
        count >= 0,
        channels > 0,
    ensures
        groups(count, channels) >= 0,
        groups(count, channels) * channels >= count,
        forall|k: int| 0 <= k < groups(count, channels) ==> #[trigger] (k * channels) < count,
{
    let total = groups(count, channels);
    assert(total * channels >= count && total >= 0 && (total - 1) * channels < count) by (
    nonlinear_arith)
        requires
            total == (count + channels - 1) / channels,
            channels > 0,
            count >= 0,
    ;
    assert forall|k: int| 0 <= k < total implies #[trigger] (k * channels) < count by {
        assert(k * channels <= (total - 1) * channels) by (nonlinear_arith)
            requires
                k <= total - 1,
                channels > 0,
        ;
    }
}

/// Appends captured audio as stereo.
pub fn append_stereo(
    output: &mut Vec<Sample>,
    data: &AudioData,
    format: SampleFormat,
    channels: u16,
    platform: Platform,
) -> (result: Result<(), AudioError>)
    ensures
        match audio_error(*data, format, channels, platform) {
            Some(error) => {
                &&& result == Err::<(), AudioError>(error)
                &&& final(output)@ == old(output)@
            },
            None => {
                &&& result is Ok
                &&& final(output)@ == old(output)@ + stereo(
                    samples_of(*data, format, channels, platform),
                    channels as int,
                )
            },
        },
{
    if channels == 0 {
        return Err(AudioError::NoChannels);
    }
    let mut samples: Vec<Sample> = Vec::new();
    match data {
        AudioData::Interleaved(bytes) => {
            let decoded: Result<(), AudioError> = if platform == Platform::MacOs && channels == 2 {
                decode_planar_stereo(&mut samples, bytes.as_slice(), format)
            } else {
                decode_samples(&mut samples, bytes.as_slice(), format)
            };
            if let Err(error) = decoded {
                return Err(error);
            }
        },
        AudioData::Planar(planes) => {
            decode_planes(&mut samples, planes, format, channels as usize);
        },
    }
    assert(samples@ =~= samples_of(*data, format, channels, platform));
    append_as_stereo(output, &samples, channels as usize);
    Ok(())
}

/// Whole frames of two channels stay as they are, and one channel is heard on both sides.
pub proof fn law_stereo_is_kept<T>(samples: Seq<T>)
    ensures
        samples.len() % 2 == 0 ==> stereo(samples, 2) == samples,
        forall|i: int|
            0 <= i < samples.len() ==> stereo(samples, 1)[2 * i] == #[trigger] samples[i]
                && stereo(samples, 1)[2 * i + 1] == samples[i],
{
    if samples.len() % 2 == 0 {
        assert(stereo(samples, 2) =~= samples);
    }
}

/// Whatever the layout, what comes out are whole stereo frames.
pub proof fn law_stereo_comes_in_pairs<T>(samples: Seq<T>, channels: int)
    requires
        channels > 0,
    ensures
        stereo(samples, channels).len() == 2 * groups(samples.len() as int, channels),
{
    lemma_groups(samples.len() as int, channels);
    if channels == 1 {
        let count = samples.len() as int;
        assert((count + 1 - 1) / 1 == count) by (nonlinear_arith);
    }
}

/// At which rate samples came in.
#[derive(Clone, Copy, Debug, PartialEq, Eq, Structural)]
pub enum InputRate {
    /// So many frames in so many nanoseconds.
    Measured { frames: usize, nanos: u64 },
    /// The rate that capture claims.
    Nominal,
}

/// When the last piece of audio was captured, in nanoseconds of stream time.
pub struct RateMeter {
    pub previous: Option<u64>,
}

/// The rate of a piece with so many frames: measured where time has passed since the piece
/// before it.
pub open spec fn rate_of(previous: Option<u64>, time: u64, frames: usize) -> InputRate {
    match previous {
        Some(before) => if before < time && frames > 0 {
            InputRate::Measured { frames, nanos: (time - before) as u64 }
        } else {
            InputRate::Nominal
        },
        None => InputRate::Nominal,
    }
}

impl RateMeter {
    pub fn new() -> (meter: RateMeter)
        ensures
            meter.previous is None,
    {
        RateMeter { previous: None }
    }

    /// The rate of a piece with so many frames that was captured at `time`.
    pub fn measure(&mut self, time: u64, frames: usize) -> (rate: InputRate)
        ensures
            rate == rate_of(old(self).previous, time, frames),
            final(self).previous == Some(time),
    {
        let rate: InputRate = match self.previous {
            Some(before) => if before < time && frames > 0 {
                InputRate::Measured { frames, nanos: time - before }
            } else {
                InputRate::Nominal
            },
            None => InputRate::Nominal,
        };
        self.previous = Some(time);
        rate
    }
}

/// Samples that wait until there are enough of them for a frame.
pub struct Framer<T> {
    pub pending: Vec<T>,
}

/// The whole frames that samples can be cut into.
pub open spec fn whole_frames<T>(samples: Seq<T>) -> Seq<Seq<T>>
    decreases samples.len(),
{
    if samples.len() < OPUS_FRAME_SAMPLES {
        Seq::empty()
    } else {
        seq![samples.take(OPUS_FRAME_SAMPLES as int)] + whole_frames(
            samples.skip(OPUS_FRAME_SAMPLES as int),
        )
    }
}

/// The samples that are left when whole frames have been cut off.
pub open spec fn left_over<T>(samples: Seq<T>) -> Seq<T>
    decreases samples.len(),
{
    if samples.len() < OPUS_FRAME_SAMPLES {
        samples
    } else {
        left_over(samples.skip(OPUS_FRAME_SAMPLES as int))
    }
}

impl<T> Framer<T> {
    pub fn new() -> (framer: Framer<T>)
        ensures
            framer.pending@ == Seq::<T>::empty(),
    {
        Framer { pending: Vec::new() }
    }

    /// Adds samples behind those that wait.
    pub fn push(&mut self, samples: Vec<T>)
        ensures
            final(self).pending@ == old(self).pending@ + samples@,
    {
        let mut samples: Vec<T> = samples;
        self.pending.append(&mut samples);
    }

    /// Cuts one frame off the samples that wait, where there are enough.
    pub fn next_frame(&mut self) -> (frame: Option<Vec<T>>)
        ensures
            match frame {
                Some(samples) => {
                    &&& old(self).pending@.len() >= OPUS_FRAME_SAMPLES
                    &&& samples@ == old(self).pending@.take(OPUS_FRAME_SAMPLES as int)
                    &&& final(self).pending@ == old(self).pending@.skip(OPUS_FRAME_SAMPLES as int)
                },
                None => {
                    &&& old(self).pending@.len() < OPUS_FRAME_SAMPLES
                    &&& final(self).pending@ == old(self).pending@
                },
            },
    {
        if self.pending.len() < OPUS_FRAME_SAMPLES {
            return None;
        }
        let mut frame: Vec<T> = self.pending.split_off(OPUS_FRAME_SAMPLES);
        std::mem::swap(&mut frame, &mut self.pending);
        Some(frame)
    }

    /// Cuts all whole frames off the samples that wait.
    pub fn take_frames(&mut self) -> (frames: Vec<Vec<T>>)
        ensures
            contents(frames@) == whole_frames(old(self).pending@),
            final(self).pending@ == left_over(old(self).pending@),
    {
        let ghost all = self.pending@;
        let mut frames: Vec<Vec<T>> = Vec::new();
        assert(contents(frames@) + whole_frames(all) =~= whole_frames(all));
        loop
            invariant
                all == old(self).pending@,
                contents(frames@) + whole_frames(self.pending@) == whole_frames(all),
                left_over(self.pending@) == left_over(all),
            decreases self.pending@.len(),
        {
            let ghost before = contents(frames@);
            match self.next_frame() {
                Some(frame) => {
                    frames.push(frame);
                    assert(contents(frames@) =~= before.push(frame@));
                    assert(contents(frames@) + whole_frames(self.pending@) =~= before + (
                    seq![frame@] + whole_frames(self.pending@)));
                },
                None => {
                    assert(before + whole_frames(self.pending@) =~= before);
                    return frames;
                },
            }
        }
    }
}

/// What a row of vectors holds.
pub open spec fn contents<T>(frames: Seq<Vec<T>>) -> Seq<Seq<T>> {
    frames.map_values(|frame: Vec<T>| frame@)
}

/// Nothing is lost, doubled or moved when audio is cut into frames: it makes no difference
/// whether samples come in one piece or in two.
pub proof fn law_framing_is_seamless<T>(first: Seq<T>, second: Seq<T>)
    ensures
        whole_frames(first + second) == whole_frames(first) + whole_frames(
            left_over(first) + second,
        ),
        left_over(first + second) == left_over(left_over(first) + second),
        left_over(first).len() < OPUS_FRAME_SAMPLES,
    decreases first.len(),
{
    if first.len() < OPUS_FRAME_SAMPLES {
        assert(whole_frames(first) + whole_frames(first + second) =~= whole_frames(first + second));
    } else {
        let n = OPUS_FRAME_SAMPLES as int;
        let all = first + second;
        assert(all.take(n) =~= first.take(n));
        assert(all.skip(n) =~= first.skip(n) + second);
        law_framing_is_seamless(first.skip(n), second);
        assert(whole_frames(all) =~= whole_frames(first) + whole_frames(left_over(first) + second));
    }
}

/// The samples of a row of frames, one behind the other.
pub open spec fn joined<T>(frames: Seq<Seq<T>>) -> Seq<T>
    decreases frames.len(),
{
    if frames.len() == 0 {
        Seq::empty()
    } else {
        frames[0] + joined(frames.skip(1))
    }
}

/// The frames and what is left over make up the samples, in order, and each frame is full.
pub proof fn law_frames_make_up_the_audio<T>(samples: Seq<T>)
    ensures
        joined(whole_frames(samples)) + left_over(samples) == samples,
        forall|i: int|
            0 <= i < whole_frames(samples).len() ==> (#[trigger] whole_frames(samples)[i]).len()
                == OPUS_FRAME_SAMPLES,
    decreases samples.len(),
{
    let frames = whole_frames(samples);
    if samples.len() < OPUS_FRAME_SAMPLES {
        assert(joined(frames) + samples =~= samples);
    } else {
        let n = OPUS_FRAME_SAMPLES as int;
        law_frames_make_up_the_audio(samples.skip(n));
        assert(frames.skip(1) =~= whole_frames(samples.skip(n)));
        assert(joined(frames) + left_over(samples) =~= samples.take(n) + (joined(
            whole_frames(samples.skip(n)),
        ) + left_over(samples.skip(n))));
        assert(samples =~= samples.take(n) + samples.skip(n));
        assert forall|i: int| 0 <= i < frames.len() implies (#[trigger] frames[i]).len()
            == OPUS_FRAME_SAMPLES by {
            if i > 0 {
                assert(frames[i] == whole_frames(samples.skip(n))[i - 1]);
            }
        }
    }
}

/// The bytes of a number from zero on, the lowest first.
pub open spec fn low_bytes_first(value: int, count: nat) -> Seq<u8>
    decreases count,
{
    if count == 0 {
        Seq::empty()
    } else {
        seq![(value % 256) as u8] + low_bytes_first(value / 256, (count - 1) as nat)
    }
}

/// A sample as it is stored: negative numbers as their distance to the next power of two that
/// the bytes cannot hold.
pub open spec fn stored(sample: Sample) -> Seq<u8> {
    match sample {
        Sample::I16(value) => low_bytes_first(
            if value < 0 {
                value + 0x1_0000
            } else {
                value as int
            },
            2,
        ),
        Sample::I32(value) => low_bytes_first(
            if value < 0 {
                value + 0x1_0000_0000
            } else {
                value as int
            },
            4,
        ),
        Sample::F32(bits) => low_bytes_first(bits as int, 4),
        Sample::F64(bits) => low_bytes_first(bits as int, 8),
    }
}

/// Samples as they are stored one behind the other.
pub open spec fn stored_in_turn(samples: Seq<Sample>) -> Seq<u8>
    decreases samples.len(),
{
    if samples.len() == 0 {
        Seq::empty()
    } else {
        stored_in_turn(samples.drop_last()) + stored(samples.last())
    }
}

/// The sample is of the given format.
pub open spec fn is_of(sample: Sample, format: SampleFormat) -> bool {
    match format {
        SampleFormat::I16 => sample is I16,
        SampleFormat::I32 => sample is I32,
        SampleFormat::F32 => sample is F32,
        SampleFormat::F64 => sample is F64,
    }
}

proof fn lemma_low_bytes(bytes: Seq<u8>)
    ensures
        low_bytes_first(little_endian(bytes), bytes.len()) == bytes,
        0 <= little_endian(bytes) < power_of_256(bytes.len() as int),
    decreases bytes.len(),
{
    if bytes.len() > 0 {
        let rest = bytes.skip(1);
        lemma_low_bytes(rest);
        let value = little_endian(bytes);
        assert(value == bytes[0] + 256 * little_endian(rest));
        assert(value % 256 == bytes[0] && value / 256 == little_endian(rest));
        assert(low_bytes_first(value, bytes.len()) =~= bytes);
    } else {
        assert(low_bytes_first(little_endian(bytes), 0) =~= bytes);
    }
}

/// A sample is read as it was stored, in every format: stored again, it gives the bytes that it
/// was read from, two, four or eight of them.
pub proof fn law_samples_are_read_as_stored(bytes: Seq<u8>, index: int, format: SampleFormat)
    requires
        0 <= index,
        index + (match format {
            SampleFormat::I16 => 2int,
            SampleFormat::I32 => 4,
            SampleFormat::F32 => 4,
            SampleFormat::F64 => 8,
        }) <= bytes.len(),
    ensures
        is_of(sample_at(bytes, index, format), format),
        stored(sample_at(bytes, index, format)) == bytes.subrange(
            index,
            index + (match format {
                SampleFormat::I16 => 2int,
                SampleFormat::I32 => 4,
                SampleFormat::F32 => 4,
                SampleFormat::F64 => 8,
            }),
        ),
{
    let part = bytes.subrange(index, index + size_of(format));
    lemma_low_bytes(part);
    reveal_with_fuel(power_of_256, 9);
}

proof fn lemma_stored_prefix(bytes: Seq<u8>, format: SampleFormat, count: nat)
    requires
        count * size_of(format) <= bytes.len(),
    ensures
        count <= samples_in_turn(bytes, format).len(),
        stored_in_turn(samples_in_turn(bytes, format).take(count as int)) == bytes.take(
            (count * size_of(format)) as int,
        ),
    decreases count,
{
    let size = size_of(format);
    let all = samples_in_turn(bytes, format);
    assert(count <= bytes.len() / size) by (nonlinear_arith)
        requires
            count * size <= bytes.len(),
            size > 0,
    ;
    if count == 0 {
        assert(bytes.take(0) =~= stored_in_turn(all.take(0)));
    } else {
        let before = (count - 1) as nat;
        assert(before * size + size == count * size) by (nonlinear_arith)
            requires
                before == count - 1,
        ;
        lemma_stored_prefix(bytes, format, before);
        assert(all.take(count as int).drop_last() =~= all.take(before as int));
        let last = sample_at(bytes, (before * size) as int, format);
        assert(all.take(count as int).last() == last);
        law_samples_are_read_as_stored(bytes, (before * size) as int, format);
        assert(bytes.take((count * size) as int) =~= bytes.take((before * size) as int)
            + bytes.subrange((before * size) as int, (before * size + size) as int));
    }
}

/// A buffer of whole samples is read in order, without a byte lost, doubled or moved: the samples,
/// all of the buffer's format, give back the buffer when they are stored one behind the other.
pub proof fn law_buffers_are_read_in_order(bytes: Seq<u8>, format: SampleFormat)
    requires
        bytes.len() % (match format {
            SampleFormat::I16 => 2nat,
            SampleFormat::I32 => 4,
            SampleFormat::F32 => 4,
            SampleFormat::F64 => 8,
        }) == 0,
    ensures
        stored_in_turn(samples_in_turn(bytes, format)) == bytes,
        forall|i: int|
            0 <= i < samples_in_turn(bytes, format).len() ==> is_of(
                #[trigger] samples_in_turn(bytes, format)[i],
                format,
            ),
{
    let size = size_of(format);
    let count = (bytes.len() / size) as nat;
    assert(count * size == bytes.len()) by (nonlinear_arith)
        requires
            count == bytes.len() / size,
            bytes.len() % size == 0,
            size > 0,
    ;
    lemma_stored_prefix(bytes, format, count);
    assert(samples_in_turn(bytes, format).take(count as int) =~= samples_in_turn(bytes, format));
    assert(bytes.take(bytes.len() as int) =~= bytes);
}

/// The samples of one of several channels that come in turn.
pub open spec fn channel(samples: Seq<Sample>, channels: int, which: int) -> Seq<Sample> {
    Seq::new((samples.len() / channels as nat) as nat, |i: int| samples[i * channels + which])
}

proof fn lemma_stored_channel(
    samples: Seq<Sample>,
    bytes: Seq<u8>,
    start: int,
    format: SampleFormat,
    count: nat,
)
    requires
        0 <= start,
        count <= samples.len(),
        start + count * size_of(format) <= bytes.len(),
        forall|i: int|
            0 <= i < samples.len() ==> #[trigger] samples[i] == sample_at(
                bytes,
                start + i * size_of(format),
                format,
            ),
    ensures
        stored_in_turn(samples.take(count as int)) == bytes.subrange(
            start,
            start + count * size_of(format),
        ),
    decreases count,
{
    let size = size_of(format);
    if count == 0 {
        assert(bytes.subrange(start, start) =~= stored_in_turn(samples.take(0)));
    } else {
        let before = (count - 1) as nat;
        assert(before * size + size == count * size) by (nonlinear_arith)
            requires
                before == count - 1,
        ;
        assert(0 <= before * size) by (nonlinear_arith);
        lemma_stored_channel(samples, bytes, start, format, before);
        assert(samples.take(count as int).drop_last() =~= samples.take(before as int));
        law_samples_are_read_as_stored(bytes, start + before * size, format);
        assert(bytes.subrange(start, start + count * size) =~= bytes.subrange(
            start,
            start + before * size,
        ) + bytes.subrange(start + before * size, start + before * size + size));
    }
}

/// Of a buffer that holds two channels one behind the other, the first half comes out as the left
/// channel and the second as the right one, each in order.
pub proof fn law_halves_are_the_channels(bytes: Seq<u8>, format: SampleFormat)
    requires
        bytes.len() % (match format {
            SampleFormat::I16 => 4nat,
            SampleFormat::I32 => 8,
            SampleFormat::F32 => 8,
            SampleFormat::F64 => 16,
        }) == 0,
    ensures
        ({
            let samples = samples_of_halves(bytes, format);
            &&& samples.len() % 2 == 0
            &&& forall|i: int| 0 <= i < samples.len() ==> is_of(#[trigger] samples[i], format)
            &&& stored_in_turn(channel(samples, 2, 0)) == bytes.take(bytes.len() as int / 2)
            &&& stored_in_turn(channel(samples, 2, 1)) == bytes.skip(bytes.len() as int / 2)
        }),
{
    let size = size_of(format);
    let half = (bytes.len() / 2) as nat;
    let count = (half / size) as nat;
    let samples = samples_of_halves(bytes, format);
    assert(half * 2 == bytes.len() && half % size == 0);
    assert(count * size == half) by (nonlinear_arith)
        requires
            count == half / size,
            half % size == 0,
            size > 0,
    ;
    let left = channel(samples, 2, 0);
    let right = channel(samples, 2, 1);
    assert forall|i: int| 0 <= i < left.len() implies #[trigger] left[i] == sample_at(
        bytes,
        0 + i * size,
        format,
    ) by {
        assert((i * 2 + 0) / 2 == i && (i * 2 + 0) % 2 == 0);
    }
    assert forall|i: int| 0 <= i < right.len() implies #[trigger] right[i] == sample_at(
        bytes,
        half + i * size,
        format,
    ) by {
        assert((i * 2 + 1) / 2 == i && (i * 2 + 1) % 2 == 1);
    }
    lemma_stored_channel(left, bytes, 0, format, count);
    lemma_stored_channel(right, bytes, half as int, format, count);
    assert(left.take(count as int) =~= left);
    assert(right.take(count as int) =~= right);
    assert(bytes.subrange(0, half as int) =~= bytes.take(half as int));
    assert(bytes.subrange(half as int, (half + half) as int) =~= bytes.skip(half as int));
}

/// As many frames are read from planes as the shortest of them holds whole samples.
pub proof fn law_the_shortest_plane_decides(planes: Seq<Vec<u8>>, format: SampleFormat)
    ensures
        ({
            let size = match format {
                SampleFormat::I16 => 2int,
                SampleFormat::I32 => 4,
                SampleFormat::F32 => 4,
                SampleFormat::F64 => 8,
            };
            let frames = planar_frames(planes, format);
            &&& planes.len() == 0 ==> frames == 0
            &&& forall|i: int|
                0 <= i < planes.len() ==> frames * size <= (#[trigger] planes[i])@.len()
            &&& planes.len() > 0 ==> exists|i: int|
                0 <= i < planes.len() && (#[trigger] planes[i])@.len() < (frames + 1) * size
        }),
    decreases planes.len(),
{
    let size = size_of(format);
    let frames = planar_frames(planes, format);
    if planes.len() > 0 {
        assert forall|i: int| 0 <= i < planes.len() implies frames * size <= (
        #[trigger] planes[i])@.len() by {
            lemma_frames_fit(planes, format, i);
        }
        let n = planes.len() - 1;
        let last = (planes.last()@.len() / size) as int;
        if frames == last {
            assert(planes[n]@.len() < (last + 1) * size) by (nonlinear_arith)
                requires
                    last == planes[n]@.len() / size,
                    size > 0,
            ;
        } else {
            let before = planes.drop_last();
            law_the_shortest_plane_decides(before, format);
            let i = choose|i: int|
                0 <= i < before.len() && (#[trigger] before[i])@.len() < (planar_frames(
                    before,
                    format,
                ) + 1) * size;
            assert(planes[i] == before[i]);
        }
    }
}

/// Of planes, each of the first ones, as many as there are channels, comes out as a channel of
/// its own, in order and from the beginning of the plane on.
pub proof fn law_planes_are_the_channels(
    planes: Seq<Vec<u8>>,
    format: SampleFormat,
    channels: int,
    which: int,
)
    requires
        0 <= which < channels,
        which < planes.len(),
    ensures
        ({
            let used = planes_used(planes, channels);
            let samples = samples_of_planes(planes, format, used);
            let size = match format {
                SampleFormat::I16 => 2int,
                SampleFormat::I32 => 4,
                SampleFormat::F32 => 4,
                SampleFormat::F64 => 8,
            };
            &&& used <= channels && used <= planes.len() && (used == channels || used
                == planes.len())
            &&& samples.len() == planar_frames(planes, format) * used
            &&& forall|i: int| 0 <= i < samples.len() ==> is_of(#[trigger] samples[i], format)
            &&& stored_in_turn(channel(samples, used, which)) == planes[which]@.take(
                planar_frames(planes, format) * size,
            )
        }),
{
    let used = planes_used(planes, channels);
    let samples = samples_of_planes(planes, format, used);
    let size = size_of(format);
    let frames = planar_frames(planes, format);
    lemma_frames_fit(planes, format, which);
    assert(frames >= 0) by (nonlinear_arith)
        requires
            0 <= frames * size,
            size > 0,
    ;
    assert(frames * used >= 0) by (nonlinear_arith)
        requires
            frames >= 0,
            used >= 0,
    ;
    let part = channel(samples, used, which);
    assert((frames * used) / used == frames) by (nonlinear_arith)
        requires
            used > 0,
    ;
    assert forall|i: int| 0 <= i < part.len() implies #[trigger] part[i] == sample_at(
        planes[which]@,
        0 + i * size,
        format,
    ) by {
        vstd::arithmetic::div_mod::lemma_fundamental_div_mod_converse(
            i * used + which,
            used,
            i,
            which,
        );
        assert(0 <= i * used + which < frames * used) by (nonlinear_arith)
            requires
                0 <= i < frames,
                0 <= which < used,
        ;
    }
    lemma_stored_channel(part, planes[which]@, 0, format, frames as nat);
    assert(part.take(frames) =~= part);
    assert(planes[which]@.subrange(0, frames * size) =~= planes[which]@.take(frames * size));
}

/// What is read as what: a buffer of samples in turn, but on macOS one of two channels, which
/// holds them one behind the other; and planes.
pub proof fn law_layouts_go_by_platform(
    bytes: Vec<u8>,
    planes: Vec<Vec<u8>>,
    format: SampleFormat,
    channels: u16,
    platform: Platform,
)
    ensures
        !(platform is MacOs) || channels != 2 ==> samples_of(
            AudioData::Interleaved(bytes),
            format,
            channels,
            platform,
        ) == samples_in_turn(bytes@, format),
        platform is MacOs && channels == 2 ==> samples_of(
            AudioData::Interleaved(bytes),
            format,
            channels,
            platform,
        ) == samples_of_halves(bytes@, format),
        samples_of(AudioData::Planar(planes), format, channels, platform) == samples_of_planes(
            planes@,
            format,
            planes_used(planes@, channels as int),
        ),
{
}

/// Stereo that comes in turn is heard as it was captured.
pub proof fn law_stereo_is_heard_as_captured(bytes: Vec<u8>, format: SampleFormat, platform: Platform)
    requires
        !(platform is MacOs),
        bytes@.len() % (match format {
            SampleFormat::I16 => 4nat,
            SampleFormat::I32 => 8,
            SampleFormat::F32 => 8,
            SampleFormat::F64 => 16,
        }) == 0,
    ensures
        audio_error(AudioData::Interleaved(bytes), format, 2, platform) is None,
        stored_in_turn(
            stereo(samples_of(AudioData::Interleaved(bytes), format, 2, platform), 2),
        ) == bytes@,
{
    let samples = samples_in_turn(bytes@, format);
    assert(samples.len() % 2 == 0) by {
        match format {
            SampleFormat::I16 => assert(samples.len() == bytes@.len() / 2),
            SampleFormat::F64 => assert(samples.len() == bytes@.len() / 8),
            _ => assert(samples.len() == bytes@.len() / 4),
        }
    }
    assert(samples_of(AudioData::Interleaved(bytes), format, 2, platform) == samples);
    assert(stored_in_turn(samples) == bytes@) by {
        law_buffers_are_read_in_order(bytes@, format);
    }
    assert(stereo(samples, 2) == samples) by {
        law_stereo_is_kept(samples);
    }
}

/// Which audio cannot be read, and why: that without channels, and a buffer that does not hold
/// whole samples, or on macOS whole samples in both of its halves. Planes can always be read.
pub proof fn law_broken_audio_is_refused(
    bytes: Vec<u8>,
    planes: Vec<Vec<u8>>,
    format: SampleFormat,
    channels: u16,
    platform: Platform,
)
    ensures
        ({
            let size = match format {
                SampleFormat::I16 => 2nat,
                SampleFormat::I32 => 4,
                SampleFormat::F32 => 4,
                SampleFormat::F64 => 8,
            };
            let in_turn = audio_error(AudioData::Interleaved(bytes), format, channels, platform);
            let planar = audio_error(AudioData::Planar(planes), format, channels, platform);
            &&& channels == 0 <==> in_turn == Some(AudioError::NoChannels)
            &&& channels == 0 <==> planar == Some(AudioError::NoChannels)
            &&& channels > 0 ==> planar is None
            &&& channels > 0 && platform is MacOs && channels == 2 ==> {
                &&& bytes@.len() % (2 * size) == 0 ==> in_turn is None
                &&& bytes@.len() % (2 * size) != 0 ==> in_turn == Some(
                    AudioError::InvalidPlanarLength,
                )
            }
            &&& channels > 0 && !(platform is MacOs && channels == 2) ==> {
                &&& bytes@.len() % size == 0 ==> in_turn is None
                &&& bytes@.len() % size != 0 ==> in_turn == Some(AudioError::InvalidLength)
            }
        }),
{
}

/// A group of samples, one for each channel and perhaps short at the end, is heard as its first
/// two, or as its first twice where it has but one.
pub proof fn law_a_group_is_heard_as_two<T>(group: Seq<T>, channels: int)
    requires
        0 < group.len() <= channels,
    ensures
        stereo(group, channels) == seq![
            group[0],
            if group.len() > 1 {
                group[1]
            } else {
                group[0]
            },
        ],
{
    let count = group.len() as int;
    assert((count + channels - 1) / channels == 1) by (nonlinear_arith)
        requires
            0 < count <= channels,
    ;
    let all = stereo(group, channels);
    assert(all.len() == 2);
    assert(0 * channels == 0);
    assert(0int / 2 == 0 && 1int / 2 == 0 && 0int % 2 == 0 && 1int % 2 == 1);
    assert(all[0] == group[0]);
    assert(all[1] == if group.len() > 1 {
        group[1]
    } else {
        group[0]
    });
    assert(all =~= seq![
        group[0],
        if group.len() > 1 {
            group[1]
        } else {
            group[0]
        },
    ]);
}

/// Groups are heard one behind the other: whole groups ahead of others do not change how these
/// are heard.
pub proof fn law_groups_are_heard_in_order<T>(first: Seq<T>, second: Seq<T>, channels: int, count: int)
    requires
        channels > 0,
        count >= 0,
        first.len() == count * channels,
    ensures
        stereo(first + second, channels) == stereo(first, channels) + stereo(second, channels),
        stereo(first, channels).len() == 2 * count,
{
    let both = first + second;
    let rest = second.len() as int;
    lemma_groups(rest, channels);
    assert((count * channels + rest + channels - 1) / channels == count + (rest + channels - 1)
        / channels) by {
        vstd::arithmetic::div_mod::lemma_hoist_over_denominator(
            rest + channels - 1,
            count,
            channels as nat,
        );
    }
    assert((count * channels + channels - 1) / channels == count) by (nonlinear_arith)
        requires
            channels > 0,
    ;
    let heard = stereo(first, channels) + stereo(second, channels);
    let all = stereo(both, channels);
    if channels == 1 {
        assert(count * channels == count);
        assert(all =~= heard);
    } else {
        assert(all.len() == heard.len());
        assert forall|i: int| 0 <= i < all.len() implies all[i] == heard[i] by {
            let group = i / 2;
            if i < 2 * count {
                assert(group * channels + channels <= count * channels) by (nonlinear_arith)
                    requires
                        group + 1 <= count,
                        channels > 0,
                ;
                assert(0 <= group * channels) by (nonlinear_arith)
                    requires
                        group >= 0,
                        channels > 0,
                ;
            } else {
                let j = i - 2 * count;
                assert(j / 2 == group - count && j % 2 == i % 2);
                assert((group - count) * channels == group * channels - count * channels)
                    by (nonlinear_arith);
                assert(0 <= (group - count) * channels) by (nonlinear_arith)
                    requires
                        group >= count,
                        channels > 0,
                ;
                assert((group - count) * channels < rest);
            }
        }
        assert(all =~= heard);
    }
}

/// The rate is measured over the time since the piece before, where time has passed and the piece
/// is not empty; else it is the one that capture claims.
pub proof fn law_rates_are_measured(previous: u64, time: u64, frames: usize)
    ensures
        rate_of(None, time, frames) == InputRate::Nominal,
        rate_of(Some(previous), time, frames) is Measured <==> previous < time && frames > 0,
        match rate_of(Some(previous), time, frames) {
            InputRate::Measured { frames: counted, nanos } => counted == frames && previous + nanos
                == time,
            InputRate::Nominal => true,
        },
{
}

/// A frame of audio holds what is heard in its time, on both sides, at the encoder's rate.
pub proof fn law_frames_last_as_long_as_they_say()
    ensures
        1_000 * OPUS_FRAME_SAMPLES == 2 * OPUS_SAMPLE_RATE * OPUS_FRAME_MILLIS,
{
}

/// What a row of vectors holds is what each of them holds, in order.
pub proof fn law_contents_are_in_order<T>(frames: Seq<Vec<T>>, i: int)
    ensures
        contents(frames).len() == frames.len(),
        0 <= i < frames.len() ==> contents(frames)[i] == frames[i]@,
{
}

} // verus!
