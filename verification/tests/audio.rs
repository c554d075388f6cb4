use beam::audio::{
    append_stereo, decode_one, decode_planar_stereo, decode_samples, sample_size, AudioData,
    AudioError, Framer, InputRate, RateMeter, Sample, SampleFormat, OPUS_FRAME_SAMPLES,
};
use beam::platform::Platform;

fn stereo(
    data: AudioData,
    format: SampleFormat,
    channels: u16,
    platform: Platform,
) -> Result<Vec<Sample>, AudioError> {
    let mut output = vec![Sample::I16(99)];
    let result = append_stereo(&mut output, &data, format, channels, platform);
    assert_eq!(output.remove(0), Sample::I16(99));
    if result.is_err() {
        assert!(output.is_empty());
    }
    result.map(|_| output)
}

fn i16s(values: &[i16]) -> Vec<Sample> {
    values.iter().map(|value| Sample::I16(*value)).collect()
}

#[test]
fn samples_are_little_endian() {
    assert_eq!(decode_one(&[9, 0x34, 0x12], 1, SampleFormat::I16), Sample::I16(0x1234));
    assert_eq!(decode_one(&[0xff, 0xff], 0, SampleFormat::I16), Sample::I16(-1));
    assert_eq!(decode_one(&[0, 0x80], 0, SampleFormat::I16), Sample::I16(i16::MIN));
    assert_eq!(
        decode_one(&(-123_456_789i32).to_le_bytes(), 0, SampleFormat::I32),
        Sample::I32(-123_456_789)
    );
    assert_eq!(
        decode_one(&0.625f32.to_le_bytes(), 0, SampleFormat::F32),
        Sample::F32(0.625f32.to_bits())
    );
    assert_eq!(
        decode_one(&(-0.1f64).to_le_bytes(), 0, SampleFormat::F64),
        Sample::F64((-0.1f64).to_bits())
    );
}

#[test]
fn samples_have_sizes() {
    assert_eq!(sample_size(SampleFormat::I16), 2);
    assert_eq!(sample_size(SampleFormat::I32), 4);
    assert_eq!(sample_size(SampleFormat::F32), 4);
    assert_eq!(sample_size(SampleFormat::F64), 8);
}

#[test]
fn interleaved_samples_are_read_in_turn() {
    let mut output = Vec::new();
    assert!(decode_samples(&mut output, &[1, 0, 2, 0, 3, 0], SampleFormat::I16).is_ok());
    assert_eq!(output, i16s(&[1, 2, 3]));
    assert_eq!(
        decode_samples(&mut output, &[1, 0, 2], SampleFormat::I16),
        Err(AudioError::InvalidLength)
    );
    assert_eq!(output.len(), 3);
}

#[test]
fn halves_are_woven_together() {
    let mut output = Vec::new();
    let bytes = [1, 0, 2, 0, 3, 0, 4, 0];
    assert!(decode_planar_stereo(&mut output, &bytes, SampleFormat::I16).is_ok());
    assert_eq!(output, i16s(&[1, 3, 2, 4]));
    assert_eq!(
        decode_planar_stereo(&mut output, &bytes[..6], SampleFormat::I16),
        Err(AudioError::InvalidPlanarLength)
    );
}

#[test]
fn any_layout_becomes_stereo() {
    let linux = Platform::Linux;
    let bytes = || AudioData::Interleaved(vec![1, 0, 2, 0, 3, 0, 4, 0]);
    assert_eq!(stereo(bytes(), SampleFormat::I16, 2, linux), Ok(i16s(&[1, 2, 3, 4])));
    assert_eq!(stereo(bytes(), SampleFormat::I16, 2, Platform::MacOs), Ok(i16s(&[1, 3, 2, 4])));
    assert_eq!(
        stereo(bytes(), SampleFormat::I16, 1, Platform::MacOs),
        Ok(i16s(&[1, 1, 2, 2, 3, 3, 4, 4]))
    );
    assert_eq!(stereo(bytes(), SampleFormat::I16, 3, linux), Ok(i16s(&[1, 2, 4, 4])));
    assert_eq!(stereo(bytes(), SampleFormat::I16, 4, linux), Ok(i16s(&[1, 2])));
    let planes = || AudioData::Planar(vec![vec![1, 0, 2, 0, 9], vec![3, 0, 4, 0], vec![5, 0, 6, 0, 7, 0]]);
    assert_eq!(stereo(planes(), SampleFormat::I16, 3, linux), Ok(i16s(&[1, 3, 2, 4])));
    assert_eq!(stereo(planes(), SampleFormat::I16, 2, linux), Ok(i16s(&[1, 3, 2, 4])));
    assert_eq!(stereo(planes(), SampleFormat::I16, 1, linux), Ok(i16s(&[1, 1, 2, 2])));
    assert_eq!(stereo(AudioData::Planar(vec![]), SampleFormat::F64, 2, linux), Ok(vec![]));
}

#[test]
fn unreadable_audio_is_refused() {
    let bytes = || AudioData::Interleaved(vec![0; 6]);
    assert_eq!(
        stereo(bytes(), SampleFormat::I16, 0, Platform::Linux),
        Err(AudioError::NoChannels)
    );
    assert_eq!(
        stereo(bytes(), SampleFormat::F32, 2, Platform::Linux),
        Err(AudioError::InvalidLength)
    );
    assert_eq!(
        stereo(bytes(), SampleFormat::I16, 2, Platform::MacOs),
        Err(AudioError::InvalidPlanarLength)
    );
    assert_eq!(AudioError::NoChannels.message(), "audio capture reported zero channels");
    assert_eq!(AudioError::InvalidLength.message(), "audio sample buffer has an invalid length");
    assert_eq!(
        AudioError::InvalidPlanarLength.message(),
        "planar audio sample buffer has an invalid length"
    );
}

#[test]
fn rates_are_measured_between_pieces() {
    let mut meter = RateMeter::new();
    assert_eq!(meter.measure(1_000, 480), InputRate::Nominal);
    assert_eq!(meter.measure(11_000, 480), InputRate::Measured { frames: 480, nanos: 10_000 });
    assert_eq!(meter.measure(11_000, 480), InputRate::Nominal);
    assert_eq!(meter.measure(5_000, 480), InputRate::Nominal);
    assert_eq!(meter.measure(6_000, 0), InputRate::Nominal);
    assert_eq!(meter.measure(6_001, 1), InputRate::Measured { frames: 1, nanos: 1 });
}

#[test]
fn frames_are_cut_seamlessly() {
    let samples: Vec<u32> = (0..1_500).collect();
    let mut whole = Framer::new();
    whole.push(samples.clone());
    let expected = whole.take_frames();
    assert_eq!(expected.len(), 3);
    assert!(expected.iter().all(|frame| frame.len() == OPUS_FRAME_SAMPLES));
    assert_eq!(whole.pending, samples[1_440..].to_vec());

    let mut pieces = Framer::new();
    let mut frames = Vec::new();
    for piece in samples.chunks(77) {
        pieces.push(piece.to_vec());
        while let Some(frame) = pieces.next_frame() {
            frames.push(frame);
        }
    }
    assert_eq!(frames, expected);
    assert_eq!(pieces.pending, whole.pending);
}
