use beam::capture::h264::{
    accept_encoder, avcc_nalus, can_copy, copy_bgra, encoded, session_properties, EncodeError,
    FormatDescription, NalError, SampleBuffer,
};
use beam::capture::RawFrame;

#[test]
fn parses_avcc_nalus() {
    let data = [0, 0, 0, 2, 0x65, 1, 0, 0, 0, 1, 0x41];
    assert_eq!(
        avcc_nalus(&data, 4).unwrap(),
        vec![&[0x65, 1][..], &[0x41][..]]
    );
    assert!(avcc_nalus(&data[..5], 4).is_err());
}

#[test]
fn rejects_malformed_nalus() {
    assert_eq!(avcc_nalus(&[], 0), Err(NalError::LengthSize(0)));
    assert_eq!(avcc_nalus(&[1, 2], 5), Err(NalError::LengthSize(5)));
    assert_eq!(avcc_nalus(&[0, 0, 1], 4), Err(NalError::TruncatedLength));
    assert_eq!(avcc_nalus(&[0, 7], 1), Err(NalError::InvalidLength));
    assert_eq!(avcc_nalus(&[3, 7, 7], 1), Err(NalError::InvalidLength));
    assert_eq!(avcc_nalus(&[], 3), Ok(vec![]));
}

#[test]
fn splitting_undoes_joining() {
    let units: Vec<Vec<u8>> = vec![vec![9; 300], vec![1], vec![5, 6]];
    let mut data: Vec<u8> = Vec::new();
    for unit in &units {
        data.push((unit.len() / 256) as u8);
        data.push((unit.len() % 256) as u8);
        data.extend_from_slice(unit);
    }
    let split = avcc_nalus(&data, 2).unwrap();
    assert_eq!(split.len(), 3);
    for i in 0..3 {
        assert_eq!(split[i], &units[i][..]);
    }
}

fn sample(data: Option<Vec<u8>>, parameter_sets: Option<Vec<Vec<u8>>>) -> SampleBuffer {
    SampleBuffer { format: Some(FormatDescription { parameter_sets, length_size: 1 }), data }
}

#[test]
fn key_frames_carry_their_parameters() {
    let key = sample(Some(vec![2, 0x65, 7, 1, 6]), Some(vec![vec![8], vec![9, 9]]));
    assert_eq!(
        encoded(false, Some(&key)).unwrap(),
        vec![0, 0, 0, 1, 8, 0, 0, 0, 1, 9, 9, 0, 0, 0, 1, 0x65, 7, 0, 0, 0, 1, 6]
    );
    let delta = sample(Some(vec![1, 0x41]), Some(vec![vec![8]]));
    assert_eq!(encoded(false, Some(&delta)).unwrap(), vec![0, 0, 0, 1, 0x41]);
}

#[test]
fn encoder_failures_are_told_apart() {
    let good = sample(Some(vec![1, 0x41]), None);
    assert_eq!(encoded(true, Some(&good)), Err(EncodeError::CallbackFailed));
    assert_eq!(encoded(false, None), Err(EncodeError::DroppedFrame));
    let formless = SampleBuffer { format: None, data: Some(vec![]) };
    assert_eq!(encoded(false, Some(&formless)), Err(EncodeError::MissingFormat));
    assert_eq!(encoded(false, Some(&sample(None, None))), Err(EncodeError::MissingData));
    let broken = sample(Some(vec![9]), None);
    assert_eq!(
        encoded(false, Some(&broken)),
        Err(EncodeError::Nal(NalError::InvalidLength))
    );
    let key = sample(Some(vec![1, 0x65]), None);
    assert_eq!(encoded(false, Some(&key)), Err(EncodeError::MissingParameterSets));
    assert!(encoded(false, Some(&good)).is_ok());
}

#[test]
fn pictures_are_drawn_in_the_middle() {
    let source = RawFrame {
        bgra: vec![1, 2, 3, 4, 5, 6, 7, 8],
        width: 2,
        height: 1,
        stride: 2,
        captured_at: 0,
    };
    let mut data = vec![9u8; 36];
    copy_bgra(&source, &mut data, 2, 3, 12);
    let mut expected = vec![0u8; 36];
    expected[12..20].copy_from_slice(&[1, 2, 3, 4, 5, 6, 7, 8]);
    assert_eq!(data, expected);
}

#[test]
fn pictures_are_enlarged_by_repeating_pixels() {
    let source = RawFrame {
        bgra: vec![1, 1, 1, 1, 2, 2, 2, 2],
        width: 2,
        height: 1,
        stride: 2,
        captured_at: 0,
    };
    let mut data = vec![0u8; 32];
    copy_bgra(&source, &mut data, 4, 2, 16);
    let row = [1u8, 1, 1, 1, 1, 1, 1, 1, 2, 2, 2, 2, 2, 2, 2, 2];
    assert_eq!(&data[..16], &row);
    assert_eq!(&data[16..], &row);
}

#[test]
fn only_hardware_is_accepted() {
    assert!(accept_encoder(Some(true)));
    assert!(!accept_encoder(Some(false)));
    assert!(!accept_encoder(None));
    let properties = session_properties();
    assert!(properties.real_time && !properties.allow_frame_reordering);
    assert_eq!(properties.average_bit_rate, 8_000_000);
    assert_eq!(properties.expected_frame_rate, 60);
    assert_eq!(properties.max_key_frame_interval, 120);
}

#[test]
fn undrawable_pictures_are_noticed() {
    let source = |width: usize, height: usize, stride: usize| RawFrame {
        bgra: vec![0; 16],
        width,
        height,
        stride,
        captured_at: 0,
    };
    assert!(can_copy(&source(2, 2, 2), 32, 4, 2, 16));
    assert!(!can_copy(&source(2, 2, 3), 32, 4, 2, 16));
    assert!(!can_copy(&source(2, 2, 2), 31, 4, 2, 16));
    assert!(!can_copy(&source(2, 2, 2), 30, 4, 2, 15));
    assert!(!can_copy(&source(0, 0, 2), 32, 4, 2, 16));
    assert!(can_copy(&source(0, 2, 2), 32, 4, 2, 16));
    assert!(!can_copy(&source(usize::MAX, 2, 2), 32, 4, 2, 16));
    assert!(!can_copy(&source(2, 2, usize::MAX), 32, 4, 2, 16));
}
