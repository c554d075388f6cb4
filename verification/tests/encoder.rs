use beam::capture::ffmpeg::{
    can_pack, can_place, can_scale, copy_plane, fills_frame, hardware_codecs, hardware_encoder_available, hardware_names, pack_frame,
    scaled_dimensions, set_low_latency_options, yuv_frame, Area, Dictionary, Drain, Encoder,
    OpenError, OpenStep, Pipeline, Pixel, Plane, Probe, TimingTotals, VideoFrame,
};
use beam::capture::{Codec, RawFrame, FPS};
use beam::duration::Duration;
use beam::platform::Platform;

#[test]
fn timing_totals_report_resets_the_window() {
    let mut totals = TimingTotals {
        frames: FPS as u64,
        conversion: Duration::from_millis(60),
        submit: Duration::from_millis(30),
        drain: Duration::from_millis(90),
        egress: Duration::from_millis(15),
    };
    totals.report();
    assert_eq!(totals.frames, 0);
    assert_eq!(totals.conversion, Duration::zero());
    assert_eq!(totals.egress, Duration::zero());
}

#[test]
fn timing_totals_without_a_frame_stay() {
    let mut totals = TimingTotals::default();
    totals.conversion = Duration::from_millis(4);
    assert_eq!(totals.report(), None);
    assert_eq!(totals.conversion, Duration::from_millis(4));
    totals.frames = 2;
    let window = totals.report().unwrap();
    assert_eq!((window.frames, window.conversion), (2, Duration::from_millis(4)));
    assert_eq!(totals, TimingTotals::default());
}

#[test]
fn pictures_keep_their_proportions() {
    assert_eq!(scaled_dimensions(1920, 1080, 1280, 720), (1280, 720));
    assert_eq!(scaled_dimensions(1920, 1200, 1280, 720), (1152, 720));
    assert_eq!(scaled_dimensions(1000, 500, 100, 100), (100, 50));
    assert_eq!(scaled_dimensions(1000, 1, 100, 100), (100, 2));
    assert_eq!(scaled_dimensions(1000, 530, 100, 100), (100, 52));
}

#[test]
fn planes_are_copied_row_by_row() {
    let mut target = Plane { data: vec![0; 12], stride: 4 };
    let source = Plane { data: vec![1, 2, 9, 3, 4, 9], stride: 3 };
    copy_plane(&mut target, &source, &Area { left: 1, top: 1, width: 2, height: 2 });
    assert_eq!(target.data, vec![0, 0, 0, 0, 0, 1, 2, 0, 0, 3, 4, 0]);
}

#[test]
fn captured_rows_are_packed() {
    let source = RawFrame {
        bgra: vec![1, 2, 3, 4, 9, 9, 5, 6, 7, 8],
        width: 1,
        height: 2,
        stride: 6,
        captured_at: 0,
    };
    let mut input = Plane { data: vec![0; 10], stride: 5 };
    pack_frame(&source, &mut input);
    assert_eq!(input.data, vec![1, 2, 3, 4, 0, 5, 6, 7, 8, 0]);
}

fn frame(pixel: Pixel, width: usize, height: usize, planes: Vec<(Vec<u8>, usize)>) -> VideoFrame {
    let mut list = Vec::new();
    for (data, stride) in planes {
        list.push(Plane { data, stride });
    }
    VideoFrame { pixel, width, height, planes: list }
}

#[test]
fn small_pictures_are_letterboxed() {
    let scaled = frame(
        Pixel::Yuv420p,
        2,
        2,
        vec![(vec![1, 2, 3, 4], 2), (vec![5], 1), (vec![6], 1)],
    );
    let output = frame(
        Pixel::Yuv420p,
        6,
        2,
        vec![(vec![0; 12], 6), (vec![0; 3], 3), (vec![0; 3], 3)],
    );
    let shown = yuv_frame(scaled, output);
    assert_eq!((shown.width, shown.height), (6, 2));
    assert_eq!(shown.planes[0].data, vec![16, 16, 1, 2, 16, 16, 16, 16, 3, 4, 16, 16]);
    assert_eq!(shown.planes[1].data, vec![128, 5, 128]);
    assert_eq!(shown.planes[2].data, vec![128, 6, 128]);
}

#[test]
fn interleaved_colour_is_letterboxed_in_full_width() {
    let scaled = frame(Pixel::Nv12, 2, 2, vec![(vec![1, 2, 3, 4], 2), (vec![5, 6], 2)]);
    let output = frame(Pixel::Nv12, 2, 6, vec![(vec![0; 12], 2), (vec![0; 6], 2)]);
    let shown = yuv_frame(scaled, output);
    assert_eq!(shown.planes[0].data, vec![16, 16, 16, 16, 1, 2, 3, 4, 16, 16, 16, 16]);
    assert_eq!(shown.planes[1].data, vec![128, 128, 5, 6, 128, 128]);
}

#[test]
fn fitting_pictures_are_not_touched() {
    assert!(fills_frame(2, 2, 2, 2));
    assert!(!fills_frame(2, 2, 2, 4));
    let scaled = frame(Pixel::Nv12, 2, 2, vec![(vec![1, 2, 3, 4], 2), (vec![5, 6], 2)]);
    let output = frame(Pixel::Nv12, 2, 2, vec![]);
    let shown = yuv_frame(scaled, output);
    assert_eq!(shown.planes[0].data, vec![1, 2, 3, 4]);
    assert_eq!(shown.planes[1].data, vec![5, 6]);
}

#[test]
fn hardware_encoders_depend_on_the_platform() {
    assert_eq!(hardware_names("h264", Platform::MacOs), vec!["h264_videotoolbox"]);
    assert_eq!(hardware_names("h264", Platform::Windows), vec!["h264_nvenc", "h264_amf", "h264_qsv"]);
    assert_eq!(hardware_names("hevc", Platform::Windows), vec!["hevc_nvenc", "hevc_amf", "hevc_qsv"]);
    assert_eq!(hardware_names("av1", Platform::Windows), vec!["av1_nvenc", "av1_amf", "av1_qsv"]);
    assert_eq!(hardware_names("h264", Platform::Linux), vec!["h264_nvenc", "h264_vaapi", "h264_qsv"]);
    assert!(hardware_names("h264", Platform::Other).is_empty());
}

#[test]
fn compiled_encoders_make_hardware_available() {
    let compiled = vec!["libx264".to_string(), "hevc_qsv".to_string()];
    assert!(!hardware_encoder_available("h264", Platform::Linux, &compiled));
    assert!(hardware_encoder_available("hevc", Platform::Linux, &compiled));
    let available = hardware_codecs(Platform::Linux, &compiled);
    assert!(!available.h264 && available.h265 && !available.av1);
}

fn entries(dictionary: &Dictionary) -> Vec<(&'static str, &'static str)> {
    let mut pairs = Vec::new();
    for option in &dictionary.entries {
        pairs.push((option.key, option.value));
    }
    pairs
}

fn options(name: &str) -> Vec<(&'static str, &'static str)> {
    let mut dictionary = Dictionary::new();
    set_low_latency_options(name, &mut dictionary);
    entries(&dictionary)
}

#[test]
fn options_replace_those_of_the_same_key() {
    let mut dictionary = Dictionary::new();
    dictionary.set("threads", "4");
    dictionary.set("preset", "slow");
    dictionary.set("threads", "8");
    assert_eq!(entries(&dictionary), vec![("threads", "8"), ("preset", "slow")]);
    set_low_latency_options("libx264", &mut dictionary);
    assert_eq!(
        entries(&dictionary),
        vec![("threads", "8"), ("preset", "ultrafast"), ("tune", "zerolatency")]
    );
}

#[test]
fn stride_and_padding_do_not_show() {
    let tight = RawFrame {
        bgra: vec![1, 2, 3, 4, 5, 6, 7, 8],
        width: 1,
        height: 2,
        stride: 4,
        captured_at: 0,
    };
    let padded = RawFrame {
        bgra: vec![1, 2, 3, 4, 9, 9, 9, 5, 6, 7, 8],
        width: 1,
        height: 2,
        stride: 7,
        captured_at: 0,
    };
    let mut first = Plane { data: vec![0; 10], stride: 5 };
    let mut second = Plane { data: vec![0; 10], stride: 5 };
    pack_frame(&tight, &mut first);
    pack_frame(&padded, &mut second);
    assert_eq!(first.data, second.data);
}

#[test]
fn encoders_are_set_up_for_low_latency() {
    assert_eq!(options("libx264"), vec![("preset", "ultrafast"), ("tune", "zerolatency")]);
    assert_eq!(options("libx265"), options("libx264"));
    assert_eq!(
        options("libsvtav1"),
        vec![("preset", "13"), ("svtav1-params", "la_depth=0:scd=0")]
    );
    assert_eq!(
        options("av1_nvenc"),
        vec![("preset", "p1"), ("tune", "ull"), ("rc", "cbr"), ("zerolatency", "1")]
    );
    assert_eq!(options("h264_amf"), vec![("usage", "ultralowlatency"), ("quality", "speed")]);
    assert_eq!(
        options("hevc_videotoolbox"),
        vec![("realtime", "1"), ("prio_speed", "1"), ("max_ref_frames", "1")]
    );
    assert!(options("h264_vaapi").is_empty());
}

fn open(probes: Vec<Probe>) -> OpenStep {
    Encoder::open(Codec::H264, Platform::Linux, 1280, 720, 5_000_000, &probes)
}

#[test]
fn hardware_is_tried_first() {
    match open(vec![]) {
        OpenStep::Try(settings) => {
            assert_eq!(settings.name, "h264_nvenc");
            assert!(settings.hardware);
            assert_eq!(settings.pixel, Pixel::Nv12);
            assert_eq!((settings.width, settings.height), (1280, 720));
            assert_eq!((settings.frame_rate, settings.gop), (60, 120));
            assert_eq!((settings.bit_rate, settings.max_b_frames), (5_000_000, 0));
            assert!(settings.low_delay);
            assert_eq!(settings.options.entries.len(), 4);
        }
        _ => panic!("there is an encoder to try"),
    }
    match open(vec![Probe::Opened]) {
        OpenStep::Done(encoder) => {
            assert_eq!((encoder.name, encoder.hardware), ("h264_nvenc", true));
        }
        _ => panic!("the first encoder is open"),
    }
}

#[test]
fn software_is_the_fallback() {
    let refused = || Probe::Rejected("busy".to_string());
    match open(vec![refused(), Probe::NotCompiled, refused()]) {
        OpenStep::Try(settings) => {
            assert_eq!(settings.name, "libx264");
            assert!(!settings.hardware);
            assert_eq!(settings.pixel, Pixel::Yuv420p);
        }
        _ => panic!("there is an encoder to try"),
    }
    match open(vec![refused(), Probe::NotCompiled, refused(), Probe::Opened]) {
        OpenStep::Done(encoder) => assert_eq!(encoder.pixel, Pixel::Yuv420p),
        _ => panic!("the software encoder is open"),
    }
}

#[test]
fn opening_an_encoder_can_fail() {
    let last = vec![
        Probe::NotCompiled,
        Probe::Rejected("first".to_string()),
        Probe::Rejected("second".to_string()),
        Probe::NotCompiled,
    ];
    match open(last) {
        OpenStep::Failed(OpenError::LastAttempt { name, error }) => {
            assert_eq!((name, error.as_str()), ("h264_qsv", "second"));
        }
        _ => panic!("the last attempt is reported"),
    }
    let none = vec![Probe::NotCompiled, Probe::NotCompiled, Probe::NotCompiled, Probe::NotCompiled];
    assert!(matches!(open(none), OpenStep::Failed(OpenError::NotCompiled)));
    assert!(matches!(open(vec![Probe::NoContext]), OpenStep::Failed(OpenError::NoContext)));
}

#[test]
fn packets_are_matched_to_their_frames() {
    let mut pipeline = Pipeline::new();
    pipeline.converted(Duration::from_millis(2));
    assert_eq!(pipeline.submit(1_000_000_000, 10), (0, Duration { nanos: 16_666_667 }));
    pipeline.queued(Duration::from_millis(1));
    assert_eq!(pipeline.submit(1_050_000_000, 20), (1, Duration::from_millis(50)));
    assert_eq!(pipeline.submit(1_060_000_000, 30), (2, Duration::from_millis(10)));

    let warmup = pipeline.on_packet(Some(vec![1]), Some(0), 500, Duration::from_millis(9)).unwrap();
    assert_eq!((warmup.data, warmup.duration), (vec![1], Duration::from_millis(9)));
    assert!(warmup.encode_duration.is_zero());
    let mut drain = Drain::new();
    drain.sent(Duration { nanos: 40 });
    pipeline.finish_drain(&drain, Duration { nanos: 100 });
    assert!(pipeline.primed);
    assert_eq!(pipeline.timings.drain.nanos, 60);
    assert_eq!(pipeline.timings.egress.nanos, 40);

    let late = pipeline.on_packet(Some(vec![3]), Some(2), 95, Duration::zero()).unwrap();
    assert_eq!(late.encode_duration.nanos, 65);
    assert!(pipeline.on_packet(None, Some(1), 95, Duration::zero()).is_none());
    let unknown = pipeline.on_packet(Some(vec![2]), Some(77), 95, Duration::zero()).unwrap();
    assert_eq!(unknown.encode_duration.nanos, 75);
    let extra = pipeline.on_packet(Some(vec![4]), None, 95, Duration::zero()).unwrap();
    assert!(extra.encode_duration.is_zero());
}

#[test]
fn timings_are_reported_once_a_window() {
    let mut pipeline = Pipeline::new();
    for frame in 0..FPS {
        assert_eq!(pipeline.timings.frames, frame as u64);
        pipeline.submit(frame as u128, 0);
        pipeline.queued(Duration { nanos: 2 });
        let window = pipeline.end_frame();
        assert_eq!(window.is_some(), frame == FPS - 1);
        if let Some(totals) = window {
            assert_eq!((totals.frames, totals.submit.nanos), (60, 120));
        }
    }
    assert_eq!(pipeline.timings, TimingTotals::default());
}

#[test]
fn impossible_sizes_are_noticed() {
    assert!(can_scale(1920, 1080, 1280, 720));
    assert!(!can_scale(0, 0, 1280, 720));
    assert!(!can_scale(0, 1, 0, 720));
    assert!(can_scale(0, 1, 2, 2));
    assert!(!can_scale(usize::MAX, 1, 2, 2));
}

#[test]
fn incomplete_pictures_are_noticed() {
    let source = |stride: usize, height: usize| RawFrame {
        bgra: vec![0; 10],
        width: 1,
        height,
        stride,
        captured_at: 0,
    };
    let input = Plane { data: vec![0; 9], stride: 5 };
    assert!(can_pack(&source(6, 2), &input));
    assert!(!can_pack(&source(7, 2), &input));
    assert!(!can_pack(&source(6, 3), &input));
    assert!(!can_pack(&source(usize::MAX, 3), &input));
    assert!(can_pack(&source(usize::MAX, 0), &input));
}

#[test]
fn pictures_that_stick_out_are_noticed() {
    let small = || frame(Pixel::Nv12, 2, 2, vec![(vec![1, 2, 3, 4], 2), (vec![5, 6], 2)]);
    let large = || frame(Pixel::Nv12, 2, 6, vec![(vec![0; 12], 2), (vec![0; 6], 2)]);
    assert!(can_place(&small(), &large()));
    assert!(!can_place(&large(), &small()));
    let flat = frame(Pixel::Nv12, 2, 6, vec![(vec![0; 12], 2)]);
    assert!(!can_place(&small(), &flat));
    let short = frame(Pixel::Nv12, 2, 6, vec![(vec![0; 12], 2), (vec![0; 3], 2)]);
    assert!(!can_place(&small(), &short));
}
