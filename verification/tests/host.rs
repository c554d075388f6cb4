use beam::startup::{
    launch_url, network_address, plain_service, resource_location, restart_arguments, settings_url,
    startup_mode, watcher_arguments, PlainService, ResourceLocation, StartupMode, PORT,
};
use beam::svg::plain_size;
use beam::tls::{
    alpn_protocols, certificate_names, certificate_of, certificate_source, create,
    CertificateSource,
};
use beam::tray::{icon, icon_size, menu_action, IconError, MenuAction, TrayLoop, TrayStep, ICON};

fn arguments(list: &[&str]) -> Vec<String> {
    list.iter().map(|text| text.to_string()).collect()
}

#[test]
fn arguments_choose_the_mode() {
    let modes = [
        (vec![], StartupMode::Serve),
        (vec!["--verbose"], StartupMode::Serve),
        (vec!["--beam-restart-child", "--beam-self-test-restarted"], StartupMode::ReplaceWhenFree),
        (vec!["x", "--beam-restart-child"], StartupMode::Serve),
        (vec!["--beam-self-test-restart", "--beam-self-test-restarted"], StartupMode::ReportRestarted),
        (
            vec!["--beam-self-test-watcher", "--beam-self-test-watcher-restarted"],
            StartupMode::ReportWatcherRestarted,
        ),
        (vec!["--beam-self-test-restart", "--beam-self-test-watcher"], StartupMode::StartWatcher),
        (vec!["--beam-self-test-restart"], StartupMode::Restart),
    ];
    for (list, mode) in modes {
        assert_eq!(startup_mode(&arguments(&list)), mode);
    }
}

#[test]
fn restarts_come_back() {
    let own = arguments(&["--verbose"]);
    let watcher = watcher_arguments(&own);
    assert_eq!(watcher, arguments(&["--beam-restart-child", "--verbose"]));
    assert_eq!(startup_mode(&watcher), StartupMode::ReplaceWhenFree);
    assert_eq!(startup_mode(&watcher[1..].to_vec()), StartupMode::Serve);
}

#[test]
fn trials_end() {
    let watcher = watcher_arguments(&arguments(&["--beam-self-test-watcher"]));
    assert_eq!(
        watcher,
        arguments(&[
            "--beam-restart-child",
            "--beam-self-test-watcher",
            "--beam-self-test-watcher-restarted",
        ])
    );
    assert_eq!(startup_mode(&watcher[1..].to_vec()), StartupMode::ReportWatcherRestarted);
    let restarted = restart_arguments(&arguments(&["--beam-self-test-restart"]));
    assert_eq!(
        restarted,
        arguments(&["--beam-self-test-restart", "--beam-self-test-restarted"])
    );
    assert_eq!(startup_mode(&restarted), StartupMode::ReportRestarted);
}

#[test]
fn addresses_name_the_port() {
    assert_eq!(PORT, 9470);
    assert_eq!(settings_url("t0k"), "https://127.0.0.1:9470/settings#t0k");
    assert_eq!(launch_url("t0k"), "http://127.0.0.1:9470/settings#t0k");
    assert_eq!(network_address("10.0.0.7"), "http://10.0.0.7:9470");
}

#[test]
fn setup_is_plain_until_opened() {
    assert_eq!(plain_service(false), PlainService::Setup);
    assert_eq!(plain_service(true), PlainService::Welcome);
}

#[test]
fn resources_are_found_beside_or_in_the_bundle() {
    assert_eq!(resource_location(true, true), ResourceLocation::WorkingDirectory);
    assert_eq!(resource_location(false, true), ResourceLocation::Bundle);
    assert_eq!(resource_location(false, false), ResourceLocation::WorkingDirectory);
}

#[test]
fn complete_certificates_are_reused() {
    assert_eq!(certificate_source(true, true), CertificateSource::Stored);
    assert_eq!(certificate_source(true, false), CertificateSource::Create);
    assert_eq!(certificate_source(false, true), CertificateSource::Create);
}

#[test]
fn certificates_name_this_machine() {
    assert_eq!(certificate_names(None), arguments(&["localhost", "127.0.0.1", "::1"]));
    assert_eq!(
        certificate_names(Some("192.168.0.9".to_string())),
        arguments(&["localhost", "127.0.0.1", "::1", "192.168.0.9"])
    );
}

#[test]
fn certificates_are_made_for_ascii_names() {
    let first = create(Some("192.168.0.9".to_string())).ok().unwrap();
    let second = create(None).ok().unwrap();
    assert_eq!((first.certificate[0], first.key[0]), (0x30, 0x30));
    assert_ne!(first.key, second.key);
    assert!(!second.key.is_empty());
    assert!(create(Some("h\u{f6}st".to_string())).is_err());
    assert!(certificate_of(None).is_err());
    let given = certificate_of(Some((vec![1], vec![2]))).ok().unwrap();
    assert_eq!((given.certificate, given.key), (vec![1], vec![2]));
}

fn holds(bytes: &[u8], part: &[u8]) -> bool {
    bytes.windows(part.len()).any(|window| window == part)
}

#[test]
fn certificates_list_their_names() {
    let own = create(None).ok().unwrap().certificate;
    assert!(holds(&own, b"\x82\x09localhost"));
    assert!(holds(&own, &[0x87, 4, 127, 0, 0, 1]));
    assert!(holds(&own, &[0x87, 16, 0, 0, 0, 0, 0, 0, 0, 0, 0, 0, 0, 0, 0, 0, 0, 1]));
    let known = create(Some("192.168.0.29".to_string())).ok().unwrap().certificate;
    assert!(holds(&known, &[0x87, 4, 192, 168, 0, 29]));
    assert!(!holds(&own, &[0x87, 4, 192, 168, 0, 29]));
    let named = create(Some("my-host".to_string())).ok().unwrap().certificate;
    assert!(holds(&named, b"\x82\x07my-host"));
}

#[test]
fn keys_belong_to_their_certificates() {
    let first = create(None).ok().unwrap();
    let second = create(None).ok().unwrap();
    assert_eq!(first.key.len(), 138);
    let head = b"\x30\x81\x87\x02\x01\x00\x30\x13\x06\x07\x2a\x86\x48\xce\x3d\x02\x01\x06\x08\x2a\x86\x48\xce\x3d\x03\x01\x07\x04\x6d\x30\x6b\x02\x01\x01\x04\x20";
    assert_eq!(&first.key[..36], head);
    assert_eq!(&second.key[..36], head);
    assert_eq!(&first.key[68..73], &[0xa1, 0x44, 0x03, 0x42, 0x00]);
    let point = &first.key[first.key.len() - 65..];
    assert!(holds(&first.certificate, point));
    assert!(!holds(&second.certificate, point));
}

#[test]
fn protocols_are_offered_in_order() {
    assert_eq!(alpn_protocols(), vec![b"h2".to_vec(), b"http/1.1".to_vec()]);
}

#[test]
fn menu_entries_do_what_they_say() {
    assert_eq!(menu_action(true, false), MenuAction::OpenSettings);
    assert_eq!(menu_action(false, true), MenuAction::Quit);
    assert_eq!(menu_action(false, false), MenuAction::Ignore);
}

#[test]
fn the_tray_icon_is_shown_once() {
    let mut tray = TrayLoop::new();
    assert_eq!(tray.on_event(false, false), TrayStep::Wait);
    assert_eq!(tray.on_event(false, true), TrayStep::ShowIcon);
    assert_eq!(tray.on_event(false, true), TrayStep::Wait);
    assert_eq!(tray.on_event(true, true), TrayStep::Exit);
}

fn drawing(width: &str, height: &str, rest: &str) -> Vec<u8> {
    let opening = "<svg xmlns=\"http://www.w3.org/2000/svg\" width=\"";
    format!("{opening}{width}\" height=\"{height}\">{rest}").into_bytes()
}

#[test]
fn icons_are_drawn() {
    let svg = b"<svg xmlns=\"http://www.w3.org/2000/svg\" width=\"2\" height=\"1\"><rect width=\"2\" height=\"1\" fill=\"#ff0000\"/></svg>";
    let image = icon(svg).ok().unwrap();
    assert_eq!((image.width, image.height), (2, 1));
    assert_eq!(image.rgba, vec![255, 0, 0, 255, 255, 0, 0, 255]);
    let own = icon(ICON.as_bytes()).ok().unwrap();
    assert_eq!((own.width, own.height, own.rgba.len()), (32, 32, 4096));
    let at = |x: usize, y: usize| own.rgba[4 * (32 * y + x)..4 * (32 * y + x) + 4].to_vec();
    assert_eq!(at(0, 0), vec![0, 0, 0, 0]);
    assert_eq!(at(2, 5), vec![0x1f, 0x29, 0x37, 255]);
    assert_eq!(at(6, 9), vec![0x38, 0xbd, 0xf8, 255]);
    assert_eq!(at(28, 16), vec![0xf8, 0xfa, 0xfc, 255]);
}

#[test]
fn shapes_may_reach_over_the_edge() {
    let full = vec![0, 0, 255, 255].repeat(6);
    for shape in [
        "<rect x=\"0\" y=\"0\" width=\"9999\" height=\"9999.9999\" fill=\"#0000ff\"/>",
        "<polygon points=\"0,0 9999,0 9999,9999 0,9999\" fill=\"#0000FF\"/>",
        "<path d=\"M0 0H9999V9999H0Z\" fill=\"#0000ff\"/>\n",
    ] {
        let svg = drawing("3", "2", &format!("{shape}</svg>"));
        let image = icon(&svg).ok().unwrap();
        assert_eq!((image.width, image.height), (3, 2));
        assert_eq!(image.rgba, full);
    }
}

#[test]
fn odd_shapes_are_drawn_or_left_out() {
    let shapes = [
        "",
        "x=\"1\"",
        "<rect/>",
        "<rect x=\"\" y=\"M\" width=\"1.2.3\" height=\"1,1\"/>",
        "<rect x=\"0.0001\" y=\"9999\" width=\"0.0001\" height=\"9999\"/>",
        "<rect x=\"1023\" y=\"1023\" width=\"0.001\" height=\"9999\"/>",
        "<polygon points=\"\"/><polygon points=\"1\"/><polygon points=\"1 2 3\"/>",
        "<polygon points=\"0 0 9999 0.01 0 0.02\"/>",
        "<polygon points=\"9999 0 0 9999 9999 9999 0 0 9999 1 0 1\"/>",
        "<polygon points=\"500 0 500 1000 500 0 500.001 1000\"/>",
        "<path d=\"\"/><path d=\"Z\"/><path d=\"M\"/><path d=\"L1 1\"/><path d=\"M1 1\"/>",
        "<path d=\"M1 1Z\"/><path d=\"M1 1ZL5 5 9 0\"/><path d=\"M1 1L.5.5H.V\"/>",
        "<path d=\"M0 0L9999 9999L9999 0L0 9999Z M3 3H900V900H3Z\"/>",
        "<path points=\"1 1\" x=\"3\"/><polygon d=\"M1 1L9 9\"/>",
    ];
    for side in ["1", "7", "1023", "1024"] {
        for shape in shapes {
            let svg = drawing(side, "1024", &format!("{shape}</svg>"));
            let image = icon(&svg).ok().unwrap();
            assert_eq!(image.rgba.len() as u32, 4 * image.width * 1024);
        }
    }
}

#[test]
fn bad_icons_are_refused() {
    assert!(matches!(icon(b""), Err(IconError::InvalidSvg)));
    assert!(matches!(icon(b"\xff\xfe"), Err(IconError::InvalidSvg)));
    assert!(matches!(icon(b"no picture"), Err(IconError::InvalidSvg)));
    for (width, height) in [("1025", "1"), ("1", "9999999"), ("9999999", "9999999")] {
        let huge = drawing(width, height, "<rect width=\"2\" height=\"2\"/></svg>");
        assert!(matches!(icon(&huge), Err(IconError::InvalidSize)));
    }
    for (width, height) in [("0", "5"), ("5", "00"), ("", "5"), ("10000000", "1"), ("1e3", "1")] {
        assert!(matches!(icon(&drawing(width, height, "</svg>")), Err(IconError::InvalidSvg)));
    }
    assert_eq!(icon_size(16, 24), Ok((16, 24)));
    assert_eq!(icon_size(1024, 1), Ok((1024, 1)));
    assert_eq!(icon_size(1025, 1), Err(IconError::InvalidSize));
    assert_eq!(icon_size(1, 1025), Err(IconError::InvalidSize));
    assert_eq!(icon_size(0, 1), Err(IconError::InvalidSize));
}

#[test]
fn only_plain_files_are_read() {
    let not_plain = [
        "<circle r=\"5\"/></svg>",
        "<rect width=\"10000\"/></svg>",
        "<rect width=\"1e30\"/></svg>",
        "<rect x=\"-1\"/></svg>",
        "<rect transform=\"scale(2)\"/></svg>",
        "<rect fill=\"#12345\"/></svg>",
        "<rect fill=\"#12345g\"/></svg>",
        "<rect fill=\"url(#a)\"/></svg>",
        "<rect opacity=\"1\"/></svg>",
        "<path d=\"M0 0C1 1 2 2 3 3\"/></svg>",
        "<image href=\"picture.png\"/></svg>",
        "<!-- -->",
        "<rect x=\"1",
    ];
    for rest in not_plain {
        assert_eq!(plain_size(&drawing("3", "2", rest)), None);
        assert!(matches!(icon(&drawing("3", "2", rest)), Err(IconError::InvalidSvg)));
    }
    let no_drawing = [
        "",
        "<rect",
        "<rect/>",
        "</svg></svg>",
        "<rect x=\"1\" x=\"2\"/></svg>",
        "<rect x=\"1\"y=\"2\"/></svg>",
        "<rectx=\"1\"/></svg>",
        "<rect<path/></svg>",
        "</svg><rect/>",
    ];
    for rest in no_drawing {
        assert_eq!(plain_size(&drawing("0003", "2", rest)), Some((3, 2)));
        assert!(matches!(icon(&drawing("0003", "2", rest)), Err(IconError::InvalidSvg)));
    }
    let blanks = " ".repeat(70_000);
    assert_eq!(plain_size(&drawing("3", "2", &blanks)), None);
}
