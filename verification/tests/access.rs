use beam::config::{admin_token, token_of, Config, PASSWORD_LENGTH};
use beam::http::{
    apply_settings, completed, get_logs, get_settings, internal, login, login_with, page_for,
    protocol, put_settings, require_admin, require_loopback, require_session, welcome, HttpResult,
    IpAddress, Protocol, SettingsUpdate, StatusCode, Welcome,
};
use beam::logs::{LogBuffer, MAX_LOG_BYTES};
use beam::sessions::{find_token, Sessions, SESSION_LIFETIME};

const HERE: IpAddress = IpAddress::V4([127, 0, 0, 1]);

fn config() -> Config {
    Config {
        password: "secret".to_string(),
        admin_token: "token".to_string(),
        persistent_sessions: false,
    }
}

#[test]
fn admin_api_accepts_only_loopback() {
    assert!(require_loopback(&IpAddress::V4([127, 0, 0, 1])).is_ok());
    assert!(require_loopback(&IpAddress::V6([0, 0, 0, 0, 0, 0, 0, 1])).is_ok());
    assert_eq!(
        require_loopback(&IpAddress::V4([192, 168, 1, 10])).unwrap_err().0,
        StatusCode::Forbidden
    );
}

#[test]
fn loopback_addresses_are_known() {
    assert!(IpAddress::V4([127, 255, 3, 4]).is_loopback());
    assert!(!IpAddress::V4([128, 0, 0, 1]).is_loopback());
    assert!(!IpAddress::V6([0; 8]).is_loopback());
    assert!(!IpAddress::V6([0, 0, 0, 0, 0, 0xffff, 0x7f00, 1]).is_loopback());
    assert!(!IpAddress::V6([1, 0, 0, 0, 0, 0, 0, 1]).is_loopback());
}

#[test]
fn statuses_have_their_numbers() {
    let statuses = [
        (StatusCode::BadRequest, 400),
        (StatusCode::Unauthorized, 401),
        (StatusCode::Forbidden, 403),
        (StatusCode::MethodNotAllowed, 405),
        (StatusCode::InternalServerError, 500),
    ];
    for (status, number) in statuses {
        assert_eq!(status.as_u16(), number);
    }
}

#[test]
fn administrators_send_the_token() {
    let config = config();
    assert!(require_admin(&config, &HERE, Some(b"Bearer token")).is_ok());
    let refused = "Browser is not authorized".to_string();
    for header in [&b"Bearer tokem"[..], b"bearer token", b"token", b"Bearer  token", b"Bearer \x80"] {
        assert_eq!(
            require_admin(&config, &HERE, Some(header)),
            Err((StatusCode::Unauthorized, refused.clone()))
        );
    }
    assert_eq!(
        require_admin(&config, &HERE, None),
        Err((StatusCode::Unauthorized, refused))
    );
    let away = IpAddress::V4([10, 0, 0, 1]);
    assert_eq!(
        require_admin(&config, &away, Some(b"Bearer token")),
        Err((
            StatusCode::Forbidden,
            "Host settings are available only on this machine".to_string()
        ))
    );
}

#[test]
fn passwords_open_sessions() {
    let config = config();
    let mut sessions = Sessions::new();
    assert_eq!(
        login(&config, &mut sessions, "secre", 5),
        Err((StatusCode::Unauthorized, "Incorrect password".to_string()))
    );
    let cookie = login(&config, &mut sessions, "secret", 5).unwrap();
    let attributes = "; Secure; HttpOnly; SameSite=Strict; Path=/; Max-Age=86400";
    assert!(cookie.starts_with("beam_session=") && cookie.ends_with(attributes));
    let pair = &cookie[..cookie.len() - attributes.len()];
    assert_eq!(pair.len(), "beam_session=".len() + 48);
    assert!(pair["beam_session=".len()..].chars().all(|c| c.is_ascii_alphanumeric()));

    let header = format!("other=1; {pair}; more=2");
    let last = 5 + SESSION_LIFETIME - 1;
    assert!(require_session(&sessions, Some(pair.as_bytes()), 5).is_ok());
    assert!(require_session(&sessions, Some(header.as_bytes()), last).is_ok());
    assert_eq!(
        require_session(&sessions, Some(pair.as_bytes()), last + 1),
        Err((StatusCode::Unauthorized, "Authentication required".to_string()))
    );
    assert!(require_session(&sessions, None, 5).is_err());
    assert!(require_session(&sessions, Some(b"beam_session=guess"), 5).is_err());
    let other = login(&config, &mut sessions, "secret", 6).unwrap();
    assert_ne!(cookie, other);
}

#[test]
fn given_tokens_open_sessions() {
    let mut sessions = Sessions::new();
    let cookie = login_with(&config(), &mut sessions, "secret", "abc".to_string(), 1).unwrap();
    assert_eq!(
        cookie,
        "beam_session=abc; Secure; HttpOnly; SameSite=Strict; Path=/; Max-Age=86400"
    );
    assert!(require_session(&sessions, Some(b"beam_session=abc"), 2).is_ok());
    assert!(login_with(&config(), &mut sessions, "other", "def".to_string(), 1).is_err());
    assert!(require_session(&sessions, Some(b"beam_session=def"), 2).is_err());
}

#[test]
fn tokens_are_found_among_cookies() {
    assert_eq!(find_token("beam_session=abc"), Some("abc".to_string()));
    assert_eq!(find_token("a=1;\t beam_session=x ;b=2"), Some("x".to_string()));
    assert_eq!(find_token("beam_session=1; beam_session=2"), Some("1".to_string()));
    assert_eq!(find_token("my_beam_session=abc"), None);
    assert_eq!(find_token("beam_session =abc"), None);
    assert_eq!(find_token("beam_session="), Some("".to_string()));
    assert_eq!(find_token(""), None);
}

#[test]
fn settings_are_shown_to_administrators() {
    let config = config();
    let address = "http://10.0.0.2:9470".to_string();
    let settings = get_settings(&config, &address, &HERE, Some(b"Bearer token")).ok().unwrap();
    assert_eq!(settings.password, "secret");
    assert_eq!(settings.address, address);
    assert!(!settings.persistent_sessions);
    assert!(get_settings(&config, &address, &HERE, None).is_err());
}

fn update(password: &str, persistent_sessions: Option<bool>) -> HttpResult<Config> {
    let input = SettingsUpdate { password: password.to_string(), persistent_sessions };
    put_settings(&config(), &HERE, Some(b"Bearer token"), input)
}

#[test]
fn short_passwords_are_refused() {
    assert_eq!(
        update("abc", None).unwrap_err(),
        (StatusCode::BadRequest, "Password must be at least 4 characters".to_string())
    );
    assert_eq!(update("abcd", None).unwrap().password, "abcd");
    assert_eq!(update("\u{e4}\u{f6}", None).unwrap().password, "\u{e4}\u{f6}");
}

#[test]
fn updates_keep_what_they_do_not_name() {
    let next = update("longer", None).unwrap();
    assert_eq!(next.admin_token, "token");
    assert!(!next.persistent_sessions);
    assert!(update("longer", Some(true)).unwrap().persistent_sessions);
    let input = SettingsUpdate { password: "longer".to_string(), persistent_sessions: None };
    assert_eq!(
        put_settings(&config(), &HERE, Some(b"Bearer no"), input).unwrap_err().0,
        StatusCode::Unauthorized
    );
}

#[test]
fn new_settings_end_all_sessions() {
    let mut config = config();
    let mut sessions = Sessions::new();
    login_with(&config, &mut sessions, "secret", "abc".to_string(), 1).unwrap();
    let next = update("longer", Some(true)).unwrap();
    assert_eq!(
        apply_settings(&mut config, &mut sessions, next.clone(), false),
        Err((StatusCode::InternalServerError, "Internal server error".to_string()))
    );
    assert_eq!(config.password, "secret");
    assert!(require_session(&sessions, Some(b"beam_session=abc"), 2).is_ok());
    assert!(apply_settings(&mut config, &mut sessions, next, true).is_ok());
    assert_eq!(config.password, "longer");
    assert!(require_session(&sessions, Some(b"beam_session=abc"), 2).is_err());
}

#[test]
fn viewers_stay_signed_in_whatever_others_do() {
    let mut config = config();
    let mut sessions = Sessions::new();
    login_with(&config, &mut sessions, "secret", "abc".to_string(), 10).unwrap();
    login_with(&config, &mut sessions, "secret", "def".to_string(), 20).unwrap();
    assert!(login_with(&config, &mut sessions, "wrong", "ghi".to_string(), 30).is_err());
    let header: Option<&[u8]> = Some(b"x=1; beam_session=abc");
    let end = 10 + SESSION_LIFETIME;
    let refused = Err((StatusCode::Unauthorized, "Authentication required".to_string()));
    assert_eq!(require_session(&sessions, header, end - 1), Ok(()));
    assert_eq!(require_session(&sessions, header, end), refused);
    assert!(require_session(&sessions, Some(b"beam_session=def"), end).is_ok());
    let next = update("longer", None).unwrap();
    apply_settings(&mut config, &mut sessions, next, true).unwrap();
    login_with(&config, &mut sessions, "longer", "jkl".to_string(), 40).unwrap();
    assert_eq!(require_session(&sessions, header, 50), refused);
}

#[test]
fn failures_are_not_explained() {
    let hidden = (StatusCode::InternalServerError, "Internal server error".to_string());
    assert_eq!(internal::<u8>(), Err(hidden.clone()));
    assert_eq!(completed(Some(7)), Ok(7));
    assert_eq!(completed::<u8>(None), Err(hidden));
}

#[test]
fn plain_requests_are_sent_on() {
    let page = match welcome("GET", Some(b"beam.local:9470"), Some("/a?b=1&c=2")) {
        Welcome::Page(page) => page,
        Welcome::Status(_) => panic!("the request is fine"),
    };
    assert!(page.starts_with("<!doctype html><meta name=\"viewport\""));
    assert!(page.contains("<a href=\"https://beam.local:9470/a?b=1&amp;c=2\">Open Beam over HTTPS</a>"));
    assert!(page.contains("body{margin:0;background:#080b10"));
    assert!(page.ends_with("</main>"));
    assert_eq!(page, page_for("beam.local:9470", Some("/a?b=1&c=2")));
    match welcome("HEAD", Some(b"[::1]"), None) {
        Welcome::Page(page) => assert!(page.contains("\"https://[::1]/\"")),
        Welcome::Status(_) => panic!("the request is fine"),
    }
}

#[test]
fn odd_plain_requests_are_refused() {
    let refused = |answer: Welcome, status: StatusCode| match answer {
        Welcome::Status(found) => assert_eq!(found, status),
        Welcome::Page(_) => panic!("the request is odd"),
    };
    refused(welcome("POST", Some(b"host"), None), StatusCode::MethodNotAllowed);
    refused(welcome("get", Some(b"host"), None), StatusCode::MethodNotAllowed);
    refused(welcome("GET", None, None), StatusCode::BadRequest);
    refused(welcome("GET", Some(b""), None), StatusCode::BadRequest);
    refused(welcome("GET", Some(b"a b"), None), StatusCode::BadRequest);
    refused(welcome("GET", Some(b"host/path"), None), StatusCode::BadRequest);
    refused(welcome("GET", Some(b"h\xc3\xb6st"), None), StatusCode::BadRequest);
}

#[test]
fn handshakes_are_told_from_requests() {
    assert_eq!(protocol(22), Protocol::Tls);
    assert_eq!(protocol(b'G'), Protocol::PlainHttp);
}

#[test]
fn tokens_are_url_safe_base64() {
    let mut bytes = [0u8; 32];
    for i in 0..32 {
        bytes[i] = i as u8;
    }
    assert_eq!(token_of(&bytes), "AAECAwQFBgcICQoLDA0ODxAREhMUFRYXGBkaGxwdHh8");
    assert_eq!(token_of(&[255; 32]), "__________________________________________8");
    let (first, second) = (admin_token(), admin_token());
    assert_eq!((first.len(), second.len()), (43, 43));
    assert_ne!(first, second);
}

#[test]
fn first_configurations_are_random() {
    let (first, second) = (Config::generate(), Config::generate());
    assert_eq!(first.password.len(), PASSWORD_LENGTH);
    assert!(first.password.chars().all(|c| c.is_ascii_alphanumeric()));
    assert_ne!(first.password, second.password);
    assert_ne!(first.admin_token, second.admin_token);
    assert!(!first.persistent_sessions);
}

#[test]
fn logs_keep_the_end() {
    let mut log = LogBuffer::new();
    assert_eq!(log.write(b"first "), 6);
    assert_eq!(log.write(b"second"), 6);
    assert_eq!(log.text(), "first second");
    log.write(&vec![b'x'; MAX_LOG_BYTES - 3]);
    assert_eq!(log.bytes.len(), MAX_LOG_BYTES);
    assert!(log.text().starts_with("ondxxx"));
    log.write(&vec![b'y'; MAX_LOG_BYTES + 1]);
    assert!(log.bytes.iter().all(|byte| *byte == b'y'));
}

#[test]
fn logs_are_shown_as_text() {
    let mut log = LogBuffer::new();
    log.write(b"caf\xc3\xa9 \xff!");
    assert_eq!(log.text(), "caf\u{e9} \u{fffd}!");
    let shown = get_logs(&config(), &log, &HERE, Some(b"Bearer token")).unwrap();
    assert_eq!(shown, log.text());
    assert!(get_logs(&config(), &log, &HERE, Some(b"Bearer x")).is_err());
}
