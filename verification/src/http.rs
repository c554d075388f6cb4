//! Who may do what over HTTP: signing in, the settings interface, and the page that sends a
//! browser on to HTTPS.

use axum::http::uri::Authority;
use axum::http::HeaderValue;
use subtle::ConstantTimeEq;
use vstd::prelude::*;
use vstd::string::*;
use vstd::utf8::{decode_utf8, encode_utf8, valid_utf8};

use crate::config::{
    alphanumeric, base64_url, byte_or_zero, is_alphanumeric, sextet, Config,
};
use crate::logs::{utf8_lossy, LogBuffer};
use crate::sessions::{
    admits, blank, changed, changed_by_all, law_blanks_are_skipped, law_cookie_carries_token,
    law_generated_tokens_are_plain, law_only_settings_end_sessions, law_other_cookies_are_skipped,
    not_given, session_cookie, session_token, settings_changed, SessionChange, Sessions,
    COOKIE_ATTRIBUTES, COOKIE_PREFIX, SESSION_LIFETIME, TOKEN_LENGTH,
};
use crate::text::{
    has_prefix, law_replacing_goes_by_character, lemma_encoding_injective, replace, replaced, same,
    starts_with,
};

verus! {

/// The statuses with which a request is refused.
#[derive(Clone, Copy, Debug, PartialEq, Eq, Structural)]
pub enum StatusCode {
    BadRequest,
    Unauthorized,
    Forbidden,
    MethodNotAllowed,
    InternalServerError,
}

impl StatusCode {
    pub open spec fn number(self) -> u16 {
        match self {
            StatusCode::BadRequest => 400,
            StatusCode::Unauthorized => 401,
            StatusCode::Forbidden => 403,
            StatusCode::MethodNotAllowed => 405,
            StatusCode::InternalServerError => 500,
        }
    }

    pub fn as_u16(&self) -> (number: u16)
        ensures
            number == self.number(),
    {
        match self {
            StatusCode::BadRequest => 400,
            StatusCode::Unauthorized => 401,
            StatusCode::Forbidden => 403,
            StatusCode::MethodNotAllowed => 405,
            StatusCode::InternalServerError => 500,
        }
    }
}

/// A result, or the status and the message with which the request is refused.
pub type HttpResult<T> = Result<T, (StatusCode, String)>;

/// The request is refused with this status and this message.
pub open spec fn refused<T>(result: HttpResult<T>, status: StatusCode, message: Seq<char>) -> bool {
    result matches Err(error) && error.0 == status && error.1@ == message
}

fn refuse<T>(status: StatusCode, message: &str) -> (result: HttpResult<T>)
    ensures
        refused(result, status, message@),
{
    Err((status, message.to_owned()))
}

/// The address of a peer, the second kind in groups of sixteen bits.
#[derive(Clone, Copy, Debug)]
pub enum IpAddress {
    V4([u8; 4]),
    V6([u16; 8]),
}

impl IpAddress {
    /// An address of this machine: 127.0.0.0/8 or ::1.
    pub open spec fn loopback(self) -> bool {
        match self {
            IpAddress::V4(octets) => octets@[0] == 127,
            IpAddress::V6(groups) => groups@ == seq![0u16, 0, 0, 0, 0, 0, 0, 1],
        }
    }

    pub fn is_loopback(&self) -> (yes: bool)
        ensures
            yes == self.loopback(),
    {
        match self {
            IpAddress::V4(octets) => octets[0] == 127,
            IpAddress::V6(groups) => {
                let yes: bool = groups[0] == 0 && groups[1] == 0 && groups[2] == 0 && groups[3]
                    == 0 && groups[4] == 0 && groups[5] == 0 && groups[6] == 0 && groups[7] == 1;
                proof {
                    let one = seq![0u16, 0, 0, 0, 0, 0, 0, 1];
                    if yes {
                        assert(groups@ =~= one);
                    } else if groups@ == one {
                        assert(one[0] == 0 && one[7] == 1);
                    }
                }
                yes
            },
        }
    }
}

/// A byte that a header's text may hold.
pub open spec fn is_visible(byte: u8) -> bool {
    32 <= byte < 127 || byte == 9
}

/// The text of a header value, or none where it holds anything but visible ASCII, spaces and
/// tabs.
pub open spec fn header_chars(bytes: Seq<u8>) -> Option<Seq<char>> {
    if forall|i: int| 0 <= i < bytes.len() ==> is_visible(#[trigger] bytes[i]) {
        Some(Seq::new(bytes.len(), |i: int| bytes[i] as char))
    } else {
        None
    }
}

/// `axum::http::HeaderValue::from_bytes` followed by `to_str`: text comes out, one character for
/// each byte, exactly where every byte is visible ASCII, a space or a tab.
#[verifier::external_body]
fn header_text(bytes: &[u8]) -> (text: Option<String>)
    ensures
        match text {
            Some(text) => header_chars(bytes@) == Some(text@),
            None => header_chars(bytes@) is None,
        },
{
    let value = HeaderValue::from_bytes(bytes).ok()?;
    value.to_str().ok().map(String::from)
}

/// `subtle::ConstantTimeEq::ct_eq` on byte slices: whether they are equal, in a time that does
/// not depend on where they differ. Of the time nothing is stated.
#[verifier::external_body]
fn constant_time_eq(a: &[u8], b: &[u8]) -> (equal: bool)
    ensures
        equal == (a@ == b@),
{
    a.ct_eq(b).into()
}

/// Whether two secrets are the same.
fn same_secret(a: &str, b: &str) -> (equal: bool)
    ensures
        equal == (a@ == b@),
{
    proof {
        lemma_encoding_injective(a@, b@);
    }
    constant_time_eq(a.as_bytes(), b.as_bytes())
}

/// Turns away everyone who is not on this machine.
pub fn require_loopback(address: &IpAddress) -> (result: HttpResult<()>)
    ensures
        result is Ok <==> address.loopback(),
        !address.loopback() ==> refused(
            result,
            StatusCode::Forbidden,
            "Host settings are available only on this machine"@,
        ),
{
    if address.is_loopback() {
        Ok(())
    } else {
        refuse(StatusCode::Forbidden, "Host settings are available only on this machine")
    }
}

/// The token of an authorization header; empty where there is none.
pub open spec fn bearer_token(authorization: Option<Seq<u8>>) -> Seq<char> {
    match authorization {
        Some(bytes) => match header_chars(bytes) {
            Some(text) => if has_prefix(text, "Bearer "@) {
                text.skip(7)
            } else {
                Seq::empty()
            },
            None => Seq::empty(),
        },
        None => Seq::empty(),
    }
}

/// The bytes of an optional header.
pub open spec fn header_bytes(header: Option<&[u8]>) -> Option<Seq<u8>> {
    match header {
        Some(bytes) => Some(bytes@),
        None => None,
    }
}

/// The request comes from this machine and carries the token of the settings.
pub open spec fn is_admin(
    admin_token: Seq<char>,
    address: IpAddress,
    authorization: Option<Seq<u8>>,
) -> bool {
    address.loopback() && bearer_token(authorization) == admin_token
}

/// How the settings interface turns away a request that is not the administrator's.
pub open spec fn turned_away<T>(result: HttpResult<T>, address: IpAddress) -> bool {
    if address.loopback() {
        refused(result, StatusCode::Unauthorized, "Browser is not authorized"@)
    } else {
        refused(
            result,
            StatusCode::Forbidden,
            "Host settings are available only on this machine"@,
        )
    }
}

/// Turns away everyone but the administrator.
pub fn require_admin(config: &Config, address: &IpAddress, authorization: Option<&[u8]>) -> (result:
    HttpResult<()>)
    ensures
        result is Ok <==> is_admin(config.admin_token@, *address, header_bytes(authorization)),
        result is Err ==> turned_away(result, *address),
{
    if let Err(error) = require_loopback(address) {
        return Err(error);
    }
    let text: Option<String> = match authorization {
        Some(bytes) => header_text(bytes),
        None => None,
    };
    let mut token: String = String::new();
    if let Some(text) = text {
        if starts_with(text.as_str(), "Bearer ") {
            proof {
                reveal_strlit("Bearer ");
            }
            let length: usize = text.as_str().unicode_len();
            token = text.as_str().substring_char(7, length).to_owned();
            assert(token@ =~= text@.skip(7));
        }
    }
    if same_secret(token.as_str(), config.admin_token.as_str()) {
        Ok(())
    } else {
        refuse(StatusCode::Unauthorized, "Browser is not authorized")
    }
}

/// How the failure of something inside is reported.
pub fn internal<T>() -> (result: HttpResult<T>)
    ensures
        refused(result, StatusCode::InternalServerError, "Internal server error"@),
{
    refuse(StatusCode::InternalServerError, "Internal server error")
}

/// The answer to a request that was carried out, or failed on the way.
pub fn completed<T>(outcome: Option<T>) -> (result: HttpResult<T>)
    ensures
        match outcome {
            Some(value) => result == HttpResult::<T>::Ok(value),
            None => refused(result, StatusCode::InternalServerError, "Internal server error"@),
        },
{
    match outcome {
        Some(value) => Ok(value),
        None => internal(),
    }
}

/// How long after the answer Beam shuts down when it is told to, in milliseconds.
pub const SHUTDOWN_DELAY_MILLIS: u64 = 100;

/// How long the answer to a wrong password is held back, in milliseconds.
pub const LOGIN_DELAY_MILLIS: u64 = 250;

/// Signs a viewer in who knows the password, under a token that is already drawn.
pub fn login_with(
    config: &Config,
    sessions: &mut Sessions,
    password: &str,
    token: String,
    now: u128,
) -> (result: HttpResult<String>)
    requires
        now + SESSION_LIFETIME <= u128::MAX,
    ensures
        match result {
            Ok(cookie) => {
                &&& password@ == config.password@
                &&& cookie@ == session_cookie(token@) + COOKIE_ATTRIBUTES@
                &&& final(sessions).expiries@ == changed(
                    old(sessions).expiries@,
                    SessionChange::SignIn { token: token@, at: now },
                )
            },
            Err(_) => {
                &&& password@ != config.password@
                &&& refused(result, StatusCode::Unauthorized, "Incorrect password"@)
                &&& final(sessions).expiries@ == old(sessions).expiries@
            },
        },
{
    if !same_secret(password, config.password.as_str()) {
        return refuse(StatusCode::Unauthorized, "Incorrect password");
    }
    Ok(sessions.open_with(token, now))
}

/// Signs a viewer in who knows the password: returns the header value that sets the cookie.
pub fn login(config: &Config, sessions: &mut Sessions, password: &str, now: u128) -> (result:
    HttpResult<String>)
    requires
        now + SESSION_LIFETIME <= u128::MAX,
    ensures
        match result {
            Ok(cookie) => {
                &&& password@ == config.password@
                &&& exists|token: Seq<char>|
                    {
                        &&& token.len() == TOKEN_LENGTH
                        &&& alphanumeric(token)
                        &&& final(sessions).expiries@ == changed(
                            old(sessions).expiries@,
                            SessionChange::SignIn { token, at: now },
                        )
                        &&& cookie@ == #[trigger] session_cookie(token) + COOKIE_ATTRIBUTES@
                    }
            },
            Err(_) => {
                &&& password@ != config.password@
                &&& refused(result, StatusCode::Unauthorized, "Incorrect password"@)
                &&& final(sessions).expiries@ == old(sessions).expiries@
            },
        },
{
    if !same_secret(password, config.password.as_str()) {
        return refuse(StatusCode::Unauthorized, "Incorrect password");
    }
    Ok(sessions.open(now))
}

/// The text of an optional header.
pub open spec fn optional_text(header: Option<Seq<u8>>) -> Option<Seq<char>> {
    match header {
        Some(bytes) => header_chars(bytes),
        None => None,
    }
}

/// Turns away everyone who is not signed in at `now`.
pub fn require_session(sessions: &Sessions, cookies: Option<&[u8]>, now: u128) -> (result:
    HttpResult<()>)
    ensures
        result is Ok <==> admits(sessions.expiries@, optional_text(header_bytes(cookies)), now),
        result is Err ==> refused(result, StatusCode::Unauthorized, "Authentication required"@),
{
    let text: Option<String> = match cookies {
        Some(bytes) => header_text(bytes),
        None => None,
    };
    let signed_in: bool = match &text {
        Some(text) => sessions.is_signed_in(Some(text.as_str()), now),
        None => false,
    };
    if signed_in {
        Ok(())
    } else {
        refuse(StatusCode::Unauthorized, "Authentication required")
    }
}

/// What the settings page shows.
pub struct Settings {
    pub password: String,
    pub address: String,
    pub persistent_sessions: bool,
}

/// The settings, for the administrator.
pub fn get_settings(
    config: &Config,
    network_address: &String,
    address: &IpAddress,
    authorization: Option<&[u8]>,
) -> (result: HttpResult<Settings>)
    ensures
        match result {
            Ok(settings) => {
                &&& is_admin(config.admin_token@, *address, header_bytes(authorization))
                &&& settings.password@ == config.password@
                &&& settings.address@ == network_address@
                &&& settings.persistent_sessions == config.persistent_sessions
            },
            Err(_) => {
                &&& !is_admin(config.admin_token@, *address, header_bytes(authorization))
                &&& turned_away(result, *address)
            },
        },
{
    if let Err(error) = require_admin(config, address, authorization) {
        return Err(error);
    }
    Ok(
        Settings {
            password: config.password.clone(),
            address: network_address.clone(),
            persistent_sessions: config.persistent_sessions,
        },
    )
}

/// The end of the log, for the administrator.
pub fn get_logs(
    config: &Config,
    logs: &LogBuffer,
    address: &IpAddress,
    authorization: Option<&[u8]>,
) -> (result: HttpResult<String>)
    ensures
        match result {
            Ok(text) => {
                &&& is_admin(config.admin_token@, *address, header_bytes(authorization))
                &&& text@ == utf8_lossy(logs.bytes@)
                &&& valid_utf8(logs.bytes@) ==> text@ == decode_utf8(logs.bytes@)
            },
            Err(_) => {
                &&& !is_admin(config.admin_token@, *address, header_bytes(authorization))
                &&& turned_away(result, *address)
            },
        },
{
    if let Err(error) = require_admin(config, address, authorization) {
        return Err(error);
    }
    Ok(logs.text())
}

/// The least number of bytes that a password is encoded in.
pub const MIN_PASSWORD_BYTES: usize = 4;

/// A change that the administrator asks for.
pub struct SettingsUpdate {
    pub password: String,
    pub persistent_sessions: Option<bool>,
}

/// The configuration that a change leads to, for the administrator. It takes effect with
/// `apply_settings`, once it has been stored.
pub fn put_settings(
    config: &Config,
    address: &IpAddress,
    authorization: Option<&[u8]>,
    input: SettingsUpdate,
) -> (result: HttpResult<Config>)
    ensures
        if !is_admin(config.admin_token@, *address, header_bytes(authorization)) {
            turned_away(result, *address)
        } else if encode_utf8(input.password@).len() < MIN_PASSWORD_BYTES {
            refused(result, StatusCode::BadRequest, "Password must be at least 4 characters"@)
        } else {
            &&& result matches Ok(next)
            &&& next.password@ == input.password@
            &&& next.admin_token@ == config.admin_token@
            &&& next.persistent_sessions == match input.persistent_sessions {
                Some(persistent) => persistent,
                None => config.persistent_sessions,
            }
        },
{
    if let Err(error) = require_admin(config, address, authorization) {
        return Err(error);
    }
    if input.password.as_str().as_bytes().len() < MIN_PASSWORD_BYTES {
        return refuse(StatusCode::BadRequest, "Password must be at least 4 characters");
    }
    Ok(
        Config {
            password: input.password,
            admin_token: config.admin_token.clone(),
            persistent_sessions: match input.persistent_sessions {
                Some(persistent) => persistent,
                None => config.persistent_sessions,
            },
        },
    )
}

/// Puts a new configuration into effect where it could be stored, and ends every session. Where
/// it could not, nothing changes.
pub fn apply_settings(config: &mut Config, sessions: &mut Sessions, next: Config, stored: bool) -> (
    result: HttpResult<()>)
    ensures
        if stored {
            &&& result is Ok
            &&& *final(config) == next
            &&& final(sessions).expiries@ == changed(
                old(sessions).expiries@,
                SessionChange::Settings,
            )
        } else {
            &&& refused(result, StatusCode::InternalServerError, "Internal server error"@)
            &&& *final(config) == *old(config)
            &&& final(sessions).expiries@ == old(sessions).expiries@
        },
{
    if !stored {
        return internal();
    }
    *config = next;
    sessions.clear();
    Ok(())
}

/// From any other machine nobody is the administrator, whatever token they send.
pub proof fn law_settings_are_local(
    admin_token: Seq<char>,
    address: IpAddress,
    authorization: Option<Seq<u8>>,
)
    requires
        !address.loopback(),
    ensures
        !is_admin(admin_token, address, authorization),
{
}

/// Characters that a header can carry as they are.
pub open spec fn visible(text: Seq<char>) -> bool {
    forall|i: int| 0 <= i < text.len() ==> 32 <= #[trigger] text[i] < 127
}

/// The header value that carries a text of visible characters.
pub open spec fn header_of(text: Seq<char>) -> Seq<u8> {
    Seq::new(text.len(), |i: int| text[i] as u8)
}

/// A text of visible characters comes out of the header that carries it.
pub proof fn law_header_carries_text(text: Seq<char>)
    requires
        visible(text),
    ensures
        header_chars(header_of(text)) == Some(text),
{
    let bytes = header_of(text);
    assert forall|i: int| 0 <= i < bytes.len() implies is_visible(#[trigger] bytes[i]) && (
    bytes[i] as char) == text[i] by {
        assert(32 <= text[i] < 127);
    }
    assert(Seq::new(bytes.len(), |i: int| bytes[i] as char) =~= text);
}

/// Whoever on this machine sends the token of the settings is the administrator, and whoever
/// sends another is not.
pub proof fn law_the_token_decides(admin_token: Seq<char>, token: Seq<char>, address: IpAddress)
    requires
        address.loopback(),
        visible(token),
    ensures
        is_admin(admin_token, address, Some(header_of("Bearer "@ + token))) <==> token
            == admin_token,
{
    reveal_strlit("Bearer ");
    let text = "Bearer "@ + token;
    assert forall|i: int| 0 <= i < text.len() implies 32 <= #[trigger] text[i] < 127 by {
        if i >= 7 {
            assert(text[i] == token[i - 7]);
        }
    }
    law_header_carries_text(text);
    assert(text.take(7) =~= "Bearer "@);
    assert(text.skip(7) =~= token);
}

/// A viewer who signed in at `opened` and was given `token` is let in by the cookie that carries
/// it for exactly as long as the session lasts.
pub proof fn law_login_opens_a_session(
    expiries: Map<Seq<char>, u128>,
    token: Seq<char>,
    opened: u128,
    now: u128,
)
    requires
        alphanumeric(token),
        token.len() == TOKEN_LENGTH,
        opened + SESSION_LIFETIME <= u128::MAX,
    ensures
        admits(
            expiries.insert(token, (opened + SESSION_LIFETIME) as u128),
            optional_text(Some(header_of(session_cookie(token)))),
            now,
        ) <==> now < opened + SESSION_LIFETIME,
{
    reveal_strlit("beam_session=");
    let cookie = session_cookie(token);
    assert forall|i: int| 0 <= i < cookie.len() implies 32 <= #[trigger] cookie[i] < 127 by {
        if i >= COOKIE_PREFIX@.len() {
            assert(cookie[i] == token[i - COOKIE_PREFIX@.len()]);
            assert(is_alphanumeric(token[i - COOKIE_PREFIX@.len()]));
        }
    }
    law_header_carries_text(cookie);
    law_generated_tokens_are_plain(token);
    law_cookie_carries_token(token, Seq::empty());
}

proof fn lemma_visible_together(a: Seq<char>, b: Seq<char>)
    requires
        visible(a),
        visible(b),
    ensures
        visible(a + b),
{
    let text = a + b;
    assert forall|i: int| 0 <= i < text.len() implies 32 <= #[trigger] text[i] < 127 by {
        if i < a.len() {
            assert(text[i] == a[i]);
        } else {
            assert(text[i] == b[i - a.len()]);
        }
    }
}

/// A viewer who signed in at `opened` and was given `token` is let in by the cookie that carries
/// it, sent alone or among others, until the session has lasted its time or new settings have
/// been put into effect, whatever else happened since. A token that is given again lasts anew.
pub proof fn law_viewers_stay_signed_in(
    expiries: Map<Seq<char>, u128>,
    token: Seq<char>,
    opened: u128,
    changes: Seq<SessionChange>,
    now: u128,
    ahead: Seq<char>,
    gap: Seq<char>,
    behind: Seq<char>,
)
    requires
        alphanumeric(token),
        token.len() == TOKEN_LENGTH,
        opened + SESSION_LIFETIME <= u128::MAX,
        not_given(changes, token),
        session_token(ahead) is None,
        blank(gap),
        visible(ahead) && visible(gap) && visible(behind),
    ensures
        ({
            let signed_in = changed(expiries, SessionChange::SignIn { token, at: opened });
            let after = changed_by_all(signed_in, changes);
            let valid = now < opened + SESSION_LIFETIME && !settings_changed(changes);
            let cookie = session_cookie(token);
            &&& admits(after, optional_text(Some(header_of(cookie))), now) == valid
            &&& admits(
                after,
                optional_text(Some(header_of(cookie + seq![';'] + behind))),
                now,
            ) == valid
            &&& admits(
                after,
                optional_text(Some(header_of(ahead + seq![';'] + (gap + cookie)))),
                now,
            ) == valid
            &&& admits(
                after,
                optional_text(
                    Some(header_of(ahead + seq![';'] + (gap + cookie + seq![';'] + behind))),
                ),
                now,
            ) == valid
        }),
{
    reveal_strlit("beam_session=");
    let cookie = session_cookie(token);
    let signed_in = changed(expiries, SessionChange::SignIn { token, at: opened });
    law_only_settings_end_sessions(signed_in, changes, token);
    assert(visible(token)) by {
        assert forall|i: int| 0 <= i < token.len() implies 32 <= #[trigger] token[i] < 127 by {
            assert(is_alphanumeric(token[i]));
        }
    }
    lemma_visible_together(COOKIE_PREFIX@, token);
    lemma_visible_together(cookie, seq![';']);
    lemma_visible_together(cookie + seq![';'], behind);
    lemma_visible_together(gap, cookie);
    lemma_visible_together(gap + cookie, seq![';']);
    lemma_visible_together(gap + cookie + seq![';'], behind);
    lemma_visible_together(ahead, seq![';']);
    lemma_visible_together(ahead + seq![';'], gap + cookie);
    lemma_visible_together(ahead + seq![';'], gap + cookie + seq![';'] + behind);
    law_header_carries_text(cookie);
    law_header_carries_text(cookie + seq![';'] + behind);
    law_header_carries_text(ahead + seq![';'] + (gap + cookie));
    law_header_carries_text(ahead + seq![';'] + (gap + cookie + seq![';'] + behind));
    law_generated_tokens_are_plain(token);
    law_cookie_carries_token(token, behind);
    law_blanks_are_skipped(gap, token, behind);
    law_other_cookies_are_skipped(ahead, gap + cookie);
    law_other_cookies_are_skipped(ahead, gap + cookie + seq![';'] + behind);
}

/// What a login answers with can be sent as a header.
pub proof fn law_login_cookies_fit_in_headers(token: Seq<char>)
    requires
        alphanumeric(token),
    ensures
        visible(session_cookie(token) + COOKIE_ATTRIBUTES@),
{
    reveal_strlit("beam_session=");
    reveal_strlit("; Secure; HttpOnly; SameSite=Strict; Path=/; Max-Age=86400");
    let cookie = session_cookie(token);
    let text = cookie + COOKIE_ATTRIBUTES@;
    assert forall|i: int| 0 <= i < text.len() implies 32 <= #[trigger] text[i] < 127 by {
        if i < COOKIE_PREFIX@.len() {
            assert(text[i] == COOKIE_PREFIX@[i]);
        } else if i < cookie.len() {
            assert(text[i] == token[i - COOKIE_PREFIX@.len()]);
            assert(is_alphanumeric(token[i - COOKIE_PREFIX@.len()]));
        } else {
            assert(text[i] == COOKIE_ATTRIBUTES@[i - cookie.len()]);
        }
    }
}

proof fn lemma_sextet_bound(bytes: Seq<u8>, index: int)
    requires
        index >= 0,
    ensures
        0 <= sextet(bytes, index) < 64,
{
    let at = index / 4 * 3;
    assert(0 <= byte_or_zero(bytes, at) < 256);
    assert(0 <= byte_or_zero(bytes, at + 1) < 256);
    assert(0 <= byte_or_zero(bytes, at + 2) < 256);
}

/// The tokens that are generated for the settings can be sent in a header.
pub proof fn law_generated_tokens_fit_in_headers(bytes: Seq<u8>)
    ensures
        visible(base64_url(bytes)),
{
    let token = base64_url(bytes);
    assert forall|i: int| 0 <= i < token.len() implies 32 <= #[trigger] token[i] < 127 by {
        lemma_sextet_bound(bytes, i);
    }
}

/// The text is the authority part of a URI: a host, with a port or user information.
pub uninterp spec fn is_authority(text: Seq<char>) -> bool;

/// `axum::http::uri::Authority` parsed from a string and written out again: a string that is an
/// authority comes out as it was, any other is refused. An empty one is none.
#[verifier::external_body]
fn parse_authority(text: &str) -> (authority: Option<String>)
    ensures
        authority is Some == is_authority(text@),
        authority matches Some(host) ==> host@ == text@ && host@.len() > 0,
{
    text.parse::<Authority>().ok().map(|authority| authority.as_str().to_owned())
}

/// The page up to the address it links to.
pub const PAGE_HEAD: &'static str =
    "<!doctype html><meta name=\"viewport\" content=\"width=device-width\"><title>Beam</title><style>body{margin:0;background:#080b10;color:#eef2ff;font:16px system-ui;display:grid;place-items:center;min-height:100vh}main{max-width:32rem;padding:2rem}a{display:inline-block;margin-top:1rem;padding:.8rem 1rem;border-radius:.7rem;background:#67e8f9;color:#082f49;text-decoration:none;font-weight:700}</style><main><h1>Continue securely</h1><p>Beam uses a self-signed certificate, so your browser will show a warning the first time.</p><a href=\"";

/// The page behind the address it links to.
pub const PAGE_TAIL: &'static str =
    "\">Open Beam over HTTPS</a></main>";

/// The kind of content of the page.
pub const PAGE_CONTENT_TYPE: &'static str = "text/html; charset=utf-8";

/// How the page may be cached.
pub const PAGE_CACHE_CONTROL: &'static str = "no-store";

/// What the page may load and where its forms may lead.
pub const PAGE_SECURITY_POLICY: &'static str =
    "default-src 'none'; style-src 'unsafe-inline'; base-uri 'none'; form-action https:";

/// How a plain HTTP request is answered.
pub enum Welcome {
    /// With a status alone.
    Status(StatusCode),
    /// With the page.
    Page(String),
}

/// The page that sends the browser on to the same address over HTTPS.
pub open spec fn welcome_page(host: Seq<char>, path: Option<Seq<char>>) -> Seq<char> {
    PAGE_HEAD@ + replaced(
        "https://"@ + host + match path {
            Some(path) => path,
            None => "/"@,
        },
        '&',
        "&amp;"@,
    ) + PAGE_TAIL@
}

/// Builds the page for a host that has been found valid.
pub fn page_for(host: &str, path: Option<&str>) -> (page: String)
    ensures
        page@ == welcome_page(
            host@,
            match path {
                Some(path) => Some(path@),
                None => None,
            },
        ),
{
    let mut target: String = "https://".to_owned();
    target.append(host);
    match path {
        Some(path) => target.append(path),
        None => target.append("/"),
    }
    let mut page: String = PAGE_HEAD.to_owned();
    page.append(replace(target.as_str(), '&', "&amp;").as_str());
    page.append(PAGE_TAIL);
    page
}

/// Answers a plain HTTP request for `path` and query: it is sent on to the host that it names.
pub fn welcome(method: &str, host: Option<&[u8]>, path: Option<&str>) -> (answer: Welcome)
    ensures
        match optional_text(header_bytes(host)) {
            _ if method@ != "GET"@ && method@ != "HEAD"@ => answer == Welcome::Status(
                StatusCode::MethodNotAllowed,
            ),
            Some(text) if is_authority(text) => answer matches Welcome::Page(page) && page@
                == welcome_page(
                text,
                match path {
                    Some(path) => Some(path@),
                    None => None,
                },
            ),
            _ => answer == Welcome::Status(StatusCode::BadRequest),
        },
{
    if !same(method, "GET") && !same(method, "HEAD") {
        return Welcome::Status(StatusCode::MethodNotAllowed);
    }
    let text: String = match host {
        Some(bytes) => match header_text(bytes) {
            Some(text) => text,
            None => return Welcome::Status(StatusCode::BadRequest),
        },
        None => return Welcome::Status(StatusCode::BadRequest),
    };
    match parse_authority(text.as_str()) {
        Some(host) => Welcome::Page(page_for(host.as_str(), path)),
        None => Welcome::Status(StatusCode::BadRequest),
    }
}

/// What the first byte of a connection announces.
#[derive(Clone, Copy, Debug, PartialEq, Eq, Structural)]
pub enum Protocol {
    Tls,
    PlainHttp,
}

/// The type of a TLS record that opens a handshake.
pub const TLS_HANDSHAKE: u8 = 22;

/// How long the first byte may take, in seconds.
pub const FIRST_BYTE_TIMEOUT_SECONDS: u64 = 5;

/// How long a TLS handshake may take, in seconds.
pub const HANDSHAKE_TIMEOUT_SECONDS: u64 = 10;

/// Which protocol a connection speaks, by its first byte.
pub fn protocol(first: u8) -> (protocol: Protocol)
    ensures
        protocol == if first == TLS_HANDSHAKE {
            Protocol::Tls
        } else {
            Protocol::PlainHttp
        },
{
    if first == TLS_HANDSHAKE {
        Protocol::Tls
    } else {
        Protocol::PlainHttp
    }
}

/// The statuses by the numbers under which browsers know them.
pub proof fn law_statuses_have_their_numbers()
    ensures
        StatusCode::BadRequest.number() == 400,
        StatusCode::Unauthorized.number() == 401,
        StatusCode::Forbidden.number() == 403,
        StatusCode::MethodNotAllowed.number() == 405,
        StatusCode::InternalServerError.number() == 500,
{
}

/// This machine is known by an address that begins with 127, or by `::1`, and by no other.
pub proof fn law_this_machine_is_known(octets: [u8; 4], groups: [u16; 8])
    ensures
        IpAddress::V4(octets).loopback() <==> octets@[0] == 127,
        IpAddress::V6(groups).loopback() <==> groups@[7] == 1 && forall|i: int|
            0 <= i < 7 ==> #[trigger] groups@[i] == 0,
{
    let one = seq![0u16, 0, 0, 0, 0, 0, 0, 1];
    if groups@[7] == 1 && forall|i: int| 0 <= i < 7 ==> #[trigger] groups@[i] == 0 {
        assert(groups@ =~= one);
    }
    if groups@ == one {
        assert(one[7] == 1);
        assert forall|i: int| 0 <= i < 7 implies #[trigger] groups@[i] == 0 by {
            assert(one[i] == 0);
        }
    }
}

/// Who is turned away learns why: other machines that the settings are not for them, whoever on
/// this machine does not have the token that it is missing.
pub proof fn law_the_refusal_says_why<T>(result: HttpResult<T>, address: IpAddress)
    requires
        turned_away(result, address),
    ensures
        match result {
            Ok(_) => false,
            Err((status, message)) => if address.loopback() {
                status.number() == 401 && message@ == "Browser is not authorized"@
            } else {
                status.number() == 403 && message@
                    == "Host settings are available only on this machine"@
            },
        },
{
}

/// A header that is missing, holds other than visible characters or does not begin with `Bearer `
/// carries no token.
pub proof fn law_other_headers_carry_no_token(
    admin_token: Seq<char>,
    address: IpAddress,
    header: Seq<u8>,
)
    requires
        admin_token.len() > 0,
        header_chars(header) is None || !has_prefix(header_chars(header)->0, "Bearer "@),
    ensures
        !is_admin(admin_token, address, None),
        !is_admin(admin_token, address, Some(header)),
{
}

/// A byte that is not visible spoils the header that holds it.
pub proof fn law_headers_are_visible(bytes: Seq<u8>, i: int)
    requires
        0 <= i < bytes.len(),
        bytes[i] < 32 && bytes[i] != 9 || bytes[i] >= 127,
    ensures
        header_chars(bytes) is None,
{
    assert(!is_visible(bytes[i]));
}

/// The page links to the address that was asked for, over HTTPS: the host as it was named and the
/// path behind it, or the root where there is none.
pub proof fn law_the_page_links_to_the_same_address(host: Seq<char>, path: Seq<char>)
    requires
        !host.contains('&'),
        !path.contains('&'),
    ensures
        welcome_page(host, Some(path)) == PAGE_HEAD@ + ("https://"@ + host + path) + PAGE_TAIL@,
        welcome_page(host, None) == welcome_page(host, Some("/"@)),
{
    let target = "https://"@ + host + path;
    reveal_strlit("https://");
    assert forall|i: int| 0 <= i < target.len() implies #[trigger] target[i] != '&' by {
        if 8 <= i < 8 + host.len() {
            assert(host.contains(host[i - 8]));
            assert(target[i] == host[i - 8]);
        } else if i >= 8 {
            assert(path.contains(path[i - 8 - host.len()]));
            assert(target[i] == path[i - 8 - host.len()]);
        }
    }
    lemma_nothing_to_replace(target, '&', "&amp;"@);
}

/// A text without the character that is looked for stays as it is.
proof fn lemma_nothing_to_replace(text: Seq<char>, from: char, to: Seq<char>)
    requires
        forall|i: int| 0 <= i < text.len() ==> #[trigger] text[i] != from,
    ensures
        replaced(text, from, to) == text,
    decreases text.len(),
{
    if text.len() > 0 {
        let before = text.drop_last();
        assert forall|i: int| 0 <= i < before.len() implies #[trigger] before[i] != from by {
            assert(before[i] == text[i]);
        }
        lemma_nothing_to_replace(before, from, to);
        assert(text[text.len() - 1] != from);
        assert(replaced(text, from, to) =~= text);
    }
}

/// In the link, which stands in a page, every ampersand is written out.
pub proof fn law_links_are_written_out(host: Seq<char>, ahead: Seq<char>, behind: Seq<char>)
    requires
        !host.contains('&'),
        !ahead.contains('&'),
        !behind.contains('&'),
    ensures
        welcome_page(host, Some(ahead + seq!['&'] + behind)) == PAGE_HEAD@ + ("https://"@ + host
            + ahead + "&amp;"@ + behind) + PAGE_TAIL@,
{
    reveal_strlit("https://");
    let (from, to) = ('&', "&amp;"@);
    let front = "https://"@ + host + ahead;
    assert forall|i: int| 0 <= i < front.len() implies #[trigger] front[i] != '&' by {
        if 8 <= i < 8 + host.len() {
            assert(host.contains(host[i - 8]));
            assert(front[i] == host[i - 8]);
        } else if i >= 8 {
            assert(ahead.contains(ahead[i - 8 - host.len()]));
            assert(front[i] == ahead[i - 8 - host.len()]);
        }
    }
    assert forall|i: int| 0 <= i < behind.len() implies #[trigger] behind[i] != '&' by {
        assert(behind.contains(behind[i]));
    }
    lemma_nothing_to_replace(front, from, to);
    lemma_nothing_to_replace(behind, from, to);
    law_replacing_goes_by_character(front, seq!['&'], '&', from, to);
    law_replacing_goes_by_character(front + seq!['&'], behind, '&', from, to);
    assert("https://"@ + host + (ahead + seq!['&'] + behind) =~= front + seq!['&'] + behind);
    assert(front + to + behind =~= "https://"@ + host + ahead + "&amp;"@ + behind);
}

/// A refusal is an error with its status and its message, and with no other.
pub proof fn law_refusals_are_errors<T>(result: HttpResult<T>, status: StatusCode, message: Seq<char>)
    requires
        refused(result, status, message),
    ensures
        result is Err,
        result->Err_0.0 == status,
        result->Err_0.1@ == message,
{
}

/// A header is read as a whole, byte by byte; one that is missing has no text.
pub proof fn law_headers_are_read_whole(bytes: &[u8], i: int)
    ensures
        header_bytes(None) is None,
        header_bytes(Some(bytes)) == Some(bytes@),
        optional_text(None) is None,
        match optional_text(Some(bytes@)) {
            Some(text) => text.len() == bytes@.len() && (0 <= i < bytes@.len() ==> text[i] as u8
                == bytes@[i]),
            None => exists|j: int|
                0 <= j < bytes@.len() && (#[trigger] bytes@[j] < 32 && bytes@[j] != 9 || bytes@[j]
                    >= 127),
        },
{
    if optional_text(Some(bytes@)) is None {
        let j = choose|j: int| 0 <= j < bytes@.len() && !is_visible(#[trigger] bytes@[j]);
        assert(bytes@[j] < 32 && bytes@[j] != 9 || bytes@[j] >= 127);
    } else if 0 <= i < bytes@.len() {
        assert(is_visible(bytes@[i]));
    }
}

/// The page links to what was asked for, with every ampersand replaced, and is the same around it
/// for every address.
pub proof fn law_the_page_is_one(host: Seq<char>, path: Seq<char>)
    ensures
        welcome_page(host, Some(path)) == PAGE_HEAD@ + replaced(
            "https://"@ + host + path,
            '&',
            "&amp;"@,
        ) + PAGE_TAIL@,
{
}

/// Whatever visible text stands behind `Bearer ` in the header is the token that decides.
pub proof fn law_bearers_are_admins(
    admin_token: Seq<char>,
    token: Seq<char>,
    address: IpAddress,
    header: Seq<u8>,
)
    requires
        header_chars(header) == Some("Bearer "@ + token),
    ensures
        is_admin(admin_token, address, Some(header)) <==> address.loopback() && token
            == admin_token,
{
    reveal_strlit("Bearer ");
    let text = "Bearer "@ + token;
    assert(text.take(7) =~= "Bearer "@);
    assert(text.skip(7) =~= token);
}

} // verus!
