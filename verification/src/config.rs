//! The stored configuration: the password that viewers sign in with and the token that opens
//! the settings.

use base64::engine::general_purpose::URL_SAFE_NO_PAD;
use base64::Engine;
use rand::distr::{Alphanumeric, SampleString};
use rand::Rng;
use vstd::prelude::*;

verus! {

#[derive(Clone, Debug)]
pub struct Config {
    pub password: String,
    pub admin_token: String,
    /// Capture and input stay open between viewers.
    pub persistent_sessions: bool,
}

/// Length of a generated password.
pub const PASSWORD_LENGTH: usize = 24;

/// An ASCII letter or digit.
pub open spec fn is_alphanumeric(c: char) -> bool {
    'a' <= c <= 'z' || 'A' <= c <= 'Z' || '0' <= c <= '9'
}

/// The text holds ASCII letters and digits only.
pub open spec fn alphanumeric(text: Seq<char>) -> bool {
    forall|i: int| 0 <= i < text.len() ==> is_alphanumeric(#[trigger] text[i])
}

/// Digit `value` of the URL-safe base 64 alphabet.
pub open spec fn base64_digit(value: int) -> char {
    if value < 26 {
        (65 + value) as char
    } else if value < 52 {
        (71 + value) as char
    } else if value < 62 {
        (value - 4) as char
    } else if value == 62 {
        '-'
    } else {
        '_'
    }
}

/// Byte `index`, or zero behind the end.
pub open spec fn byte_or_zero(bytes: Seq<u8>, index: int) -> int {
    if index < bytes.len() {
        bytes[index] as int
    } else {
        0
    }
}

/// The number that six bits of the bytes write, from bit `6 * index` on, with zeros behind the
/// end.
pub open spec fn sextet(bytes: Seq<u8>, index: int) -> int {
    let at = index / 4 * 3;
    let block = byte_or_zero(bytes, at) * 0x1_0000 + byte_or_zero(bytes, at + 1) * 0x100
        + byte_or_zero(bytes, at + 2);
    if index % 4 == 0 {
        block / 0x4_0000
    } else if index % 4 == 1 {
        block / 0x1000 % 64
    } else if index % 4 == 2 {
        block / 64 % 64
    } else {
        block % 64
    }
}

/// The bytes in URL-safe base 64 without padding.
pub open spec fn base64_url(bytes: Seq<u8>) -> Seq<char> {
    Seq::new((4 * bytes.len() + 2) / 3, |i: int| base64_digit(sextet(bytes, i)))
}

/// `rand::distr::SampleString::sample_string` of `Alphanumeric`, fed by `rand::rng`, returns a
/// string of the asked length made of ASCII letters and digits. Which ones is left to chance.
#[verifier::external_body]
pub(crate) fn random_alphanumeric(length: usize) -> (text: String)
    ensures
        text@.len() == length,
        alphanumeric(text@),
{
    Alphanumeric.sample_string(&mut rand::rng(), length)
}

/// `rand::Rng::fill` of `rand::rng` overwrites the array with random bytes, of which nothing can
/// be said.
#[verifier::external_body]
fn random_bytes() -> (bytes: [u8; 32]) {
    let mut bytes = [0u8; 32];
    rand::rng().fill(&mut bytes);
    bytes
}

/// `base64::Engine::encode` of `URL_SAFE_NO_PAD` writes the bytes in base 64 with the URL-safe
/// alphabet and without padding. It panics where the length of the text does not fit in a
/// `usize`.
#[verifier::external_body]
fn encode_base64(bytes: &[u8]) -> (text: String)
    requires
        bytes@.len() <= usize::MAX / 2,
    ensures
        text@ == base64_url(bytes@),
{
    URL_SAFE_NO_PAD.encode(bytes)
}

/// The token that the given random bytes make: 43 characters.
pub fn token_of(bytes: &[u8; 32]) -> (token: String)
    ensures
        token@ == base64_url(bytes@),
        token@.len() == 43,
{
    encode_base64(bytes.as_slice())
}

/// A new token for the settings.
pub fn admin_token() -> (token: String)
    ensures
        exists|bytes: Seq<u8>| bytes.len() == 32 && token@ == #[trigger] base64_url(bytes),
        token@.len() == 43,
{
    let bytes: [u8; 32] = random_bytes();
    token_of(&bytes)
}

impl Config {
    /// The configuration of a first start.
    pub fn generate() -> (config: Config)
        ensures
            config.password@.len() == PASSWORD_LENGTH,
            alphanumeric(config.password@),
            exists|bytes: Seq<u8>|
                bytes.len() == 32 && config.admin_token@ == #[trigger] base64_url(bytes),
            !config.persistent_sessions,
    {
        Config {
            password: random_alphanumeric(PASSWORD_LENGTH),
            admin_token: admin_token(),
            persistent_sessions: false,
        }
    }
}

/// The characters of a token in base 64 are letters, digits, `-` and `_`, one for each number of
/// six bits: those of different numbers differ.
pub proof fn law_base64_digits_differ(a: int, b: int)
    requires
        0 <= a < b < 64,
    ensures
        base64_digit(a) != base64_digit(b),
        is_alphanumeric(base64_digit(a)) || base64_digit(a) == '-' || base64_digit(a) == '_',
        is_alphanumeric(base64_digit(b)) || base64_digit(b) == '-' || base64_digit(b) == '_',
{
}

proof fn lemma_six_bits(value: int)
    requires
        0 <= value < 0x100_0000,
    ensures
        value == 0x4_0000 * (value / 0x4_0000) + 0x1000 * (value / 0x1000 % 64) + 64 * (value / 64
            % 64) + value % 64,
        0 <= value / 0x4_0000 < 64,
{
    let (a, b, c) = (value / 64, value / 64 / 64, value / 64 / 64 / 64);
    vstd::arithmetic::div_mod::lemma_div_denominator(value, 64, 64);
    vstd::arithmetic::div_mod::lemma_div_denominator(value, 0x1000, 64);
    assert(value == 64 * a + value % 64 && a == 64 * b + a % 64 && b == 64 * c + b % 64);
}

/// Four numbers of six bits make up the three bytes that they were read from, so a token tells
/// all of its bytes.
pub proof fn law_tokens_tell_their_bytes(bytes: Seq<u8>, block: int)
    requires
        0 <= block,
        3 * block + 3 <= bytes.len(),
    ensures
        0x4_0000 * sextet(bytes, 4 * block) + 0x1000 * sextet(bytes, 4 * block + 1) + 64 * sextet(
            bytes,
            4 * block + 2,
        ) + sextet(bytes, 4 * block + 3) == 0x1_0000 * bytes[3 * block] + 0x100 * bytes[3 * block
            + 1] + bytes[3 * block + 2],
        0 <= sextet(bytes, 4 * block) < 64,
        0 <= sextet(bytes, 4 * block + 1) < 64,
        0 <= sextet(bytes, 4 * block + 2) < 64,
        0 <= sextet(bytes, 4 * block + 3) < 64,
{
    let at = 3 * block;
    let value = 0x1_0000 * bytes[at] + 0x100 * bytes[at + 1] + bytes[at + 2];
    lemma_six_bits(value);
    assert((4 * block) / 4 == block && (4 * block + 1) / 4 == block && (4 * block + 2) / 4 == block
        && (4 * block + 3) / 4 == block);
    assert(byte_or_zero(bytes, at) == bytes[at] && byte_or_zero(bytes, at + 1) == bytes[at + 1]
        && byte_or_zero(bytes, at + 2) == bytes[at + 2]);
    assert((4 * block) % 4 == 0 && (4 * block + 1) % 4 == 1 && (4 * block + 2) % 4 == 2 && (4
        * block + 3) % 4 == 3);
}

} // verus!
