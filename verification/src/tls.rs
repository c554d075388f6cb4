//! The certificate under which Beam serves HTTPS.

use rcgen::generate_simple_self_signed;
use vstd::prelude::*;
use vstd::string::*;

use crate::text::texts;

verus! {

/// Where the certificate comes from.
#[derive(Clone, Copy, Debug, PartialEq, Eq, Structural)]
pub enum CertificateSource {
    /// The files of an earlier run.
    Stored,
    /// A new one, which is stored.
    Create,
}

/// The stored certificate is used where it is complete, with its key.
pub fn certificate_source(certificate_exists: bool, key_exists: bool) -> (source: CertificateSource)
    ensures
        source == if certificate_exists && key_exists {
            CertificateSource::Stored
        } else {
            CertificateSource::Create
        },
{
    if certificate_exists && key_exists {
        CertificateSource::Stored
    } else {
        CertificateSource::Create
    }
}

/// The names that a certificate is good for: this machine by its names for itself, and by its
/// address in the network where it has one.
pub open spec fn names_for(local: Option<Seq<char>>) -> Seq<Seq<char>> {
    let own = seq!["localhost"@, "127.0.0.1"@, "::1"@];
    match local {
        Some(address) => own.push(address),
        None => own,
    }
}

pub open spec fn optional_text(text: Option<String>) -> Option<Seq<char>> {
    match text {
        Some(text) => Some(text@),
        None => None,
    }
}

pub fn certificate_names(local: Option<String>) -> (names: Vec<String>)
    ensures
        texts(names@) == names_for(optional_text(local)),
{
    let mut names: Vec<String> = Vec::new();
    names.push("localhost".to_owned());
    names.push("127.0.0.1".to_owned());
    names.push("::1".to_owned());
    let ghost expected = names_for(optional_text(local));
    if let Some(address) = local {
        names.push(address);
    }
    assert(texts(names@) =~= expected);
    names
}

/// `rcgen::Error`, which is told apart from success and not looked into.
#[verifier::external_type_specification]
#[verifier::external_body]
pub struct ExCertificateError(rcgen::Error);

/// The text holds ASCII characters only.
pub open spec fn ascii(text: Seq<char>) -> bool {
    forall|i: int| 0 <= i < text.len() ==> #[trigger] text[i] < 128
}

/// A character that addresses are written with.
pub open spec fn is_address_char(c: char) -> bool {
    '0' <= c <= '9' || 'a' <= c <= 'f' || 'A' <= c <= 'F' || c == '.' || c == ':'
}

/// The text is no address, as it holds a character that addresses are not written with.
pub open spec fn is_host_name(name: Seq<char>) -> bool {
    exists|i: int| 0 <= i < name.len() && !is_address_char(#[trigger] name[i])
}

/// A number in decimal digits.
pub open spec fn decimal(value: u8) -> Seq<char>
    decreases value,
{
    let last = (48 + value % 10) as char;
    if value < 10 {
        seq![last]
    } else {
        decimal(value / 10).push(last)
    }
}

/// An IPv4 address as it is written.
pub open spec fn dotted(a: u8, b: u8, c: u8, d: u8) -> Seq<char> {
    decimal(a) + seq!['.'] + decimal(b) + seq!['.'] + decimal(c) + seq!['.'] + decimal(d)
}

/// How a certificate lists the name of a host, of less than 128 characters.
pub open spec fn host_entry(name: Seq<char>) -> Seq<u8> {
    seq![0x82u8, name.len() as u8] + Seq::new(name.len(), |i: int| name[i] as u8)
}

/// How a certificate lists an address of four or sixteen bytes.
pub open spec fn address_entry(octets: Seq<u8>) -> Seq<u8> {
    seq![0x87u8, octets.len() as u8] + octets
}

/// The bytes of `::1`.
pub open spec fn local_octets() -> Seq<u8> {
    seq![0u8, 0, 0, 0, 0, 0, 0, 0, 0, 0, 0, 0, 0, 0, 0, 1]
}

/// The certificate holds the entry.
pub open spec fn lists(certificate: Seq<u8>, entry: Seq<u8>) -> bool {
    exists|at: int|
        0 <= at <= certificate.len() - entry.len() && #[trigger] certificate.subrange(
            at,
            at + entry.len(),
        ) == entry
}

/// The certificate lists a name: that of a host as it stands, an address by its bytes.
pub open spec fn good_for(certificate: Seq<u8>, name: Seq<char>) -> bool {
    &&& is_host_name(name) && name.len() < 128 ==> lists(certificate, host_entry(name))
    &&& forall|a: u8, b: u8, c: u8, d: u8|
        name == #[trigger] dotted(a, b, c, d) ==> lists(certificate, address_entry(seq![a, b, c, d]))
    &&& name == "::1"@ ==> lists(certificate, address_entry(local_octets()))
}

/// What a private key on the curve P-256 begins with, in a PKCS #8 document: all that stands ahead
/// of its secret number.
pub open spec fn key_head() -> Seq<u8> {
    seq![
        0x30u8, 0x81, 0x87, 0x02, 0x01, 0x00, 0x30, 0x13, 0x06, 0x07, 0x2a, 0x86,
        0x48, 0xce, 0x3d, 0x02, 0x01, 0x06, 0x08, 0x2a, 0x86, 0x48, 0xce, 0x3d,
        0x03, 0x01, 0x07, 0x04, 0x6d, 0x30, 0x6b, 0x02, 0x01, 0x01, 0x04, 0x20,
    ]
}

/// What stands between the secret number of such a key and its public point.
pub open spec fn key_middle() -> Seq<u8> {
    seq![0xa1u8, 0x44, 0x03, 0x42, 0x00]
}

/// The length of the secret number, in bytes.
pub const SECRET_BYTES: usize = 32;

/// The length of the public point, in bytes.
pub const POINT_BYTES: usize = 65;

/// The key has the form of a private key on the curve P-256: a secret number of its length, and
/// behind it, at the end, a public point.
pub open spec fn is_private_key(key: Seq<u8>) -> bool {
    let middle = key_head().len() + SECRET_BYTES;
    let point = middle + key_middle().len();
    &&& key.len() == point + POINT_BYTES
    &&& key.take(key_head().len() as int) == key_head()
    &&& key.subrange(middle, point) == key_middle()
}

/// The certificate holds the public point of the key.
pub open spec fn belongs_to(key: Seq<u8>, certificate: Seq<u8>) -> bool {
    is_private_key(key) && lists(certificate, key.skip(key.len() - POINT_BYTES))
}

/// `rcgen::generate_simple_self_signed`: a new key and a certificate for the given names, signed
/// with that key, both in DER. A name that is not ASCII is refused. The certificate lists each
/// name: one that is no address as it stands, an IPv4 address by its four bytes, `::1` by its
/// sixteen. Of other IPv6 addresses and of longer names this is not said. The key is one on the
/// curve P-256, and the public point at its end stands in the certificate too. Which key it is,
/// how its point comes from its secret number, and the rest of the certificate are not described;
/// nor is success promised, which rests on the machine's source of random numbers.
#[verifier::external_body]
fn generate(names: Vec<String>) -> (generated: Result<(Vec<u8>, Vec<u8>), rcgen::Error>)
    ensures
        generated matches Ok(parts) ==> belongs_to(parts.1@, parts.0@),
        generated matches Ok(parts) ==> forall|i: int|
            0 <= i < names@.len() ==> ascii((#[trigger] names@[i])@) && good_for(
                parts.0@,
                names@[i]@,
            ),
{
    let generated = generate_simple_self_signed(names)?;
    Ok((generated.cert.der().to_vec(), generated.key_pair.serialize_der()))
}

/// A certificate and its private key.
pub struct Certificate {
    pub certificate: Vec<u8>,
    pub key: Vec<u8>,
}

/// The certificate could not be made.
pub struct CertificateError;

/// What becomes of the certificate and the key that were generated, or were not.
pub fn certificate_of(generated: Option<(Vec<u8>, Vec<u8>)>) -> (result: Result<
    Certificate,
    CertificateError,
>)
    ensures
        match generated {
            Some(parts) => result == Ok::<Certificate, CertificateError>(
                Certificate { certificate: parts.0, key: parts.1 },
            ),
            None => result is Err,
        },
{
    match generated {
        Some((certificate, key)) => Ok(Certificate { certificate, key }),
        None => Err(CertificateError),
    }
}

proof fn lemma_names_of_this_machine()
    ensures
        is_host_name("localhost"@),
        "localhost"@.len() < 128,
        dotted(127, 0, 0, 1) == "127.0.0.1"@,
{
    reveal_strlit("localhost");
    reveal_strlit("127.0.0.1");
    assert(!is_address_char("localhost"@[0]));
    reveal_with_fuel(decimal, 3);
    assert(dotted(127, 0, 0, 1) =~= "127.0.0.1"@);
}

/// Makes a certificate for this machine, known in the network by `local`. It lists the machine's
/// names for itself, and `local`, and comes with the key that belongs to it. An address that is
/// not ASCII is refused.
pub fn create(local: Option<String>) -> (result: Result<Certificate, CertificateError>)
    ensures
        result matches Ok(created) ==> {
            &&& belongs_to(created.key@, created.certificate@)
            &&& lists(created.certificate@, host_entry("localhost"@))
            &&& lists(created.certificate@, address_entry(seq![127, 0, 0, 1]))
            &&& lists(created.certificate@, address_entry(local_octets()))
            &&& optional_text(local) matches Some(address) ==> ascii(address) && good_for(
                created.certificate@,
                address,
            )
        },
{
    let names: Vec<String> = certificate_names(local);
    let ghost list = names@;
    match generate(names) {
        Ok(parts) => {
            proof {
                lemma_names_of_this_machine();
                assert(texts(list).len() == list.len());
                assert(texts(list)[0] == list[0]@ && texts(list)[1] == list[1]@ && texts(list)[2]
                    == list[2]@);
                assert(good_for(parts.0@, list[0]@));
                assert(good_for(parts.0@, list[1]@));
                assert(good_for(parts.0@, list[2]@));
                if let Some(address) = optional_text(local) {
                    assert(texts(list)[3] == address);
                    assert(ascii(list[3]@) && good_for(parts.0@, list[3]@));
                }
            }
            certificate_of(Some(parts))
        },
        Err(_) => certificate_of(None),
    }
}

/// The protocols that are offered over TLS, the preferred one first.
pub open spec fn is_protocol_list(protocols: Seq<Vec<u8>>) -> bool {
    &&& protocols.len() == 2
    &&& protocols[0]@ == seq![104u8, 50]
    &&& protocols[1]@ == seq![104u8, 116, 116, 112, 47, 49, 46, 49]
}

/// HTTP/2 and HTTP/1.1 by the names under which they are negotiated.
pub fn alpn_protocols() -> (protocols: Vec<Vec<u8>>)
    ensures
        is_protocol_list(protocols@),
{
    vec![vec![104u8, 50], vec![104u8, 116, 116, 112, 47, 49, 46, 49]]
}

/// A certificate is made for the names that this machine has for itself, and for the one that it
/// has in the network where there is one; for no other.
pub proof fn law_certificates_name_this_machine(local: Option<Seq<char>>, name: Seq<char>)
    ensures
        names_for(local).contains(name) <==> name == "localhost"@ || name == "127.0.0.1"@ || name
            == "::1"@ || local == Some(name),
        names_for(local).len() == if local is Some {
            4int
        } else {
            3
        },
{
    let names = names_for(local);
    assert(names[0] == "localhost"@ && names[1] == "127.0.0.1"@ && names[2] == "::1"@);
    if let Some(address) = local {
        assert(names[3] == address);
    }
}

} // verus!
