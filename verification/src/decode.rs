//! Decoding armored blocks into PKI objects. The DER inside the armor is
//! decoded by OpenSSL; what is read from it is held as plain values.

use vstd::prelude::*;
use crate::model::{Cert, PEMKind, PEMLocator, PKIObject, PrivKey};
use crate::armor::{find_first, find_marker};

verus! {

/// The subject common name of the certificate that `armor` holds, where
/// `armor` decodes to a certificate with such a name.
pub uninterp spec fn cert_name_of(armor: Seq<u8>) -> Option<Seq<char>>;

/// The PEM serialization of the certificate that `armor` holds, where
/// `armor` decodes to a certificate.
pub uninterp spec fn cert_pem_of(armor: Seq<u8>) -> Option<Seq<u8>>;

/// The DER encoding of the public key of the certificate that `armor`
/// holds, where there is one.
pub uninterp spec fn cert_public_key_of(armor: Seq<u8>) -> Option<Seq<u8>>;

/// The PKCS#8 PEM serialization of the private key that `armor` holds,
/// where `armor` decodes to a private key.
pub uninterp spec fn private_pem_of(armor: Seq<u8>) -> Option<Seq<u8>>;

/// The DER encoding of the public component of the private key that
/// `armor` holds, where `armor` decodes to a private key.
pub uninterp spec fn private_public_key_of(armor: Seq<u8>) -> Option<Seq<u8>>;

/// What comparing the public keys of two DER encodings gives: nothing
/// where one of them does not decode to a public key, else whether OpenSSL
/// finds the public components equal.
pub uninterp spec fn public_eq_of(a: Seq<u8>, b: Seq<u8>) -> Option<bool>;

/// The longest input that OpenSSL reads from memory.
pub const MAX_ARMOR: usize = 0x7fff_ffff;

/// The bytes of `Proc-Type:`, the first of the header lines that mark an
/// encrypted block.
pub open spec fn proc_type_marker() -> Seq<u8> {
    seq![80u8, 114u8, 111u8, 99u8, 45u8, 84u8, 121u8, 112u8, 101u8, 58u8]
}

/// Whether the block carries PEM header lines: `Proc-Type:` occurs in it.
/// Such a block is encrypted, and reading it would ask for a passphrase.
pub open spec fn has_pem_header(armor: Seq<u8>) -> bool {
    find_first(armor, proc_type_marker(), 0) is Some
}

/// Decides whether the block carries PEM header lines.
pub fn carries_pem_header(armor: &Vec<u8>) -> (b: bool)
    ensures
        b == has_pem_header(armor@),
{
    let mut pat: Vec<u8> = Vec::new();
    pat.push(80u8);
    pat.push(114u8);
    pat.push(111u8);
    pat.push(99u8);
    pat.push(45u8);
    pat.push(84u8);
    pat.push(121u8);
    pat.push(112u8);
    pat.push(101u8);
    pat.push(58u8);
    assert(pat@ =~= proc_type_marker());
    find_marker(armor, &pat, 0).is_some()
}

/// The view of an optional text.
pub open spec fn text_view(t: Option<String>) -> Option<Seq<char>> {
    match t {
        Some(s) => Some(s@),
        None => None,
    }
}

/// The view of an optional buffer.
pub open spec fn bytes_view(b: Option<Vec<u8>>) -> Option<Seq<u8>> {
    match b {
        Some(v) => Some(v@),
        None => None,
    }
}

/// Reads the first subject common name of a PEM certificate, through
/// `X509::from_pem`, `X509NameRef::entries_by_nid` and
/// `Asn1StringRef::to_string`. The contract only names the result: it is
/// determined by the input bytes. A block with PEM header lines is left out:
/// for it OpenSSL would ask for a passphrase.
#[verifier::external_body]
fn cert_common_name(armor: &Vec<u8>) -> (r: Option<String>)
    requires
        armor@.len() <= MAX_ARMOR,
        !has_pem_header(armor@),
    ensures
        text_view(r) == cert_name_of(armor@),
{
    let cert = openssl::x509::X509::from_pem(armor.as_slice()).ok()?;
    let entry = cert.subject_name().entries_by_nid(openssl::nid::Nid::COMMONNAME).next()?;
    entry.data().to_string().ok()
}

/// Decodes a PEM certificate and serializes it again, through
/// `X509::from_pem` and `X509Ref::to_pem`. The contract only names the
/// result: it is determined by the input bytes. A block with PEM header
/// lines is left out: for it OpenSSL would ask for a passphrase.
#[verifier::external_body]
fn cert_pem(armor: &Vec<u8>) -> (r: Option<Vec<u8>>)
    requires
        armor@.len() <= MAX_ARMOR,
        !has_pem_header(armor@),
    ensures
        bytes_view(r) == cert_pem_of(armor@),
{
    let cert = openssl::x509::X509::from_pem(armor.as_slice()).ok()?;
    cert.to_pem().ok()
}

/// Extracts the public key of a PEM certificate as DER, through
/// `X509::from_pem`, `X509Ref::public_key` and `PKeyRef::public_key_to_der`.
/// The contract only names the result: it is determined by the input bytes.
/// A block with PEM header lines is left out: for it OpenSSL would ask for a
/// passphrase.
#[verifier::external_body]
fn cert_public_key(armor: &Vec<u8>) -> (r: Option<Vec<u8>>)
    requires
        armor@.len() <= MAX_ARMOR,
        !has_pem_header(armor@),
    ensures
        bytes_view(r) == cert_public_key_of(armor@),
{
    let cert = openssl::x509::X509::from_pem(armor.as_slice()).ok()?;
    let key = cert.public_key().ok()?;
    key.public_key_to_der().ok()
}

/// Decodes a PEM private key, trying the empty passphrase where it is
/// encrypted, and serializes it as PKCS#8 PEM, through
/// `PKey::private_key_from_pem_passphrase` and
/// `PKeyRef::private_key_to_pem_pkcs8`. The contract only names the result:
/// it is determined by the input bytes.
#[verifier::external_body]
fn private_pem(armor: &Vec<u8>) -> (r: Option<Vec<u8>>)
    requires
        armor@.len() <= MAX_ARMOR,
    ensures
        bytes_view(r) == private_pem_of(armor@),
{
    let key = openssl::pkey::PKey::private_key_from_pem_passphrase(armor.as_slice(), b"").ok()?;
    key.private_key_to_pem_pkcs8().ok()
}

/// Extracts the public component of a PEM private key as DER, through
/// `PKey::private_key_from_pem_passphrase` and
/// `PKeyRef::public_key_to_der`. The contract only names the result: it is
/// determined by the input bytes.
#[verifier::external_body]
fn private_public_key(armor: &Vec<u8>) -> (r: Option<Vec<u8>>)
    requires
        armor@.len() <= MAX_ARMOR,
    ensures
        bytes_view(r) == private_public_key_of(armor@),
{
    let key = openssl::pkey::PKey::private_key_from_pem_passphrase(armor.as_slice(), b"").ok()?;
    key.public_key_to_der().ok()
}

/// Compares the public keys that two DER encodings hold, through
/// `PKey::public_key_from_der` on each and `PKeyRef::public_eq`. The
/// contract only names the result: it is determined by the two inputs.
#[verifier::external_body]
fn compare_public_keys(a: &Vec<u8>, b: &Vec<u8>) -> (r: Option<bool>)
    ensures
        r == public_eq_of(a@, b@),
{
    let first = openssl::pkey::PKey::public_key_from_der(a.as_slice()).ok()?;
    let second = openssl::pkey::PKey::public_key_from_der(b.as_slice()).ok()?;
    Some(first.public_eq(&second))
}

/// Whether two DER encodings hold the same public key: both decode, and
/// their public components are equal. The encodings themselves may differ.
pub open spec fn same_public_key(a: Seq<u8>, b: Seq<u8>) -> bool {
    public_eq_of(a, b) == Some(true)
}

/// Reads the outcome of a comparison: the keys agree only where both were
/// decoded and found equal.
pub fn agreed(outcome: Option<bool>) -> (b: bool)
    ensures
        b == (outcome == Some(true)),
{
    match outcome {
        Some(equal) => equal,
        None => false,
    }
}

/// Decides whether two DER encodings hold the same public key.
pub fn public_keys_agree(a: &Vec<u8>, b: &Vec<u8>) -> (r: bool)
    ensures
        r == same_public_key(a@, b@),
{
    agreed(compare_public_keys(a, b))
}

/// The certificate made of what was read from a block: present where the
/// block could be serialized again. A certificate without a common name has
/// the empty name.
pub open spec fn cert_described(
    obj: PKIObject,
    locator: PEMLocator,
    name: Option<Seq<char>>,
    pem: Option<Seq<u8>>,
    public_key: Option<Seq<u8>>,
) -> bool {
    match obj {
        PKIObject::Cert(c) => {
            &&& c.locator == locator
            &&& c.common_name@ == match name {
                Some(n) => n,
                None => Seq::empty(),
            }
            &&& Some(c.pem@) == pem
            &&& bytes_view(c.public_key) == public_key
        },
        PKIObject::PrivKey(_) => false,
    }
}

/// The private key made of what was read from a block.
pub open spec fn key_described(
    obj: PKIObject,
    locator: PEMLocator,
    pem: Option<Seq<u8>>,
    public_key: Option<Seq<u8>>,
) -> bool {
    match obj {
        PKIObject::Cert(_) => false,
        PKIObject::PrivKey(k) => {
            &&& k.locator == locator
            &&& Some(k.pem@) == pem
            &&& Some(k.public_key@) == public_key
        },
    }
}

/// Whether a block of this kind decodes. An encrypted certificate block
/// does not.
pub open spec fn decodable(armor: Seq<u8>, kind: PEMKind) -> bool {
    armor.len() <= MAX_ARMOR && match kind {
        PEMKind::Cert => !has_pem_header(armor) && cert_pem_of(armor) is Some,
        PEMKind::PrivKey => private_pem_of(armor) is Some && private_public_key_of(armor) is Some,
    }
}

/// Whether `obj` is the decoding of the block `armor` found at `locator`.
pub open spec fn decoding_of(obj: PKIObject, locator: PEMLocator, armor: Seq<u8>) -> bool {
    match locator.kind {
        PEMKind::Cert => cert_described(
            obj,
            locator,
            cert_name_of(armor),
            cert_pem_of(armor),
            cert_public_key_of(armor),
        ),
        PEMKind::PrivKey => key_described(
            obj,
            locator,
            private_pem_of(armor),
            private_public_key_of(armor),
        ),
    }
}

/// Makes a certificate of what was read from a block. There is none where
/// the block gave no PEM serialization.
pub fn assemble_cert(
    locator: PEMLocator,
    name: Option<String>,
    pem: Option<Vec<u8>>,
    public_key: Option<Vec<u8>>,
) -> (r: Option<PKIObject>)
    ensures
        match r {
            Some(obj) => pem is Some && cert_described(
                obj,
                locator,
                text_view(name),
                bytes_view(pem),
                bytes_view(public_key),
            ),
            None => pem is None,
        },
{
    match pem {
        None => None,
        Some(pem) => {
            let common_name = match name {
                Some(n) => n,
                None => String::new(),
            };
            Some(PKIObject::Cert(Cert { common_name, pem, public_key, locator }))
        },
    }
}

/// Makes a private key of what was read from a block. There is none where
/// the block gave no PEM serialization or no public component.
pub fn assemble_key(locator: PEMLocator, pem: Option<Vec<u8>>, public_key: Option<Vec<u8>>) -> (r:
    Option<PKIObject>)
    ensures
        match r {
            Some(obj) => pem is Some && public_key is Some && key_described(
                obj,
                locator,
                bytes_view(pem),
                bytes_view(public_key),
            ),
            None => pem is None || public_key is None,
        },
{
    match (pem, public_key) {
        (Some(pem), Some(public_key)) => Some(
            PKIObject::PrivKey(PrivKey { pem, public_key, locator }),
        ),
        _ => None,
    }
}

/// Decodes the block `armor` that was found at `locator`.
pub fn decode_block(locator: PEMLocator, armor: &Vec<u8>) -> (r: Option<PKIObject>)
    ensures
        match r {
            Some(obj) => decodable(armor@, locator.kind) && decoding_of(obj, locator, armor@),
            None => !decodable(armor@, locator.kind),
        },
{
    if armor.len() > MAX_ARMOR {
        return None;
    }
    match locator.kind {
        PEMKind::Cert => {
            if carries_pem_header(armor) {
                return None;
            }
            let name = cert_common_name(armor);
            let pem = cert_pem(armor);
            let public_key = cert_public_key(armor);
            assemble_cert(locator, name, pem, public_key)
        },
        PEMKind::PrivKey => {
            let pem = private_pem(armor);
            let public_key = private_public_key(armor);
            assemble_key(locator, pem, public_key)
        },
    }
}

} // verus!
