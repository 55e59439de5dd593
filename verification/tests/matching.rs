use certswap::decode::{agreed, public_keys_agree};
use certswap::matcher::{choose_cert, choose_privkey, meets, pick_unique, Criterion};
use certswap::model::{Cert, MatchError, PEMKind, PEMLocator, PKIObject, PrivKey};
use openssl::bn::BigNumContext;
use openssl::ec::{EcGroup, EcKey, PointConversionForm};
use openssl::nid::Nid;
use openssl::pkey::PKey;

/// A fresh P-256 key: its public key as DER with the point uncompressed,
/// and the same public key as DER with the point compressed.
fn public_ders() -> (Vec<u8>, Vec<u8>) {
    let group = EcGroup::from_curve_name(Nid::X9_62_PRIME256V1).unwrap();
    let key = EcKey::generate(&group).unwrap();
    let mut ctx = BigNumContext::new().unwrap();
    let point = key
        .public_key()
        .to_bytes(&group, PointConversionForm::COMPRESSED, &mut ctx)
        .unwrap();
    let mut compressed = vec![
        0x30, 0x39, 0x30, 0x13, 0x06, 0x07, 0x2a, 0x86, 0x48, 0xce, 0x3d, 0x02, 0x01, 0x06, 0x08,
        0x2a, 0x86, 0x48, 0xce, 0x3d, 0x03, 0x01, 0x07, 0x03, 0x22, 0x00,
    ];
    compressed.extend_from_slice(&point);
    let plain = PKey::from_ec_key(key).unwrap().public_key_to_der().unwrap();
    (plain, compressed)
}

fn public_der() -> Vec<u8> {
    public_ders().0
}

fn loc(path: &str, kind: PEMKind, start: usize, end: usize) -> PEMLocator {
    PEMLocator { path: path.to_string(), kind, start, end }
}

fn cert(cn: &str, key: &[u8], start: usize) -> PKIObject {
    PKIObject::Cert(Cert {
        common_name: cn.to_string(),
        pem: format!("cert:{}", cn).into_bytes(),
        public_key: Some(key.to_vec()),
        locator: loc("src.pem", PEMKind::Cert, start, start + 10),
    })
}

fn key(public: &[u8], tag: u8, start: usize) -> PKIObject {
    PKIObject::PrivKey(PrivKey {
        pem: vec![tag; 4],
        public_key: public.to_vec(),
        locator: loc("key.pem", PEMKind::PrivKey, start, start + 10),
    })
}

fn as_cert(obj: PKIObject) -> Cert {
    match obj {
        PKIObject::Cert(c) => c,
        PKIObject::PrivKey(_) => panic!("not a certificate"),
    }
}

#[test]
fn single_certificate_is_chosen_without_a_name() {
    let pkis = vec![key(b"k1", 1, 0), cert("svc1", b"k1", 20)];
    let chosen = choose_cert(pkis, None).unwrap();
    assert_eq!(chosen.common_name, "svc1");
    assert_eq!(chosen.locator.start, 20);
}

#[test]
fn two_certificates_without_a_name_are_ambiguous() {
    let pkis = vec![cert("svc1", b"k1", 0), cert("svc2", b"k2", 20)];
    match choose_cert(pkis, None) {
        Err(MatchError::Ambiguous { found, msg }) => {
            assert_eq!(found, 2);
            assert_eq!(
                msg,
                "Certificate file does not contain exactly one certificate, so a common name must be provided."
            );
        }
        other => panic!("unexpected: {:?}", other),
    }
}

#[test]
fn no_certificate_is_ambiguous_with_count_zero() {
    let pkis = vec![key(b"k1", 1, 0)];
    match choose_cert(pkis, None) {
        Err(MatchError::Ambiguous { found, .. }) => assert_eq!(found, 0),
        other => panic!("unexpected: {:?}", other),
    }
    match choose_cert(Vec::new(), None) {
        Err(MatchError::Ambiguous { found, .. }) => assert_eq!(found, 0),
        other => panic!("unexpected: {:?}", other),
    }
}

#[test]
fn named_certificate_is_chosen_among_several() {
    let name = "svc2".to_string();
    let pkis = vec![cert("svc1", b"k1", 0), cert("svc2", b"k2", 20), cert("svc3", b"k3", 40)];
    let chosen = choose_cert(pkis, Some(&name)).unwrap();
    assert_eq!(chosen.common_name, "svc2");
    assert_eq!(chosen.pem, b"cert:svc2".to_vec());
    assert_eq!(chosen.locator.start, 20);
}

#[test]
fn name_match_is_case_sensitive() {
    let name = "SVC1".to_string();
    let pkis = vec![cert("svc1", b"k1", 0)];
    match choose_cert(pkis, Some(&name)) {
        Err(MatchError::Ambiguous { found, msg }) => {
            assert_eq!(found, 0);
            assert_eq!(
                msg,
                "Certificate file does not contain exactly one certificate with common name: SVC1"
            );
        }
        other => panic!("unexpected: {:?}", other),
    }
}

#[test]
fn duplicate_names_are_ambiguous() {
    let name = "svc1".to_string();
    let pkis = vec![cert("svc1", b"k1", 0), cert("other", b"k2", 20), cert("svc1", b"k3", 40)];
    match choose_cert(pkis, Some(&name)) {
        Err(e) => {
            assert!(matches!(e, MatchError::Ambiguous { found: 2, .. }));
            assert_eq!(
                e.message(),
                "Certificate file does not contain exactly one certificate with common name: svc1"
            );
        }
        Ok(c) => panic!("unexpected: {:?}", c),
    }
}

#[test]
fn private_key_is_chosen_by_public_key() {
    let (a, b) = (public_der(), public_der());
    let reference = as_cert(cert("svc1", &a, 0));
    let pkis = vec![key(&b, 1, 0), cert("svc1", &a, 10), key(&a, 2, 30)];
    let chosen = choose_privkey(pkis, &reference).unwrap();
    assert_eq!(chosen.pem, vec![2u8; 4]);
    assert_eq!(chosen.locator.start, 30);
}

#[test]
fn private_key_match_ignores_private_encoding() {
    let a = public_der();
    let reference = as_cert(cert("svc1", &a, 0));
    let pkis = vec![key(&a, 7, 0)];
    let chosen = choose_privkey(pkis, &reference).unwrap();
    assert_eq!(chosen.pem, vec![7u8; 4]);
}

#[test]
fn equal_public_keys_match_across_encodings() {
    let (plain, compressed) = public_ders();
    assert_ne!(plain, compressed);
    assert!(public_keys_agree(&plain, &compressed));
    assert!(public_keys_agree(&compressed, &plain));
    assert!(public_keys_agree(&plain, &plain));
    assert!(!public_keys_agree(&plain, &public_der()));
    let reference = as_cert(cert("svc1", &plain, 0));
    let chosen = choose_privkey(vec![key(&compressed, 5, 0)], &reference).unwrap();
    assert_eq!(chosen.pem, vec![5u8; 4]);
}

#[test]
fn bytes_that_are_no_public_key_match_nothing() {
    let junk = b"pub-a".to_vec();
    assert!(!public_keys_agree(&junk, &junk));
    assert!(!public_keys_agree(&public_der(), &junk));
    assert!(!public_keys_agree(&Vec::new(), &Vec::new()));
    let reference = as_cert(cert("svc1", &junk, 0));
    assert!(matches!(
        choose_privkey(vec![key(&junk, 1, 0)], &reference),
        Err(MatchError::Ambiguous { found: 0, .. })
    ));
}

#[test]
fn outcome_of_a_comparison_is_read() {
    assert!(agreed(Some(true)));
    assert!(!agreed(Some(false)));
    assert!(!agreed(None));
}

#[test]
fn no_or_many_matching_keys_are_ambiguous() {
    let (a, b) = (public_der(), public_der());
    let reference = as_cert(cert("svc1", &a, 0));
    match choose_privkey(vec![key(&b, 1, 0)], &reference) {
        Err(MatchError::Ambiguous { found, msg }) => {
            assert_eq!(found, 0);
            assert_eq!(
                msg,
                "Provided file does not contain exactly one private key match cert with common name: svc1"
            );
        }
        other => panic!("unexpected: {:?}", other),
    }
    match choose_privkey(vec![key(&a, 1, 0), key(&a, 2, 20)], &reference) {
        Err(MatchError::Ambiguous { found, .. }) => assert_eq!(found, 2),
        other => panic!("unexpected: {:?}", other),
    }
}

#[test]
fn certificate_without_public_key_chooses_no_key() {
    let mut reference = as_cert(cert("svc9", b"pub-a", 0));
    reference.public_key = None;
    match choose_privkey(vec![key(b"pub-a", 1, 0)], &reference) {
        Err(MatchError::NoPublicKey { msg }) => {
            assert_eq!(msg, "Failed to get public key from provided certificate, cn: svc9");
        }
        other => panic!("unexpected: {:?}", other),
    }
}

#[test]
fn pick_unique_reports_the_count() {
    let name = "a".to_string();
    let pkis = vec![cert("a", b"1", 0), cert("a", b"2", 10), cert("a", b"3", 20)];
    assert_eq!(pick_unique(pkis, &Criterion::CertNamed(&name)).err(), Some(3));
    let pkis = vec![cert("a", b"1", 0), cert("b", b"2", 10)];
    assert_eq!(pick_unique(pkis, &Criterion::AnyCert).err(), Some(2));
}

#[test]
fn meets_tells_kinds_apart() {
    let name = "a".to_string();
    let public = public_der();
    let other = public_der();
    assert!(meets(&cert("a", &public, 0), &Criterion::AnyCert));
    assert!(meets(&cert("a", &public, 0), &Criterion::CertNamed(&name)));
    assert!(!meets(&cert("b", &public, 0), &Criterion::CertNamed(&name)));
    assert!(!meets(&cert("a", &public, 0), &Criterion::KeyFor(&public)));
    assert!(meets(&key(&public, 0, 0), &Criterion::KeyFor(&public)));
    assert!(!meets(&key(&other, 0, 0), &Criterion::KeyFor(&public)));
    assert!(!meets(&key(&public, 0, 0), &Criterion::AnyCert));
}
