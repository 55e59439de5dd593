//! Selecting the unique certificate or private key among parsed objects.
//!
//! Both selections fail closed: unless exactly one candidate meets the
//! criterion, nothing is chosen.

use vstd::prelude::*;
use vstd::string::StringExecFns;
use crate::model::{Cert, PrivKey, PKIObject, MatchError};
use crate::decode::{public_keys_agree, same_public_key};

verus! {

/// What a candidate has to meet to be selected.
#[derive(Clone, Copy)]
pub enum Criterion<'a> {
    /// Any certificate.
    AnyCert,
    /// A certificate whose subject common name is exactly this one.
    CertNamed(&'a String),
    /// A private key whose public component equals this public key.
    KeyFor(&'a Vec<u8>),
}

/// Whether `obj` meets the criterion `c`.
pub open spec fn admits(obj: PKIObject, c: Criterion) -> bool {
    match (obj, c) {
        (PKIObject::Cert(_), Criterion::AnyCert) => true,
        (PKIObject::Cert(cert), Criterion::CertNamed(n)) => cert.common_name@ == n@,
        (PKIObject::PrivKey(k), Criterion::KeyFor(p)) => same_public_key(k.public_key@, p@),
        _ => false,
    }
}

/// The objects of `objs` that meet `c`, in their order.
pub open spec fn matching(objs: Seq<PKIObject>, c: Criterion) -> Seq<PKIObject> {
    objs.filter(|o: PKIObject| admits(o, c))
}

/// The criterion that an optional common name stands for.
pub open spec fn cert_criterion<'a>(cn: Option<&'a String>) -> Criterion<'a> {
    match cn {
        None => Criterion::AnyCert,
        Some(n) => Criterion::CertNamed(n),
    }
}

/// The text reported when no unique certificate is found.
pub open spec fn cert_ambiguity_text(cn: Option<&String>) -> Seq<char> {
    match cn {
        None => "Certificate file does not contain exactly one certificate, so a common name must be provided."@,
        Some(n) => "Certificate file does not contain exactly one certificate with common name: "@ + n@,
    }
}

/// The text reported when no unique private key is found for a certificate.
pub open spec fn key_ambiguity_text(cn: Seq<char>) -> Seq<char> {
    "Provided file does not contain exactly one private key match cert with common name: "@ + cn
}

/// The text reported when the reference certificate has no public key.
pub open spec fn no_public_key_text(cn: Seq<char>) -> Seq<char> {
    "Failed to get public key from provided certificate, cn: "@ + cn
}

/// Extending a prefix of `s` by one element extends the matching objects by
/// that element exactly when it meets the criterion.
pub proof fn lemma_matching_step(s: Seq<PKIObject>, i: int, c: Criterion)
    requires
        0 <= i < s.len(),
    ensures
        matching(s.take(i + 1), c) == if admits(s[i], c) {
            matching(s.take(i), c).push(s[i])
        } else {
            matching(s.take(i), c)
        },
{
    reveal(Seq::filter);
    assert(s.take(i + 1).drop_last() =~= s.take(i));
    assert(s.take(i + 1).last() == s[i]);
}

/// Up to any length, the matching objects of a prefix are none before the
/// only object that meets the criterion, and that object alone from it on.
proof fn lemma_single_match_prefix(objs: Seq<PKIObject>, c: Criterion, i: int, n: int)
    requires
        0 <= i < objs.len(),
        0 <= n <= objs.len(),
        admits(objs[i], c),
        forall|j: int| 0 <= j < objs.len() && j != i ==> !admits(#[trigger] objs[j], c),
    ensures
        matching(objs.take(n), c) == if n <= i {
            Seq::<PKIObject>::empty()
        } else {
            seq![objs[i]]
        },
    decreases n,
{
    if n == 0 {
        reveal(Seq::filter);
        assert(matching(objs.take(0), c) =~= Seq::<PKIObject>::empty());
    } else {
        lemma_single_match_prefix(objs, c, i, n - 1);
        lemma_matching_step(objs, n - 1, c);
        if n - 1 == i {
            assert(Seq::<PKIObject>::empty().push(objs[i]) =~= seq![objs[i]]);
        }
    }
}

/// Where exactly one object meets the criterion, it alone is matching: the
/// selection then succeeds with it.
pub proof fn lemma_single_match(objs: Seq<PKIObject>, c: Criterion, i: int)
    requires
        0 <= i < objs.len(),
        admits(objs[i], c),
        forall|j: int| 0 <= j < objs.len() && j != i ==> !admits(#[trigger] objs[j], c),
    ensures
        matching(objs, c) == seq![objs[i]],
{
    lemma_single_match_prefix(objs, c, i, objs.len() as int);
    assert(objs.take(objs.len() as int) =~= objs);
}

/// Up to any length, a prefix has at least as many matching objects as it
/// holds of two given objects that meet the criterion.
proof fn lemma_two_matches_prefix(objs: Seq<PKIObject>, c: Criterion, i: int, j: int, n: int)
    requires
        0 <= i < j < objs.len(),
        0 <= n <= objs.len(),
        admits(objs[i], c),
        admits(objs[j], c),
    ensures
        matching(objs.take(n), c).len() >= (if n > i {
            1int
        } else {
            0int
        }) + (if n > j {
            1int
        } else {
            0int
        }),
    decreases n,
{
    if n > 0 {
        lemma_two_matches_prefix(objs, c, i, j, n - 1);
        lemma_matching_step(objs, n - 1, c);
    }
}

/// Where two objects meet the criterion, more than one is matching: the
/// selection then fails.
pub proof fn lemma_two_matches(objs: Seq<PKIObject>, c: Criterion, i: int, j: int)
    requires
        0 <= i < j < objs.len(),
        admits(objs[i], c),
        admits(objs[j], c),
    ensures
        matching(objs, c).len() >= 2,
{
    lemma_two_matches_prefix(objs, c, i, j, objs.len() as int);
    assert(objs.take(objs.len() as int) =~= objs);
}

/// Where no object meets the criterion, none is matching: the selection
/// then fails.
pub proof fn lemma_no_match(objs: Seq<PKIObject>, c: Criterion)
    requires
        forall|j: int| 0 <= j < objs.len() ==> !admits(#[trigger] objs[j], c),
    ensures
        matching(objs, c).len() == 0,
    decreases objs.len(),
{
    reveal(Seq::filter);
    if objs.len() > 0 {
        let front = objs.drop_last();
        assert forall|j: int| 0 <= j < front.len() implies !admits(#[trigger] front[j], c) by {
            assert(front[j] == objs[j]);
        }
        lemma_no_match(front, c);
        assert(objs.last() == objs[objs.len() - 1]);
    }
}

/// Decides whether one object meets a criterion.
pub fn meets(obj: &PKIObject, c: &Criterion) -> (b: bool)
    ensures
        b == admits(*obj, *c),
{
    match obj {
        PKIObject::Cert(cert) => match c {
            Criterion::AnyCert => true,
            Criterion::CertNamed(n) => cert.common_name == **n,
            Criterion::KeyFor(_) => false,
        },
        PKIObject::PrivKey(k) => match c {
            Criterion::KeyFor(p) => public_keys_agree(&k.public_key, *p),
            _ => false,
        },
    }
}

/// Picks the one object that meets `c`. Where the number of such objects is
/// not one, that number is returned instead.
pub fn pick_unique(pkis: Vec<PKIObject>, c: &Criterion) -> (r: Result<PKIObject, usize>)
    ensures
        match r {
            Ok(obj) => admits(obj, *c) && matching(pkis@, *c) == seq![obj],
            Err(n) => n == matching(pkis@, *c).len() && n != 1,
        },
{
    let mut pkis = pkis;
    let ghost orig = pkis@;
    let mut found: usize = 0;
    let mut at: usize = 0;
    let mut i: usize = 0;
    assert(matching(orig.take(0), *c) =~= Seq::<PKIObject>::empty()) by {
        reveal(Seq::filter);
    }
    while i < pkis.len()
        invariant
            i <= pkis.len(),
            pkis@ == orig,
            found <= i,
            found == matching(orig.take(i as int), *c).len(),
            found == 1 ==> at < i && admits(orig[at as int], *c) && matching(orig.take(i as int), *c) == seq![orig[at as int]],
        decreases pkis.len() - i,
    {
        proof {
            lemma_matching_step(orig, i as int, *c);
        }
        if meets(&pkis[i], c) {
            assert(found == 0 ==> matching(orig.take(i + 1), *c) =~= seq![orig[i as int]]);
            found += 1;
            at = i;
        }
        i += 1;
    }
    assert(orig.take(i as int) =~= orig);
    if found == 1 {
        let obj = pkis.remove(at);
        Ok(obj)
    } else {
        Err(found)
    }
}

/// Chooses the certificate that `cn` designates among `pkis`: the only
/// certificate when no name is given, else the only certificate whose common
/// name equals the name exactly. Fails unless exactly one qualifies.
pub fn choose_cert(pkis: Vec<PKIObject>, cn: Option<&String>) -> (r: Result<Cert, MatchError>)
    ensures
        match r {
            Ok(cert) => matching(pkis@, cert_criterion(cn)) == seq![PKIObject::Cert(cert)],
            Err(MatchError::Ambiguous { found, msg }) => found != 1
                && found == matching(pkis@, cert_criterion(cn)).len()
                && msg@ == cert_ambiguity_text(cn),
            Err(MatchError::NoPublicKey { .. }) => false,
        },
{
    let criterion = match cn {
        None => Criterion::AnyCert,
        Some(n) => Criterion::CertNamed(n),
    };
    match pick_unique(pkis, &criterion) {
        Ok(PKIObject::Cert(cert)) => Ok(cert),
        Ok(PKIObject::PrivKey(_)) => {
            vstd::pervasive::unreached()
        },
        Err(found) => {
            let msg = match cn {
                None => String::from_str(
                    "Certificate file does not contain exactly one certificate, so a common name must be provided.",
                ),
                Some(n) => {
                    let mut m = String::from_str(
                        "Certificate file does not contain exactly one certificate with common name: ",
                    );
                    m.append(n.as_str());
                    m
                },
            };
            Err(MatchError::Ambiguous { found, msg })
        },
    }
}

/// Chooses the private key among `pkis` whose public component equals the
/// public key of `cert`. Fails when the certificate has no public key, and
/// unless exactly one private key qualifies.
pub fn choose_privkey(pkis: Vec<PKIObject>, cert: &Cert) -> (r: Result<PrivKey, MatchError>)
    ensures
        match r {
            Ok(key) => cert.public_key matches Some(p)
                && matching(pkis@, Criterion::KeyFor(&p)) == seq![PKIObject::PrivKey(key)],
            Err(MatchError::NoPublicKey { msg }) => cert.public_key is None
                && msg@ == no_public_key_text(cert.common_name@),
            Err(MatchError::Ambiguous { found, msg }) => cert.public_key matches Some(p)
                && found != 1
                && found == matching(pkis@, Criterion::KeyFor(&p)).len()
                && msg@ == key_ambiguity_text(cert.common_name@),
        },
{
    match &cert.public_key {
        None => {
            let mut msg = String::from_str("Failed to get public key from provided certificate, cn: ");
            msg.append(cert.common_name.as_str());
            Err(MatchError::NoPublicKey { msg })
        },
        Some(p) => {
            let criterion = Criterion::KeyFor(p);
                    match pick_unique(pkis, &criterion) {
                Ok(PKIObject::PrivKey(key)) => Ok(key),
                Ok(PKIObject::Cert(_)) => {
                    vstd::pervasive::unreached()
                },
                Err(found) => {
                    let mut msg = String::from_str(
                        "Provided file does not contain exactly one private key match cert with common name: ",
                    );
                    msg.append(cert.common_name.as_str());
                    Err(MatchError::Ambiguous { found, msg })
                },
            }
        },
    }
}

} // verus!
