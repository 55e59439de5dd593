//! The match predicate of the tree scan: which parsed objects of a file are
//! targets, and the listing of matched locations by kind.

use vstd::prelude::*;
use crate::model::{locator_fn, PEMKind, PEMLocator, PKIObject, ParseError, PrivKey};
use crate::armor::scan_from;
use crate::splice::{lemma_filter_keeps_order, ordered_within};
use crate::decode::{decoding_of, public_keys_agree, same_public_key};
use crate::parse::{
    armor_of,
    lemma_undecodable_has_no_objects,
    locator_at,
    parse_pkiobjs,
    parses_to,
    recognized,
    truncated_text,
    undecodable_text,
};

verus! {

/// Whether `pubkey` equals the public component of one of `keys`.
pub open spec fn key_among(pubkey: Seq<u8>, keys: Seq<PrivKey>) -> bool {
    exists|i: int|
        #![trigger keys[i]]
        0 <= i < keys.len() && same_public_key(pubkey, keys[i].public_key@)
}

/// Whether `obj` is a target of the scan: a certificate whose common name
/// is `cn` exactly, or a private key whose public component is that of one
/// of the reference keys.
pub open spec fn is_target(obj: PKIObject, cn: Seq<char>, keys: Seq<PrivKey>) -> bool {
    match obj {
        PKIObject::Cert(c) => c.common_name@ == cn,
        PKIObject::PrivKey(k) => key_among(k.public_key@, keys),
    }
}

/// The test whether an object is a target of the scan.
pub open spec fn target_test(cn: Seq<char>, keys: Seq<PrivKey>) -> spec_fn(PKIObject) -> bool {
    |o: PKIObject| is_target(o, cn, keys)
}

/// The locators of the targets among `objs`, in their order.
pub open spec fn targets(objs: Seq<PKIObject>, cn: Seq<char>, keys: Seq<PrivKey>) -> Seq<
    PEMLocator,
> {
    objs.filter(target_test(cn, keys)).map_values(locator_fn())
}

/// The paths of the locators of one kind, in their order.
pub open spec fn paths_of(pems: Seq<PEMLocator>, kind: PEMKind) -> Seq<String> {
    pems.filter(|l: PEMLocator| l.kind == kind).map_values(|l: PEMLocator| l.path)
}

/// Extending a prefix of `s` by one object extends the targets by that
/// object's locator exactly when the object is a target.
pub proof fn lemma_targets_step(s: Seq<PKIObject>, i: int, cn: Seq<char>, keys: Seq<PrivKey>)
    requires
        0 <= i < s.len(),
    ensures
        targets(s.take(i + 1), cn, keys) == if is_target(s[i], cn, keys) {
            targets(s.take(i), cn, keys).push(s[i].spec_locator())
        } else {
            targets(s.take(i), cn, keys)
        },
{
    reveal(Seq::filter);
    assert(s.take(i + 1).drop_last() =~= s.take(i));
    assert(s.take(i + 1).last() == s[i]);
    if is_target(s[i], cn, keys) {
        assert(targets(s.take(i + 1), cn, keys) =~= targets(s.take(i), cn, keys).push(
            s[i].spec_locator(),
        ));
    }
}

/// Extending a prefix of `s` by one locator extends the paths of a kind by
/// that locator's path exactly when it has that kind.
pub proof fn lemma_paths_step(s: Seq<PEMLocator>, i: int, kind: PEMKind)
    requires
        0 <= i < s.len(),
    ensures
        paths_of(s.take(i + 1), kind) == if s[i].kind == kind {
            paths_of(s.take(i), kind).push(s[i].path)
        } else {
            paths_of(s.take(i), kind)
        },
{
    reveal(Seq::filter);
    assert(s.take(i + 1).drop_last() =~= s.take(i));
    assert(s.take(i + 1).last() == s[i]);
    if s[i].kind == kind {
        assert(paths_of(s.take(i + 1), kind) =~= paths_of(s.take(i), kind).push(s[i].path));
    }
}

/// Two sequences of objects that agree, one for one, on being a target and
/// on their locators have the same targets.
pub proof fn lemma_targets_agree(
    a: Seq<PKIObject>,
    b: Seq<PKIObject>,
    cn: Seq<char>,
    keys: Seq<PrivKey>,
)
    requires
        a.len() == b.len(),
        forall|i: int|
            #![trigger a[i]]
            0 <= i < a.len() ==> is_target(a[i], cn, keys) == is_target(b[i], cn, keys)
                && a[i].spec_locator() == b[i].spec_locator(),
    ensures
        targets(a, cn, keys) == targets(b, cn, keys),
    decreases a.len(),
{
    if a.len() > 0 {
        let n = a.len() - 1;
        let front_a = a.drop_last();
        let front_b = b.drop_last();
        assert forall|i: int|
            #![trigger front_a[i]]
            0 <= i < front_a.len() implies is_target(front_a[i], cn, keys) == is_target(
            front_b[i],
            cn,
            keys,
        ) && front_a[i].spec_locator() == front_b[i].spec_locator() by {
            assert(front_a[i] == a[i]);
            assert(front_b[i] == b[i]);
        }
        lemma_targets_agree(front_a, front_b, cn, keys);
        lemma_targets_step(a, n, cn, keys);
        lemma_targets_step(b, n, cn, keys);
        assert(a.take(n + 1) =~= a);
        assert(b.take(n + 1) =~= b);
        assert(a.take(n) =~= front_a);
        assert(b.take(n) =~= front_b);
        assert(a[n].spec_locator() == b[n].spec_locator());
    } else {
        assert(a =~= b);
    }
}

/// A scan is determined by what it reads: whatever objects a file's content
/// parses to, the targets among them are the same. Scanning an unchanged
/// file again finds the same locations.
pub proof fn lemma_scan_is_determined(
    content: Seq<u8>,
    path: String,
    first: Seq<PKIObject>,
    second: Seq<PKIObject>,
    cn: Seq<char>,
    keys: Seq<PrivKey>,
)
    requires
        parses_to(content, path, first),
        parses_to(content, path, second),
    ensures
        targets(first, cn, keys) == targets(second, cn, keys),
{
    let spans = scan_from(content, 0).unwrap();
    let rec = recognized(spans);
    assert forall|i: int|
        #![trigger first[i]]
        0 <= i < first.len() implies is_target(first[i], cn, keys) == is_target(
        second[i],
        cn,
        keys,
    ) && first[i].spec_locator() == second[i].spec_locator() by {
        let at = locator_at(path, rec[i]);
        let armor = armor_of(content, rec[i]);
        assert(decoding_of(first[i], at, armor));
        assert(decoding_of(second[i], at, armor));
    }
    lemma_targets_agree(first, second, cn, keys);
}

/// Where every object of `objs` sits in the file at `path`, so does every
/// target among the first `n`.
proof fn lemma_targets_paths(
    objs: Seq<PKIObject>,
    cn: Seq<char>,
    keys: Seq<PrivKey>,
    path: String,
    n: int,
)
    requires
        0 <= n <= objs.len(),
        forall|i: int| #![trigger objs[i]] 0 <= i < objs.len() ==> objs[i].spec_locator().path == path,
    ensures
        forall|t: int|
            #![trigger targets(objs.take(n), cn, keys)[t]]
            0 <= t < targets(objs.take(n), cn, keys).len() ==> targets(
                objs.take(n),
                cn,
                keys,
            )[t].path == path,
    decreases n,
{
    if n == 0 {
        reveal(Seq::filter);
        assert(targets(objs.take(0), cn, keys) =~= Seq::<PEMLocator>::empty());
    } else {
        lemma_targets_paths(objs, cn, keys, path, n - 1);
        lemma_targets_step(objs, n - 1, cn, keys);
        assert(objs[n - 1].spec_locator().path == path);
    }
}

/// Every location that a scan finds in a file names that file.
pub proof fn lemma_scanned_paths(
    content: Seq<u8>,
    path: String,
    objs: Seq<PKIObject>,
    cn: Seq<char>,
    keys: Seq<PrivKey>,
)
    requires
        parses_to(content, path, objs),
    ensures
        forall|t: int|
            #![trigger targets(objs, cn, keys)[t]]
            0 <= t < targets(objs, cn, keys).len() ==> targets(objs, cn, keys)[t].path == path,
{
    let spans = scan_from(content, 0).unwrap();
    let rec = recognized(spans);
    assert forall|i: int| #![trigger objs[i]] 0 <= i < objs.len() implies objs[i].spec_locator().path
        == path by {
        assert(decoding_of(objs[i], locator_at(path, rec[i]), armor_of(content, rec[i])));
    }
    lemma_targets_paths(objs, cn, keys, path, objs.len() as int);
    assert(objs.take(objs.len() as int) =~= objs);
}

/// Decides whether `pubkey` equals the public component of one of `keys`.
pub fn is_key_among(pubkey: &Vec<u8>, keys: &Vec<PrivKey>) -> (b: bool)
    ensures
        b == key_among(pubkey@, keys@),
{
    let mut i: usize = 0;
    while i < keys.len()
        invariant
            i <= keys.len(),
            forall|j: int|
                #![trigger keys@[j]]
                0 <= j < i ==> !same_public_key(pubkey@, keys@[j].public_key@),
        decreases keys.len() - i,
    {
        if public_keys_agree(pubkey, &keys[i].public_key) {
            return true;
        }
        i += 1;
    }
    false
}

/// Collects the locator of every certificate whose common name is `cn` and
/// of every private key whose public component is that of one of `keys`.
pub fn find_targets(objs: &Vec<PKIObject>, cn: &String, keys: &Vec<PrivKey>) -> (out: Vec<
    PEMLocator,
>)
    ensures
        out@ == targets(objs@, cn@, keys@),
{
    let mut out: Vec<PEMLocator> = Vec::new();
    let mut i: usize = 0;
    assert(targets(objs@.take(0), cn@, keys@) =~= Seq::<PEMLocator>::empty()) by {
        reveal(Seq::filter);
    }
    while i < objs.len()
        invariant
            i <= objs.len(),
            out@ == targets(objs@.take(i as int), cn@, keys@),
        decreases objs.len() - i,
    {
        proof {
            lemma_targets_step(objs@, i as int, cn@, keys@);
        }
        match &objs[i] {
            PKIObject::Cert(c) => {
                if c.common_name == *cn {
                    out.push(c.locator.duplicate());
                }
            },
            PKIObject::PrivKey(k) => {
                if is_key_among(&k.public_key, keys) {
                    out.push(k.locator.duplicate());
                }
            },
        }
        i += 1;
    }
    assert(objs@.take(i as int) =~= objs@);
    out
}

/// Scans one file of the tree: parses its content and appends the locators
/// of its targets to `found`. A file that does not parse adds nothing, and
/// the error says why: armor cut short, or a block that does not decode.
pub fn scan_file(
    path: &String,
    content: &Vec<u8>,
    cn: &String,
    keys: &Vec<PrivKey>,
    found: &mut Vec<PEMLocator>,
) -> (r: Result<(), ParseError>)
    ensures
        match r {
            Ok(_) => exists|objs: Seq<PKIObject>|
                parses_to(content@, *path, objs) && final(found)@ == old(found)@ + #[trigger] targets(
                    objs,
                    cn@,
                    keys@,
                ) && ordered_within(targets(objs, cn@, keys@), content.len() as int),
            Err(e) => final(found)@ == old(found)@ && e.msg@ == (if scan_from(content@, 0) is None {
                truncated_text()
            } else {
                undecodable_text()
            }) && forall|objs: Seq<PKIObject>| !#[trigger] parses_to(content@, *path, objs),
        },
{
    match parse_pkiobjs(path, content) {
        Ok(objs) => {
            let mut more = find_targets(&objs, cn, keys);
            found.append(&mut more);
            proof {
                lemma_filter_keeps_order(
                    objs@,
                    target_test(cn@, keys@),
                    locator_fn(),
                    content.len() as int,
                );
            }
            assert(parses_to(content@, *path, objs@));
            Ok(())
        },
        Err(e) => {
            proof {
                assert forall|objs: Seq<PKIObject>| !#[trigger] parses_to(
                    content@,
                    *path,
                    objs,
                ) by {
                    if scan_from(content@, 0) is Some {
                        lemma_undecodable_has_no_objects(
                            content@,
                            *path,
                            scan_from(content@, 0).unwrap(),
                            objs,
                        );
                    }
                }
            }
            Err(e)
        },
    }
}

/// Lists the paths of the matched locations of one kind, one entry for each
/// location.
pub fn paths_of_kind(pems: &Vec<PEMLocator>, kind: PEMKind) -> (out: Vec<String>)
    ensures
        out@ == paths_of(pems@, kind),
{
    let mut out: Vec<String> = Vec::new();
    let mut i: usize = 0;
    assert(paths_of(pems@.take(0), kind) =~= Seq::<String>::empty()) by {
        reveal(Seq::filter);
    }
    while i < pems.len()
        invariant
            i <= pems.len(),
            out@ == paths_of(pems@.take(i as int), kind),
        decreases pems.len() - i,
    {
        proof {
            lemma_paths_step(pems@, i as int, kind);
        }
        if pems[i].kind == kind {
            out.push(pems[i].path.clone());
        }
        i += 1;
    }
    assert(pems@.take(i as int) =~= pems@);
    out
}

} // verus!
