//! The per-file decisions of a replacement run: which files are left
//! alone, what a file's new content is, and how its backup is named.

use vstd::prelude::*;
use vstd::string::StringExecFns;
use crate::model::{locator_fn, locators_of, Cert, PEMLocator, PKIObject, PrivKey};
use crate::group::{grouped, has_path, FileGroup};
use crate::finder::{target_test, targets};
use crate::splice::{
    lemma_filter_keeps_order,
    ordered_within,
    rewritten,
    spans_ordered_within,
    splice_pems,
};

verus! {

/// Whether `path` is a file that the replacement material itself came from:
/// the new certificate's file or, where there is a new key, the key's file.
pub open spec fn is_source(path: Seq<char>, cert: Cert, key: Option<PrivKey>) -> bool {
    path == cert.locator.path@ || match key {
        Some(k) => path == k.locator.path@,
        None => false,
    }
}

/// The PEM text that replaces private keys: the new key's, or nothing where
/// there is no new key.
pub open spec fn key_pem_of(key: Option<PrivKey>) -> Seq<u8> {
    match key {
        Some(k) => k.pem@,
        None => Seq::empty(),
    }
}

/// The extension of a backup file: the file's own extension, a dot, the time
/// stamp, and `.bkp`.
pub open spec fn backup_extension_text(ext: Seq<char>, stamp: Seq<char>) -> Seq<char> {
    ext + "."@ + stamp + ".bkp"@
}

/// The locations found in one parsed file fit its rewriting: where the
/// locators of the objects are ordered within the content, as a parse
/// leaves them, the targets among them, grouped by path, are ordered within
/// the content in every group.
pub proof fn lemma_found_groups_in_order(
    objs: Seq<PKIObject>,
    cn: Seq<char>,
    keys: Seq<PrivKey>,
    groups: Seq<FileGroup>,
    len: int,
    g: int,
)
    requires
        ordered_within(locators_of(objs), len),
        grouped(targets(objs, cn, keys), groups),
        0 <= g < groups.len(),
    ensures
        ordered_within(groups[g].locators@, len),
{
    let found = targets(objs, cn, keys);
    lemma_filter_keeps_order(objs, target_test(cn, keys), locator_fn(), len);
    let same = |l: PEMLocator| l;
    assert(found.map_values(same) =~= found);
    lemma_filter_keeps_order(found, has_path(groups[g].path@), same, len);
    assert(found.filter(has_path(groups[g].path@)).map_values(same) =~= found.filter(
        has_path(groups[g].path@),
    ));
}

/// Decides whether a file must not be rewritten because the replacement
/// material was read from it.
pub fn is_source_file(path: &String, cert: &Cert, key: &Option<PrivKey>) -> (b: bool)
    ensures
        b == is_source(path@, *cert, *key),
{
    if *path == cert.locator.path {
        return true;
    }
    match key {
        Some(k) => *path == k.locator.path,
        None => false,
    }
}

/// Computes the new content of one file: every located span replaced by the
/// PEM text of the new certificate or the new key, by the span's kind.
/// Where the group's locators are not ascending, non-overlapping and within
/// the content, nothing is rewritten.
pub fn rewrite_file(content: Vec<u8>, group: &FileGroup, cert: &Cert, key: &Option<PrivKey>) -> (r:
    Option<Vec<u8>>)
    ensures
        match r {
            Some(out) => ordered_within(group.locators@, content.len() as int) && out@
                == rewritten(content@, group.locators@, cert.pem@, key_pem_of(*key)),
            None => !ordered_within(group.locators@, content.len() as int),
        },
{
    if !spans_ordered_within(&group.locators, content.len()) {
        return None;
    }
    let none: Vec<u8> = Vec::new();
    let out = match key {
        Some(k) => splice_pems(content, &group.locators, &cert.pem, &k.pem),
        None => splice_pems(content, &group.locators, &cert.pem, &none),
    };
    Some(out)
}

/// Builds the extension of a backup file from the file's own extension and a
/// time stamp.
pub fn backup_extension(ext: &str, stamp: &str) -> (r: String)
    ensures
        r@ == backup_extension_text(ext@, stamp@),
{
    let mut r = String::from_str(ext);
    r.append(".");
    r.append(stamp);
    r.append(".bkp");
    r
}

/// Whether `s` has the shape `YY-MM-DD-THH-MM`: fifteen characters, a dash
/// at the positions 2, 5, 8 and 12, the letter `T` at 9, and a decimal digit
/// at every other.
pub open spec fn stamp_shaped(s: Seq<char>) -> bool {
    &&& s.len() == 15
    &&& forall|i: int|
        #![trigger s[i]]
        0 <= i < 15 ==> if i == 2 || i == 5 || i == 8 || i == 12 {
            s[i] == '-'
        } else if i == 9 {
            s[i] == 'T'
        } else {
            '0' <= s[i] && s[i] <= '9'
        }
}

/// The current UTC time as `YY-MM-DD-THH-MM`, through `chrono::Utc::now`
/// and `DateTime::format`. The contract claims the shape of the text, which
/// holds of every time: five zero-padded two-digit fields, four dashes and
/// the letter `T`. Which time it shows is not stated.
#[verifier::external_body]
fn utc_stamp() -> (r: String)
    ensures
        stamp_shaped(r@),
{
    chrono::Utc::now().format("%y-%m-%d-T%H-%M").to_string()
}

/// Builds the extension of a backup file made now: the file's own
/// extension, a dot, a time stamp of the shape `YY-MM-DD-THH-MM`, and `.bkp`.
pub fn backup_extension_now(ext: &str) -> (r: String)
    ensures
        exists|stamp: Seq<char>| stamp_shaped(stamp) && r@ == backup_extension_text(ext@, stamp),
{
    let stamp = utc_stamp();
    backup_extension(ext, stamp.as_str())
}

} // verus!
