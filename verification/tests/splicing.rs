use certswap::group::{group_index, pems_by_path, FileGroup};
use certswap::model::{Cert, PEMKind, PEMLocator, PrivKey};
use certswap::replace::{backup_extension, backup_extension_now, is_source_file, rewrite_file};
use certswap::splice::{append_range, spans_ordered_within, splice_pems};

fn loc(path: &str, kind: PEMKind, start: usize, end: usize) -> PEMLocator {
    PEMLocator { path: path.to_string(), kind, start, end }
}

#[test]
fn longer_and_shorter_replacements_keep_the_rest() {
    let content = b"aaa[CERT-OLD]bbb[KEY]ccc[CERT-OLD]ddd".to_vec();
    let locs = vec![
        loc("f", PEMKind::Cert, 3, 13),
        loc("f", PEMKind::PrivKey, 16, 21),
        loc("f", PEMKind::Cert, 24, 34),
    ];
    let out = splice_pems(content, &locs, &b"<C>".to_vec(), &b"<LONGER-KEY>".to_vec());
    assert_eq!(out, b"aaa<C>bbb<LONGER-KEY>ccc<C>ddd".to_vec());
}

#[test]
fn replacing_a_subset_leaves_other_blocks() {
    let content = b"[one][two][three]".to_vec();
    let locs = vec![loc("f", PEMKind::Cert, 5, 10)];
    let out = splice_pems(content, &locs, &b"[a much longer two]".to_vec(), &Vec::new());
    assert_eq!(out, b"[one][a much longer two][three]".to_vec());
}

#[test]
fn no_locators_leave_the_content() {
    let content = b"unchanged".to_vec();
    let out = splice_pems(content.clone(), &Vec::new(), &b"x".to_vec(), &b"y".to_vec());
    assert_eq!(out, content);
}

#[test]
fn adjacent_and_boundary_spans() {
    let content = b"AABB".to_vec();
    let locs = vec![loc("f", PEMKind::Cert, 0, 2), loc("f", PEMKind::PrivKey, 2, 4)];
    let out = splice_pems(content, &locs, &b"cert".to_vec(), &b"k".to_vec());
    assert_eq!(out, b"certk".to_vec());
}

#[test]
fn same_length_replacement_has_no_drift() {
    let content = b"..XXXX..YYYY..".to_vec();
    let locs = vec![loc("f", PEMKind::Cert, 2, 6), loc("f", PEMKind::Cert, 8, 12)];
    let out = splice_pems(content, &locs, &b"abcd".to_vec(), &Vec::new());
    assert_eq!(out, b"..abcd..abcd..".to_vec());
}

#[test]
fn span_order_is_checked() {
    let ok = vec![loc("f", PEMKind::Cert, 0, 2), loc("f", PEMKind::Cert, 2, 5)];
    assert!(spans_ordered_within(&ok, 5));
    assert!(!spans_ordered_within(&ok, 4));
    let overlapping = vec![loc("f", PEMKind::Cert, 0, 3), loc("f", PEMKind::Cert, 2, 5)];
    assert!(!spans_ordered_within(&overlapping, 10));
    let descending = vec![loc("f", PEMKind::Cert, 4, 6), loc("f", PEMKind::Cert, 0, 2)];
    assert!(!spans_ordered_within(&descending, 10));
    let reversed = vec![loc("f", PEMKind::Cert, 3, 2)];
    assert!(!spans_ordered_within(&reversed, 10));
    assert!(spans_ordered_within(&Vec::new(), 0));
}

#[test]
fn append_range_copies_the_range() {
    let mut dst = b"ab".to_vec();
    append_range(&mut dst, &b"0123456".to_vec(), 2, 5);
    assert_eq!(dst, b"ab234".to_vec());
    append_range(&mut dst, &b"0123456".to_vec(), 3, 3);
    assert_eq!(dst, b"ab234".to_vec());
}

#[test]
fn locators_are_grouped_by_path_in_order() {
    let pems = vec![
        loc("a.pem", PEMKind::Cert, 0, 10),
        loc("b.pem", PEMKind::Cert, 5, 15),
        loc("a.pem", PEMKind::PrivKey, 20, 30),
        loc("c.pem", PEMKind::PrivKey, 1, 2),
        loc("b.pem", PEMKind::PrivKey, 40, 50),
    ];
    let groups = pems_by_path(pems);
    assert_eq!(groups.len(), 3);
    let a = &groups[group_index(&groups, &"a.pem".to_string()).unwrap()];
    assert_eq!(a.locators.len(), 2);
    assert_eq!((a.locators[0].start, a.locators[0].kind), (0, PEMKind::Cert));
    assert_eq!((a.locators[1].start, a.locators[1].kind), (20, PEMKind::PrivKey));
    let b = &groups[group_index(&groups, &"b.pem".to_string()).unwrap()];
    assert_eq!(b.locators.len(), 2);
    assert_eq!(b.locators[0].start, 5);
    assert_eq!(b.locators[1].start, 40);
    let c = &groups[group_index(&groups, &"c.pem".to_string()).unwrap()];
    assert_eq!(c.locators.len(), 1);
    assert_eq!(group_index(&groups, &"d.pem".to_string()), None);
    assert!(pems_by_path(Vec::new()).is_empty());
}

fn new_cert(path: &str) -> Cert {
    Cert {
        common_name: "svc1".to_string(),
        pem: b"<NEW-CERT>".to_vec(),
        public_key: Some(b"pub".to_vec()),
        locator: loc(path, PEMKind::Cert, 0, 4),
    }
}

fn new_key(path: &str) -> PrivKey {
    PrivKey {
        pem: b"<NEW-KEY>".to_vec(),
        public_key: b"pub".to_vec(),
        locator: loc(path, PEMKind::PrivKey, 0, 4),
    }
}

#[test]
fn source_files_are_left_alone() {
    let cert = new_cert("new/cert.pem");
    let key = Some(new_key("new/key.pem"));
    assert!(is_source_file(&"new/cert.pem".to_string(), &cert, &key));
    assert!(is_source_file(&"new/key.pem".to_string(), &cert, &key));
    assert!(!is_source_file(&"etc/app.conf".to_string(), &cert, &key));
    assert!(!is_source_file(&"new/key.pem".to_string(), &cert, &None));
    assert!(!is_source_file(&"".to_string(), &cert, &None));
}

#[test]
fn rewrite_replaces_certificate_and_key() {
    let content = b"head\n[old cert]\nmid\n[old key]\ntail\n".to_vec();
    let group = FileGroup {
        path: "a.pem".to_string(),
        locators: vec![loc("a.pem", PEMKind::Cert, 5, 15), loc("a.pem", PEMKind::PrivKey, 20, 29)],
    };
    let out = rewrite_file(content, &group, &new_cert("n.pem"), &Some(new_key("k.pem"))).unwrap();
    assert_eq!(out, b"head\n<NEW-CERT>\nmid\n<NEW-KEY>\ntail\n".to_vec());
}

#[test]
fn rewrite_refuses_spans_that_do_not_fit() {
    let group = FileGroup {
        path: "a.pem".to_string(),
        locators: vec![loc("a.pem", PEMKind::Cert, 5, 50)],
    };
    assert_eq!(rewrite_file(b"short".to_vec(), &group, &new_cert("n.pem"), &None), None);
}

#[test]
fn backup_extension_has_the_stamp_between() {
    assert_eq!(backup_extension("pem", "24-01-31-T09-05"), "pem.24-01-31-T09-05.bkp");
    assert_eq!(backup_extension("", "24-01-31-T09-05"), ".24-01-31-T09-05.bkp");
}

#[test]
fn backup_extension_now_has_the_stamp_shape() {
    let ext = backup_extension_now("conf");
    assert!(ext.starts_with("conf."));
    assert!(ext.ends_with(".bkp"));
    let stamp = &ext["conf.".len()..ext.len() - ".bkp".len()];
    assert_eq!(stamp.len(), 15);
    let bytes = stamp.as_bytes();
    for (i, b) in bytes.iter().enumerate() {
        match i {
            2 | 5 | 8 | 12 => assert_eq!(*b, b'-'),
            9 => assert_eq!(*b, b'T'),
            _ => assert!(b.is_ascii_digit()),
        }
    }
}
