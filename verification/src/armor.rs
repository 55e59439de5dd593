//! Locating PEM armor in raw bytes: every block from its `-----BEGIN`
//! line through its `-----END` line, with the exact byte span it covers.

use vstd::prelude::*;
use crate::model::PEMKind;
use crate::splice::append_range;

verus! {

/// One armored block: its label and the half-open byte range it covers,
/// header line through footer line with the line terminator that follows.
#[derive(Clone, Debug)]
pub struct ArmorBlock {
    pub label: Vec<u8>,
    pub start: usize,
    pub end: usize,
}

/// The mathematical value of an armored block.
pub struct Span {
    pub label: Seq<u8>,
    pub start: int,
    pub end: int,
}

impl View for ArmorBlock {
    type V = Span;

    open spec fn view(&self) -> Span {
        Span { label: self.label@, start: self.start as int, end: self.end as int }
    }
}

/// The bytes of `-----`.
pub open spec fn dashes() -> Seq<u8> {
    seq![45u8, 45u8, 45u8, 45u8, 45u8]
}

/// The bytes of `-----BEGIN `.
pub open spec fn begin_marker() -> Seq<u8> {
    seq![45u8, 45u8, 45u8, 45u8, 45u8, 66u8, 69u8, 71u8, 73u8, 78u8, 32u8]
}

/// The bytes of `-----END `.
pub open spec fn end_marker() -> Seq<u8> {
    seq![45u8, 45u8, 45u8, 45u8, 45u8, 69u8, 78u8, 68u8, 32u8]
}

/// The footer that closes a block of this label: `-----END `, the label,
/// `-----`.
pub open spec fn footer(label: Seq<u8>) -> Seq<u8> {
    end_marker() + label + dashes()
}

/// Whether `pat` stands in `content` at `pos`.
pub open spec fn occurs_at(content: Seq<u8>, pat: Seq<u8>, pos: int) -> bool {
    0 <= pos && pos + pat.len() <= content.len() && content.subrange(pos, pos + pat.len()) == pat
}

/// The first position at or after `from` where `pat` stands in `content`.
pub open spec fn find_first(content: Seq<u8>, pat: Seq<u8>, from: int) -> Option<int>
    decreases content.len() - from + 1,
{
    if from < 0 || from + pat.len() > content.len() {
        None
    } else if occurs_at(content, pat, from) {
        Some(from)
    } else {
        find_first(content, pat, from + 1)
    }
}

/// The position after the line terminator that stands at `pos`, if one
/// does: `\r\n`, `\n` or `\r`.
pub open spec fn after_eol(content: Seq<u8>, pos: int) -> int {
    if pos + 1 < content.len() && content[pos] == 13u8 && content[pos + 1] == 10u8 {
        pos + 2
    } else if pos < content.len() && (content[pos] == 10u8 || content[pos] == 13u8) {
        pos + 1
    } else {
        pos
    }
}

/// The block whose header starts at `start`: the label runs to the next
/// `-----`, and the block ends behind the first footer of that label. There
/// is none where the header or the footer is cut short.
pub open spec fn block_at(content: Seq<u8>, start: int) -> Option<Span> {
    match find_first(content, dashes(), start + 11) {
        None => None,
        Some(label_end) => {
            let label = content.subrange(start + 11, label_end);
            match find_first(content, footer(label), label_end + 5) {
                None => None,
                Some(foot) => Some(
                    Span { label, start, end: after_eol(content, foot + footer(label).len()) },
                ),
            }
        },
    }
}

/// The blocks of `content` from `from` on, left to right: each starts at
/// the first `-----BEGIN ` behind the block before it. There is no result
/// where a block is cut short. (The test on a block's end only bounds the
/// recursion: by `lemma_block_bounds` a block ends behind its start and
/// within the content.)
pub open spec fn scan_from(content: Seq<u8>, from: int) -> Option<Seq<Span>>
    decreases content.len() - from,
{
    match find_first(content, begin_marker(), from) {
        None => Some(Seq::empty()),
        Some(start) => match block_at(content, start) {
            None => None,
            Some(b) => if b.end <= from || b.end > content.len() {
                None
            } else {
                match scan_from(content, b.end) {
                    None => None,
                    Some(rest) => Some(seq![b] + rest),
                }
            },
        },
    }
}

/// A position that is found lies at or after `from`, and the pattern stands
/// there.
pub proof fn lemma_find_first_bounds(content: Seq<u8>, pat: Seq<u8>, from: int)
    ensures
        match find_first(content, pat, from) {
            Some(p) => from <= p && occurs_at(content, pat, p),
            None => true,
        },
    decreases content.len() - from + 1,
{
    if from < 0 || from + pat.len() > content.len() {
    } else if occurs_at(content, pat, from) {
    } else {
        lemma_find_first_bounds(content, pat, from + 1);
    }
}

/// A block starts where its header does, ends behind its start, and lies
/// within the content.
pub proof fn lemma_block_bounds(content: Seq<u8>, start: int)
    requires
        0 <= start,
    ensures
        match block_at(content, start) {
            Some(b) => b.start == start && start < b.end <= content.len(),
            None => true,
        },
{
    lemma_find_first_bounds(content, dashes(), start + 11);
    match find_first(content, dashes(), start + 11) {
        None => {},
        Some(label_end) => {
            let label = content.subrange(start + 11, label_end);
            lemma_find_first_bounds(content, footer(label), label_end + 5);
        },
    }
}

/// The blocks are non-empty, ascending, pairwise non-overlapping, and lie
/// within the first `len` bytes.
pub open spec fn in_order(blocks: Seq<ArmorBlock>, len: int) -> bool {
    &&& forall|i: int|
        #![trigger blocks[i]]
        0 <= i < blocks.len() ==> blocks[i].start < blocks[i].end <= len
    &&& forall|i: int, j: int|
        #![trigger blocks[i], blocks[j]]
        0 <= i < j < blocks.len() ==> blocks[i].end <= blocks[j].start
}

/// The values of a sequence of blocks.
pub open spec fn spans_of(blocks: Seq<ArmorBlock>) -> Seq<Span> {
    blocks.map_values(|b: ArmorBlock| b@)
}

/// The bytes of `CERTIFICATE`.
pub open spec fn certificate_label() -> Seq<u8> {
    seq![67u8, 69u8, 82u8, 84u8, 73u8, 70u8, 73u8, 67u8, 65u8, 84u8, 69u8]
}

/// The bytes of `PRIVATE KEY`.
pub open spec fn private_key_label() -> Seq<u8> {
    seq![80u8, 82u8, 73u8, 86u8, 65u8, 84u8, 69u8, 32u8, 75u8, 69u8, 89u8]
}

/// The kind that a label stands for: `CERTIFICATE` is a certificate, a
/// label that ends in `PRIVATE KEY` is a private key, any other is not
/// recognized.
pub open spec fn kind_of_label(label: Seq<u8>) -> Option<PEMKind> {
    if label == certificate_label() {
        Some(PEMKind::Cert)
    } else if label.len() >= 11 && label.subrange(label.len() - 11, label.len() as int)
        == private_key_label() {
        Some(PEMKind::PrivKey)
    } else {
        None
    }
}

/// Decides whether `pat` stands in `content` at `pos`.
pub fn matches_at(content: &Vec<u8>, pat: &Vec<u8>, pos: usize) -> (b: bool)
    ensures
        b == occurs_at(content@, pat@, pos as int),
{
    if pat.len() > content.len() || pos > content.len() - pat.len() {
        return false;
    }
    let mut k: usize = 0;
    while k < pat.len()
        invariant
            k <= pat.len(),
            pos + pat.len() <= content.len(),
            forall|j: int| 0 <= j < k ==> content@[pos + j] == pat@[j],
        decreases pat.len() - k,
    {
        if content[pos + k] != pat[k] {
            assert(content@.subrange(pos as int, pos + pat@.len())[k as int] != pat@[k as int]);
            return false;
        }
        k += 1;
    }
    assert(content@.subrange(pos as int, pos + pat@.len()) =~= pat@);
    true
}

/// Finds the first position at or after `from` where `pat` stands.
pub fn find_marker(content: &Vec<u8>, pat: &Vec<u8>, from: usize) -> (r: Option<usize>)
    ensures
        match r {
            Some(p) => find_first(content@, pat@, from as int) == Some(p as int) && from <= p
                && p + pat.len() <= content.len(),
            None => find_first(content@, pat@, from as int) is None,
        },
{
    if pat.len() > content.len() {
        return None;
    }
    if pat.len() == 0 {
        if from <= content.len() {
            assert(content@.subrange(from as int, from as int) =~= pat@);
            return Some(from);
        }
        return None;
    }
    let last: usize = content.len() - pat.len();
    let mut i: usize = from;
    while i <= last
        invariant
            from <= i,
            last == content.len() - pat.len(),
            pat.len() > 0,
            find_first(content@, pat@, from as int) == find_first(content@, pat@, i as int),
        decreases last + 1 - i,
    {
        if matches_at(content, pat, i) {
            return Some(i);
        }
        i += 1;
    }
    None
}

/// The bytes of `-----`.
fn dashes_bytes() -> (v: Vec<u8>)
    ensures
        v@ == dashes(),
{
    let mut v: Vec<u8> = Vec::new();
    v.push(45u8);
    v.push(45u8);
    v.push(45u8);
    v.push(45u8);
    v.push(45u8);
    assert(v@ =~= dashes());
    v
}

/// The bytes of `-----BEGIN `.
fn begin_bytes() -> (v: Vec<u8>)
    ensures
        v@ == begin_marker(),
{
    let mut v = dashes_bytes();
    v.push(66u8);
    v.push(69u8);
    v.push(71u8);
    v.push(73u8);
    v.push(78u8);
    v.push(32u8);
    assert(v@ =~= begin_marker());
    v
}

/// The bytes of `-----END `.
fn end_bytes() -> (v: Vec<u8>)
    ensures
        v@ == end_marker(),
{
    let mut v = dashes_bytes();
    v.push(69u8);
    v.push(78u8);
    v.push(68u8);
    v.push(32u8);
    assert(v@ =~= end_marker());
    v
}

/// Reads the block whose header starts at `start`.
pub fn read_block(content: &Vec<u8>, start: usize) -> (r: Option<ArmorBlock>)
    ensures
        match r {
            Some(b) => block_at(content@, start as int) == Some(b@) && start < b.end
                && b.end <= content.len(),
            None => block_at(content@, start as int) is None,
        },
{
    if content.len() < 11 || start > content.len() - 11 {
        return None;
    }
    let five = dashes_bytes();
    let label_end = match find_marker(content, &five, start + 11) {
        None => {
            return None;
        },
        Some(p) => p,
    };
    let mut label: Vec<u8> = Vec::new();
    append_range(&mut label, content, start + 11, label_end);
    assert(label@ =~= content@.subrange(start + 11, label_end as int));
    let mut foot = end_bytes();
    let label_len: usize = label.len();
    append_range(&mut foot, &label, 0, label_len);
    append_range(&mut foot, &five, 0, 5);
    assert(foot@ =~= footer(label@)) by {
        assert(label@.subrange(0, label_len as int) =~= label@);
        assert(five@.subrange(0, 5) =~= five@);
    }
    let foot_at = match find_marker(content, &foot, label_end + 5) {
        None => {
            return None;
        },
        Some(p) => p,
    };
    let text_end: usize = foot_at + foot.len();
    let end: usize = if text_end < content.len() && content[text_end] == 13u8 && text_end + 1
        < content.len() && content[text_end + 1] == 10u8 {
        text_end + 2
    } else if text_end < content.len() && (content[text_end] == 10u8 || content[text_end]
        == 13u8) {
        text_end + 1
    } else {
        text_end
    };
    Some(ArmorBlock { label, start, end })
}

/// Locates every armored block of `content`, left to right. Fails where a
/// block is cut short: a header without its closing dashes, or without the
/// footer of its label.
pub fn scan_armor(content: &Vec<u8>) -> (r: Option<Vec<ArmorBlock>>)
    ensures
        match r {
            Some(blocks) => scan_from(content@, 0) == Some(spans_of(blocks@)) && in_order(
                blocks@,
                content.len() as int,
            ),
            None => scan_from(content@, 0) is None,
        },
{
    let begin = begin_bytes();
    let mut blocks: Vec<ArmorBlock> = Vec::new();
    let mut pos: usize = 0;
    assert(spans_of(blocks@) =~= Seq::<Span>::empty());
    loop
        invariant
            pos <= content.len(),
            begin@ == begin_marker(),
            in_order(blocks@, pos as int),
            match scan_from(content@, pos as int) {
                None => scan_from(content@, 0) is None,
                Some(rest) => scan_from(content@, 0) == Some(spans_of(blocks@) + rest),
            },
        decreases content.len() - pos,
    {
        let start = match find_marker(content, &begin, pos) {
            None => {
                assert(spans_of(blocks@) + Seq::<Span>::empty() =~= spans_of(blocks@));
                return Some(blocks);
            },
            Some(p) => p,
        };
        let block = match read_block(content, start) {
            None => {
                return None;
            },
            Some(b) => b,
        };
        let ghost before = spans_of(blocks@);
        let ghost span = block@;
        let next: usize = block.end;
        blocks.push(block);
        proof {
            assert(spans_of(blocks@) =~= before.push(span));
            match scan_from(content@, next as int) {
                None => {},
                Some(rest) => {
                    assert(before + (seq![span] + rest) =~= before.push(span) + rest);
                },
            }
        }
        pos = next;
    }
}

/// Classifies a label.
pub fn classify(label: &Vec<u8>) -> (r: Option<PEMKind>)
    ensures
        r == kind_of_label(label@),
{
    let mut cert: Vec<u8> = Vec::new();
    cert.push(67u8);
    cert.push(69u8);
    cert.push(82u8);
    cert.push(84u8);
    cert.push(73u8);
    cert.push(70u8);
    cert.push(73u8);
    cert.push(67u8);
    cert.push(65u8);
    cert.push(84u8);
    cert.push(69u8);
    assert(cert@ =~= certificate_label());
    let mut key: Vec<u8> = Vec::new();
    key.push(80u8);
    key.push(82u8);
    key.push(73u8);
    key.push(86u8);
    key.push(65u8);
    key.push(84u8);
    key.push(69u8);
    key.push(32u8);
    key.push(75u8);
    key.push(69u8);
    key.push(89u8);
    assert(key@ =~= private_key_label());
    if label.len() == 11 && matches_at(label, &cert, 0) {
        assert(label@.subrange(0, 11) =~= label@);
        Some(PEMKind::Cert)
    } else if label.len() >= 11 && matches_at(label, &key, label.len() - 11) {
        Some(PEMKind::PrivKey)
    } else {
        proof {
            if label@ == certificate_label() {
                assert(label@.subrange(0, 11) =~= label@);
            }
        }
        None
    }
}

} // verus!
