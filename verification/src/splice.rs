//! The replacement engine: splicing new PEM text into the byte spans that
//! locators record, with one running drift that translates recorded
//! coordinates into current ones.

use vstd::prelude::*;
use crate::model::{PEMKind, PEMLocator};

verus! {

/// The replacement bytes for a locator: by its kind, the certificate's PEM
/// or the private key's.
pub open spec fn replacement(loc: PEMLocator, cert_pem: Seq<u8>, key_pem: Seq<u8>) -> Seq<u8> {
    match loc.kind {
        PEMKind::Cert => cert_pem,
        PEMKind::PrivKey => key_pem,
    }
}

/// The locators are well formed, ascending by `start`, pairwise
/// non-overlapping, and all lie within a content of `len` bytes.
pub open spec fn ordered_within(locs: Seq<PEMLocator>, len: int) -> bool {
    &&& forall|i: int|
        #![trigger locs[i]]
        0 <= i < locs.len() ==> locs[i].start <= locs[i].end <= len
    &&& forall|i: int, j: int|
        #![trigger locs[i], locs[j]]
        0 <= i < j < locs.len() ==> locs[i].end <= locs[j].start
}

/// Where the span before the `k`-th one ends in the content as it was read (0
/// for the first).
pub open spec fn last_end(locs: Seq<PEMLocator>, k: int) -> int {
    if k <= 0 {
        0
    } else {
        locs[k - 1].end as int
    }
}

/// The net change of length that replacing the first `k` spans brings.
pub open spec fn drift(locs: Seq<PEMLocator>, cert_pem: Seq<u8>, key_pem: Seq<u8>, k: int) -> int
    decreases k,
{
    if k <= 0 {
        0
    } else {
        drift(locs, cert_pem, key_pem, k - 1) + replacement(locs[k - 1], cert_pem, key_pem).len()
            - locs[k - 1].span()
    }
}

/// The rewritten content up to and including the `k`-th replacement: for
/// each of the first `k` spans in turn, the untouched bytes between the span
/// before it and itself, then its replacement.
pub open spec fn rewritten_prefix(
    content: Seq<u8>,
    locs: Seq<PEMLocator>,
    cert_pem: Seq<u8>,
    key_pem: Seq<u8>,
    k: int,
) -> Seq<u8>
    decreases k,
{
    if k <= 0 {
        Seq::empty()
    } else {
        rewritten_prefix(content, locs, cert_pem, key_pem, k - 1) + content.subrange(
            last_end(locs, k - 1),
            locs[k - 1].start as int,
        ) + replacement(locs[k - 1], cert_pem, key_pem)
    }
}

/// The content with every span replaced: the rewritten prefix over all
/// locators, then the untouched bytes after the last span.
pub open spec fn rewritten(
    content: Seq<u8>,
    locs: Seq<PEMLocator>,
    cert_pem: Seq<u8>,
    key_pem: Seq<u8>,
) -> Seq<u8> {
    rewritten_prefix(content, locs, cert_pem, key_pem, locs.len() as int) + content.subrange(
        last_end(locs, locs.len() as int),
        content.len() as int,
    )
}

/// The rewritten prefix is as long as the given content up to the last replaced
/// span, plus the drift.
pub proof fn lemma_prefix_len(
    content: Seq<u8>,
    locs: Seq<PEMLocator>,
    cert_pem: Seq<u8>,
    key_pem: Seq<u8>,
    k: int,
)
    requires
        ordered_within(locs, content.len() as int),
        0 <= k <= locs.len(),
    ensures
        rewritten_prefix(content, locs, cert_pem, key_pem, k).len() == last_end(locs, k) + drift(
            locs,
            cert_pem,
            key_pem,
            k,
        ),
        0 <= last_end(locs, k) <= content.len(),
    decreases k,
{
    if k > 0 {
        lemma_prefix_len(content, locs, cert_pem, key_pem, k - 1);
        assert(locs[k - 1].start <= locs[k - 1].end);
        if k > 1 {
            assert(locs[k - 2].end <= locs[k - 1].start);
        }
    }
}

/// The rewritten prefix over the first `k` spans starts the rewritten prefix
/// over the first `n`, for `k <= n`.
pub proof fn lemma_prefix_grows(
    content: Seq<u8>,
    locs: Seq<PEMLocator>,
    cert_pem: Seq<u8>,
    key_pem: Seq<u8>,
    k: int,
    n: int,
)
    requires
        0 <= k <= n <= locs.len(),
    ensures
        rewritten_prefix(content, locs, cert_pem, key_pem, k).len() <= rewritten_prefix(
            content,
            locs,
            cert_pem,
            key_pem,
            n,
        ).len(),
        rewritten_prefix(content, locs, cert_pem, key_pem, n).subrange(
            0,
            rewritten_prefix(content, locs, cert_pem, key_pem, k).len() as int,
        ) == rewritten_prefix(content, locs, cert_pem, key_pem, k),
    decreases n - k,
{
    let small = rewritten_prefix(content, locs, cert_pem, key_pem, k);
    let big = rewritten_prefix(content, locs, cert_pem, key_pem, n);
    if k < n {
        lemma_prefix_grows(content, locs, cert_pem, key_pem, k, n - 1);
        let mid = rewritten_prefix(content, locs, cert_pem, key_pem, n - 1);
        assert(big.subrange(0, mid.len() as int) =~= mid);
        assert(big.subrange(0, small.len() as int) =~= mid.subrange(0, small.len() as int));
    } else {
        assert(big.subrange(0, small.len() as int) =~= small);
    }
}

/// Every replaced span holds exactly its replacement: in the rewritten
/// content the `k`-th replacement stands at the span's recorded start moved
/// by the drift of the spans before it.
pub proof fn lemma_span_replaced(
    content: Seq<u8>,
    locs: Seq<PEMLocator>,
    cert_pem: Seq<u8>,
    key_pem: Seq<u8>,
    k: int,
)
    requires
        ordered_within(locs, content.len() as int),
        0 <= k < locs.len(),
    ensures
        ({
            let out = rewritten(content, locs, cert_pem, key_pem);
            let new_text = replacement(locs[k], cert_pem, key_pem);
            let at = locs[k].start + drift(locs, cert_pem, key_pem, k);
            &&& 0 <= at
            &&& at + new_text.len() <= out.len()
            &&& out.subrange(at, at + new_text.len()) == new_text
        }),
{
    let out = rewritten(content, locs, cert_pem, key_pem);
    let upto = rewritten_prefix(content, locs, cert_pem, key_pem, k + 1);
    let before = rewritten_prefix(content, locs, cert_pem, key_pem, k);
    let new_text = replacement(locs[k], cert_pem, key_pem);
    let at = locs[k].start + drift(locs, cert_pem, key_pem, k);
    lemma_prefix_len(content, locs, cert_pem, key_pem, k);
    lemma_prefix_grows(content, locs, cert_pem, key_pem, k + 1, locs.len() as int);
    assert(locs[k].start <= locs[k].end);
    if k > 0 {
        assert(locs[k - 1].end <= locs[k].start);
    }
    assert(at == before.len() + (locs[k].start - last_end(locs, k)));
    assert(out.subrange(0, upto.len() as int) =~= upto);
    assert(out.subrange(at, at + new_text.len()) =~= upto.subrange(at, at + new_text.len()));
    assert(upto.subrange(at, at + new_text.len()) =~= new_text);
}

/// Every byte outside the replaced spans is kept: the bytes between the
/// span before the `k`-th and the `k`-th itself (for `k` the number of
/// locators: the bytes after the last span) stand unchanged in the rewritten
/// content, moved by the drift of the spans before them.
pub proof fn lemma_gap_preserved(
    content: Seq<u8>,
    locs: Seq<PEMLocator>,
    cert_pem: Seq<u8>,
    key_pem: Seq<u8>,
    k: int,
)
    requires
        ordered_within(locs, content.len() as int),
        0 <= k <= locs.len(),
    ensures
        ({
            let out = rewritten(content, locs, cert_pem, key_pem);
            let lo = last_end(locs, k);
            let hi = if k < locs.len() {
                locs[k].start as int
            } else {
                content.len() as int
            };
            let d = drift(locs, cert_pem, key_pem, k);
            &&& 0 <= lo <= hi <= content.len()
            &&& 0 <= lo + d
            &&& hi + d <= out.len()
            &&& out.subrange(lo + d, hi + d) == content.subrange(lo, hi)
        }),
{
    let out = rewritten(content, locs, cert_pem, key_pem);
    let before = rewritten_prefix(content, locs, cert_pem, key_pem, k);
    let lo = last_end(locs, k);
    let d = drift(locs, cert_pem, key_pem, k);
    lemma_prefix_len(content, locs, cert_pem, key_pem, k);
    if k < locs.len() {
        let hi = locs[k].start as int;
        let upto = rewritten_prefix(content, locs, cert_pem, key_pem, k + 1);
        lemma_prefix_grows(content, locs, cert_pem, key_pem, k + 1, locs.len() as int);
        assert(locs[k].start <= locs[k].end);
        if k > 0 {
            assert(locs[k - 1].end <= locs[k].start);
        }
        assert(out.subrange(0, upto.len() as int) =~= upto);
        assert(out.subrange(lo + d, hi + d) =~= upto.subrange(lo + d, hi + d));
        assert(upto.subrange(lo + d, hi + d) =~= content.subrange(lo, hi));
    } else {
        let hi = content.len() as int;
        assert(out.subrange(lo + d, hi + d) =~= content.subrange(lo, hi));
    }
}

/// Selecting among items whose locators are in order keeps the order: where
/// the locators that `f` gives of the items of `s` are ordered within `len`
/// bytes, so are those of the items that meet `pred`.
pub proof fn lemma_filter_keeps_order<A>(
    s: Seq<A>,
    pred: spec_fn(A) -> bool,
    f: spec_fn(A) -> PEMLocator,
    len: int,
)
    requires
        ordered_within(s.map_values(f), len),
    ensures
        ordered_within(s.filter(pred).map_values(f), len),
    decreases s.len(),
{
    reveal(Seq::filter);
    if s.len() > 0 {
        let front = s.drop_last();
        let all = s.map_values(f);
        let front_all = front.map_values(f);
        assert forall|i: int| #![trigger front_all[i]] 0 <= i < front_all.len() implies front_all[i].start
            <= front_all[i].end <= len by {
            assert(front_all[i] == all[i]);
        }
        assert forall|i: int, j: int|
            #![trigger front_all[i], front_all[j]]
            0 <= i < j < front_all.len() implies front_all[i].end <= front_all[j].start by {
            assert(front_all[i] == all[i]);
            assert(front_all[j] == all[j]);
        }
        lemma_filter_keeps_order(front, pred, f, len);
        let kept = front.filter(pred);
        let kept_locs = kept.map_values(f);
        let out = s.filter(pred).map_values(f);
        if pred(s.last()) {
            assert(s.filter(pred) == kept.push(s.last()));
            assert forall|i: int| #![trigger out[i]] 0 <= i < out.len() implies out[i].start
                <= out[i].end <= len by {
                if i < kept.len() {
                    assert(out[i] == kept_locs[i]);
                } else {
                    assert(out[i] == all[s.len() - 1]);
                }
            }
            assert forall|i: int, j: int|
                #![trigger out[i], out[j]]
                0 <= i < j < out.len() implies out[i].end <= out[j].start by {
                if j < kept.len() {
                    assert(out[i] == kept_locs[i]);
                    assert(out[j] == kept_locs[j]);
                } else {
                    assert(out[j] == all[s.len() - 1]);
                    assert(kept.contains(kept[i]));
                    front.lemma_filter_contains_rev(pred, kept[i]);
                    let k = choose|k: int| 0 <= k < front.len() && front[k] == kept[i];
                    assert(out[i] == all[k]);
                }
            }
        } else {
            assert(out =~= kept_locs);
        }
    }
}

/// Whether the locators are ordered, non-overlapping and within `len` bytes.
pub fn spans_ordered_within(locs: &Vec<PEMLocator>, len: usize) -> (b: bool)
    ensures
        b == ordered_within(locs@, len as int),
{
    let mut prev: usize = 0;
    let mut i: usize = 0;
    while i < locs.len()
        invariant
            i <= locs.len(),
            prev == last_end(locs@, i as int),
            prev <= len,
            ordered_within(locs@.take(i as int), len as int),
        decreases locs.len() - i,
    {
        let loc = &locs[i];
        if loc.start < prev || loc.end < loc.start || len < loc.end {
            proof {
                if loc.start < prev {
                    assert(locs@[i - 1].end > locs@[i as int].start);
                }
            }
            return false;
        }
        proof {
            let next = locs@.take(i + 1);
            assert forall|a: int, b: int|
                #![trigger next[a], next[b]]
                0 <= a < b < next.len() implies next[a].end <= next[b].start by {
                if b < i {
                    assert(locs@.take(i as int)[a].end <= locs@.take(i as int)[b].start);
                } else if a == i - 1 {
                } else {
                    assert(locs@.take(i as int)[a].end <= locs@.take(i as int)[i - 1].start);
                    assert(locs@.take(i as int)[i - 1].start <= locs@.take(i as int)[i - 1].end);
                }
            }
            assert forall|a: int|
                #![trigger next[a]]
                0 <= a < next.len() implies next[a].start <= next[a].end <= len by {
                if a < i {
                    assert(locs@.take(i as int)[a].start <= locs@.take(i as int)[a].end);
                }
            }
        }
        prev = loc.end;
        i += 1;
    }
    assert(locs@.take(i as int) =~= locs@);
    true
}

/// Appends the bytes `src[from..to]` to `dst`.
pub fn append_range(dst: &mut Vec<u8>, src: &Vec<u8>, from: usize, to: usize)
    requires
        from <= to <= src.len(),
    ensures
        final(dst)@ == old(dst)@ + src@.subrange(from as int, to as int),
{
    let mut i: usize = from;
    while i < to
        invariant
            from <= i <= to <= src.len(),
            dst@ == old(dst)@ + src@.subrange(from as int, i as int),
        decreases to - i,
    {
        dst.push(src[i]);
        assert(src@.subrange(from as int, i + 1) =~= src@.subrange(from as int, i as int).push(
            src@[i as int],
        ));
        assert(dst@ =~= old(dst)@ + src@.subrange(from as int, i + 1));
        i += 1;
    }
}

/// Replaces in `content` the span of every locator by the PEM text of the
/// locator's kind. The locators are applied in their order; one running
/// drift, the net change of length so far, moves each recorded span to
/// where it stands in the current content.
pub fn splice_pems(
    content: Vec<u8>,
    locs: &Vec<PEMLocator>,
    cert_pem: &Vec<u8>,
    key_pem: &Vec<u8>,
) -> (out: Vec<u8>)
    requires
        ordered_within(locs@, content.len() as int),
    ensures
        out@ == rewritten(content@, locs@, cert_pem@, key_pem@),
{
    let ghost orig = content@;
    let mut current = content;
    let mut offset: i128 = 0;
    let mut k: usize = 0;
    while k < locs.len()
        invariant
            k <= locs.len(),
            orig.len() <= usize::MAX,
            ordered_within(locs@, orig.len() as int),
            offset == drift(locs@, cert_pem@, key_pem@, k as int),
            current@ == rewritten_prefix(orig, locs@, cert_pem@, key_pem@, k as int) + orig.subrange(
                last_end(locs@, k as int),
                orig.len() as int,
            ),
        decreases locs.len() - k,
    {
        let loc = &locs[k];
        let pem = match loc.kind {
            PEMKind::Cert => cert_pem,
            PEMKind::PrivKey => key_pem,
        };
        proof {
            lemma_prefix_len(orig, locs@, cert_pem@, key_pem@, k as int);
            assert(locs@[k as int].start <= locs@[k as int].end <= orig.len());
            if k > 0 {
                assert(locs@[k - 1].end <= locs@[k as int].start);
            }
        }
        let ghost head = rewritten_prefix(orig, locs@, cert_pem@, key_pem@, k as int);
        let ghost from = last_end(locs@, k as int);
        assert(current@.len() == head.len() + orig.len() - from);
        let current_len = current.len();
        assert(offset == current_len - orig.len());
        let shifted_start: i128 = loc.start as i128 + offset;
        let shifted_end: i128 = loc.end as i128 + offset;
        let start: usize = if shifted_start < 0 { 0 } else { shifted_start as usize };
        let end: usize = if shifted_end < 0 { 0 } else { shifted_end as usize };
        assert(start == head.len() + loc.start - from);
        assert(end == head.len() + loc.end - from);
        let mut next: Vec<u8> = Vec::new();
        append_range(&mut next, &current, 0, start);
        append_range(&mut next, pem, 0, pem.len());
        append_range(&mut next, &current, end, current_len);
        proof {
            assert(current@.subrange(0, start as int) =~= head + orig.subrange(
                from,
                loc.start as int,
            ));
            assert(current@.subrange(end as int, current@.len() as int) =~= orig.subrange(
                loc.end as int,
                orig.len() as int,
            ));
            assert(pem@.subrange(0, pem@.len() as int) =~= pem@);
            assert(next@ =~= rewritten_prefix(orig, locs@, cert_pem@, key_pem@, k + 1)
                + orig.subrange(last_end(locs@, k + 1), orig.len() as int));
        }
        offset = offset + pem.len() as i128 - (loc.end as i128 - loc.start as i128);
        current = next;
        k += 1;
    }
    current
}

} // verus!
