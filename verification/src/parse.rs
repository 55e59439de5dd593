//! Parsing a file's bytes into PKI objects: locate the armor, keep the
//! blocks whose label is recognized, decode each, and record where it sits.

use vstd::prelude::*;
use vstd::string::StringExecFns;
use crate::model::{locators_of, PEMLocator, PKIObject, ParseError};
use crate::armor::{
    Span,
    classify,
    in_order,
    kind_of_label,
    scan_armor,
    scan_from,
    spans_of,
};
use crate::decode::{decodable, decode_block, decoding_of};
use crate::splice::{append_range, ordered_within};

verus! {

/// The spans whose label is recognized, in their order.
pub open spec fn recognized(spans: Seq<Span>) -> Seq<Span> {
    spans.filter(is_recognized())
}

/// The test whether a span's label is recognized.
pub open spec fn is_recognized() -> spec_fn(Span) -> bool {
    |s: Span| kind_of_label(s.label) is Some
}

/// The locator of a recognized span in the file at `path`.
pub open spec fn locator_at(path: String, s: Span) -> PEMLocator {
    PEMLocator {
        path,
        kind: kind_of_label(s.label).unwrap(),
        start: s.start as usize,
        end: s.end as usize,
    }
}

/// The armored text of a span.
pub open spec fn armor_of(content: Seq<u8>, s: Span) -> Seq<u8> {
    content.subrange(s.start, s.end)
}

/// `objs` are the decodings of the recognized spans, one for one and in
/// order, and every recognized span decodes.
pub open spec fn objects_of(content: Seq<u8>, path: String, spans: Seq<Span>, objs: Seq<PKIObject>) -> bool {
    let rec = recognized(spans);
    &&& objs.len() == rec.len()
    &&& forall|i: int|
        #![trigger rec[i]]
        #![trigger objs[i]]
        0 <= i < rec.len() ==> decodable(armor_of(content, rec[i]), locator_at(path, rec[i]).kind)
            && decoding_of(objs[i], locator_at(path, rec[i]), armor_of(content, rec[i]))
}

/// Whether some span of a recognized label does not decode.
pub open spec fn some_undecodable(content: Seq<u8>, spans: Seq<Span>) -> bool {
    exists|j: int|
        #![trigger spans[j]]
        0 <= j < spans.len() && kind_of_label(spans[j].label) is Some && !decodable(
            armor_of(content, spans[j]),
            kind_of_label(spans[j].label).unwrap(),
        )
}

/// `objs` are the PKI objects of the file at `path` with this content.
pub open spec fn parses_to(content: Seq<u8>, path: String, objs: Seq<PKIObject>) -> bool {
    scan_from(content, 0) matches Some(spans) && objects_of(content, path, spans, objs)
}

/// Where a span of a recognized label does not decode, no objects are the
/// decodings of the spans.
pub proof fn lemma_undecodable_has_no_objects(
    content: Seq<u8>,
    path: String,
    spans: Seq<Span>,
    objs: Seq<PKIObject>,
)
    requires
        some_undecodable(content, spans),
    ensures
        !objects_of(content, path, spans, objs),
{
    let j = choose|j: int|
        #![trigger spans[j]]
        0 <= j < spans.len() && kind_of_label(spans[j].label) is Some && !decodable(
            armor_of(content, spans[j]),
            kind_of_label(spans[j].label).unwrap(),
        );
    let rec = recognized(spans);
    spans.lemma_filter_contains(is_recognized(), j);
    assert(rec.contains(spans[j]));
    let k = choose|k: int| 0 <= k < rec.len() && rec[k] == spans[j];
    assert(!decodable(armor_of(content, rec[k]), locator_at(path, rec[k]).kind));
}

/// The text of the error for armor that is cut short.
pub open spec fn truncated_text() -> Seq<char> {
    "PEM block is cut short"@
}

/// The text of the error for a block that does not decode.
pub open spec fn undecodable_text() -> Seq<char> {
    "PEM block does not decode"@
}

/// Extending a prefix of `s` by one span extends the recognized spans by
/// that span exactly when its label is recognized.
pub proof fn lemma_recognized_step(s: Seq<Span>, i: int)
    requires
        0 <= i < s.len(),
    ensures
        recognized(s.take(i + 1)) == if kind_of_label(s[i].label) is Some {
            recognized(s.take(i)).push(s[i])
        } else {
            recognized(s.take(i))
        },
{
    reveal(Seq::filter);
    assert(s.take(i + 1).drop_last() =~= s.take(i));
    assert(s.take(i + 1).last() == s[i]);
}

/// Parses the bytes of the file at `path` into its PKI objects, in the
/// order in which they stand. Blocks of an unrecognized label are passed
/// over. Fails, with no partial result, where armor is cut short or a
/// recognized block does not decode.
pub fn parse_pkiobjs(path: &String, content: &Vec<u8>) -> (r: Result<Vec<PKIObject>, ParseError>)
    ensures
        match r {
            Ok(objs) => scan_from(content@, 0) matches Some(spans) && objects_of(
                content@,
                *path,
                spans,
                objs@,
            ) && ordered_within(locators_of(objs@), content.len() as int),
            Err(e) => match scan_from(content@, 0) {
                None => e.msg@ == truncated_text(),
                Some(spans) => e.msg@ == undecodable_text() && some_undecodable(content@, spans),
            },
        },
{
    let blocks = match scan_armor(content) {
        None => {
            return Err(ParseError { msg: String::from_str("PEM block is cut short") });
        },
        Some(blocks) => blocks,
    };
    let ghost spans = spans_of(blocks@);
    let mut objs: Vec<PKIObject> = Vec::new();
    let mut i: usize = 0;
    assert(recognized(spans.take(0)) =~= Seq::<Span>::empty()) by {
        reveal(Seq::filter);
    }
    while i < blocks.len()
        invariant
            i <= blocks.len(),
            spans == spans_of(blocks@),
            scan_from(content@, 0) == Some(spans),
            in_order(blocks@, content.len() as int),
            objects_of(content@, *path, spans.take(i as int), objs@),
            forall|a: int|
                #![trigger objs@[a]]
                0 <= a < objs@.len() ==> objs@[a].spec_locator().start
                    <= objs@[a].spec_locator().end <= content.len() && (i > 0
                    ==> objs@[a].spec_locator().end <= blocks@[i - 1].end),
            objs@.len() > 0 ==> i > 0,
            forall|a: int, b: int|
                #![trigger objs@[a], objs@[b]]
                0 <= a < b < objs@.len() ==> objs@[a].spec_locator().end
                    <= objs@[b].spec_locator().start,
        decreases blocks.len() - i,
    {
        let block = &blocks[i];
        let ghost span = spans[i as int];
        let ghost before = objs@;
        proof {
            lemma_recognized_step(spans, i as int);
            assert(span == block@);
            assert(block.start < block.end <= content.len());
            if i > 0 {
                assert(blocks@[i - 1].end <= blocks@[i as int].start);
            }
        }
        match classify(&block.label) {
            None => {},
            Some(kind) => {
                let locator = PEMLocator {
                    path: path.clone(),
                    kind,
                    start: block.start,
                    end: block.end,
                };
                assert(locator == locator_at(*path, span));
                let mut armor: Vec<u8> = Vec::new();
                append_range(&mut armor, content, block.start, block.end);
                assert(armor@ =~= armor_of(content@, span));
                match decode_block(locator, &armor) {
                    None => {
                        assert(kind_of_label(spans[i as int].label) is Some && !decodable(
                            armor_of(content@, spans[i as int]),
                            kind_of_label(spans[i as int].label).unwrap(),
                        ));
                        assert(some_undecodable(content@, spans));
                        return Err(
                            ParseError { msg: String::from_str("PEM block does not decode") },
                        );
                    },
                    Some(obj) => {
                        assert(obj.spec_locator() == locator);
                        objs.push(obj);
                        proof {
                            let rec = recognized(spans.take(i + 1));
                            assert forall|t: int|
                                #![trigger rec[t]]
                                #![trigger objs@[t]]
                                0 <= t < rec.len() implies decodable(
                                armor_of(content@, rec[t]),
                                locator_at(*path, rec[t]).kind,
                            ) && decoding_of(
                                objs@[t],
                                locator_at(*path, rec[t]),
                                armor_of(content@, rec[t]),
                            ) by {
                                if t < before.len() {
                                    assert(objs@[t] == before[t]);
                                    assert(rec[t] == recognized(spans.take(i as int))[t]);
                                }
                            }
                            assert forall|a: int, b: int|
                                #![trigger objs@[a], objs@[b]]
                                0 <= a < b < objs@.len() implies objs@[a].spec_locator().end
                                <= objs@[b].spec_locator().start by {
                                assert(objs@[a] == before[a]);
                                if b < before.len() {
                                    assert(objs@[b] == before[b]);
                                }
                            }
                            assert forall|a: int|
                                #![trigger objs@[a]]
                                0 <= a < objs@.len() implies objs@[a].spec_locator().start
                                <= objs@[a].spec_locator().end <= content.len()
                                && objs@[a].spec_locator().end <= blocks@[i as int].end by {
                                if a < before.len() {
                                    assert(objs@[a] == before[a]);
                                }
                            }
                        }
                    },
                }
            },
        }
        proof {
            assert forall|a: int|
                #![trigger objs@[a]]
                0 <= a < objs@.len() implies objs@[a].spec_locator().end <= blocks@[i as int].end by {
                if a < before.len() {
                    assert(objs@[a] == before[a]);
                }
            }
        }
        i += 1;
    }
    proof {
        assert(spans.take(i as int) =~= spans);
        let locs = locators_of(objs@);
        assert forall|a: int| #![trigger locs[a]] 0 <= a < locs.len() implies locs[a].start
            <= locs[a].end <= content.len() by {
            assert(locs[a] == objs@[a].spec_locator());
        }
        assert forall|a: int, b: int|
            #![trigger locs[a], locs[b]]
            0 <= a < b < locs.len() implies locs[a].end <= locs[b].start by {
            assert(locs[a] == objs@[a].spec_locator());
            assert(locs[b] == objs@[b].spec_locator());
        }
    }
    Ok(objs)
}

} // verus!
