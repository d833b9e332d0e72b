//! Merging: the rendered lines of a comparison, taken as the new target
//! document, and what a second comparison of the base with that document
//! finds.
use vstd::prelude::*;

use crate::diff::{align, section_of, DiffEntry, Probe};
use crate::matching::{first_match, lemma_first_match, lemma_section_isolation};
use crate::parser::{classify, classify_text, lemma_key_alone, lemma_key_value_reassembles, Line};
use crate::report::{rendered, status_of, tally, Status};
use crate::text::{
    is_blank, join_lines, lemma_lines_hold_no_feed, lemma_split_joined, split_lines,
    survives_writing,
};

verus! {

/// The merged document, read back: every rendered line, classified.
pub open spec fn merged(all: Seq<DiffEntry>) -> Seq<Line> {
    Seq::new(all.len(), |i: int| classify(rendered(all[i])))
}

/// What a line's status becomes once the merged document has taken the
/// target's place.
///
/// A line that was there stays as it was, emptied or not: merging keeps the
/// target's own text. A missing line is there afterwards; if it is a
/// key/value line it was added with no value, so it counts as emptied where
/// the base has a value.
pub open spec fn settled(first: DiffEntry) -> Status {
    match status_of(first) {
        Status::Present => Status::Present,
        Status::Emptied => Status::Emptied,
        Status::Missing => {
            if first.base matches Line::KeyValue { value, .. } && !is_blank(value) {
                Status::Emptied
            } else {
                Status::Present
            }
        },
    }
}

/// Whether every line of `lines` is the classification of its own raw text,
/// as the lines of a document that was read are.
pub open spec fn as_read(lines: Seq<Line>) -> bool {
    forall|i: int| 0 <= i < lines.len() ==> classify((#[trigger] lines[i]).raw()) == lines[i]
}

/// The lines of a text are as read.
pub proof fn lemma_text_as_read(text: Seq<char>)
    ensures
        as_read(classify_text(text)),
{
}

/// The merged line for a base line can stand for it. It is the counterpart
/// where there was one, and a key/value line without value where a key/value
/// line was missing.
proof fn lemma_merged_line(base: Seq<Line>, target: Seq<Line>, i: int)
    requires
        as_read(base),
        as_read(target),
        0 <= i < base.len(),
    ensures
        ({
            let first = align(base, target)[i];
            let line = merged(align(base, target))[i];
            &&& Probe::of(base[i]).hits(line)
            &&& first.target matches Some(found) ==> line == found
            &&& first.target is None && base[i] is KeyValue ==> line is KeyValue && line->value
                == Seq::<char>::empty()
        }),
{
    lemma_section_isolation(base, target, i);
    lemma_first_match(target, section_of(base, i), Probe::of(base[i]), 0);
    lemma_key_alone(base[i].raw());
}

/// The merged document has the sections of the base, line for line.
proof fn lemma_merged_sections(base: Seq<Line>, target: Seq<Line>, i: int)
    requires
        as_read(base),
        as_read(target),
        i < base.len(),
    ensures
        section_of(merged(align(base, target)), i) == section_of(base, i),
    decreases i + 1,
{
    if i >= 0 {
        lemma_merged_line(base, target, i);
        lemma_merged_sections(base, target, i - 1);
    }
}

/// Comparing the base with the merged document gives every line the status
/// that [`settled`] names.
pub proof fn lemma_second_pass(base: Seq<Line>, target: Seq<Line>, i: int)
    requires
        as_read(base),
        as_read(target),
        0 <= i < base.len(),
    ensures
        status_of(align(base, merged(align(base, target)))[i]) == settled(align(base, target)[i]),
{
    let first = align(base, target);
    let again = merged(first);
    let section = section_of(base, i);
    let probe = Probe::of(base[i]);
    lemma_section_isolation(base, again, i);
    lemma_first_match(again, section, probe, 0);
    // merged line `i` stands in the section of base line `i` and can stand
    // for it, so the search stops at some `j <= i`
    lemma_merged_line(base, target, i);
    lemma_merged_sections(base, target, i);
    let j = first_match(again, section, probe, 0);
    // base line `j` stands in the same section and asks for the same thing,
    // so its first counterpart was that of base line `i`
    lemma_merged_line(base, target, j);
    lemma_merged_sections(base, target, j);
}

/// After a merge nothing is missing: the second comparison finds a
/// counterpart for every line of the base.
pub proof fn lemma_merge_leaves_nothing_missing(base_text: Seq<char>, target_text: Seq<char>)
    ensures
        ({
            let base = classify_text(base_text);
            let first = align(base, classify_text(target_text));
            tally(align(base, merged(first)), Status::Missing, base.len() as int) == 0
        }),
{
    let base = classify_text(base_text);
    let target = classify_text(target_text);
    let second = align(base, merged(align(base, target)));
    assert forall|i: int| 0 <= i < base.len() implies status_of(#[trigger] second[i])
        != Status::Missing by {
        lemma_second_pass(base, target, i);
    }
    lemma_tally_none(second, Status::Missing, base.len() as int);
}

/// Where the first comparison finds no emptied value, and no missing
/// key/value line for which the base has a value, the second comparison
/// finds nothing missing and nothing emptied.
pub proof fn lemma_merge_is_idempotent(base_text: Seq<char>, target_text: Seq<char>)
    requires
        ({
            let first = align(classify_text(base_text), classify_text(target_text));
            forall|i: int| 0 <= i < first.len() ==> settled(#[trigger] first[i]) == Status::Present
        }),
    ensures
        ({
            let base = classify_text(base_text);
            let second = align(base, merged(align(base, classify_text(target_text))));
            &&& tally(second, Status::Missing, base.len() as int) == 0
            &&& tally(second, Status::Emptied, base.len() as int) == 0
        }),
{
    let base = classify_text(base_text);
    let target = classify_text(target_text);
    let first = align(base, target);
    let second = align(base, merged(first));
    assert forall|i: int| 0 <= i < base.len() implies status_of(#[trigger] second[i])
        == Status::Present by {
        lemma_second_pass(base, target, i);
    }
    lemma_tally_none(second, Status::Missing, base.len() as int);
    lemma_tally_none(second, Status::Emptied, base.len() as int);
}

/// Where none of the first `n` entries has the status, the tally is zero.
proof fn lemma_tally_none(all: Seq<DiffEntry>, status: Status, n: int)
    requires
        forall|i: int| 0 <= i < n ==> status_of(#[trigger] all[i]) != status,
    ensures
        tally(all, status, n) == 0,
    decreases n,
{
    if n > 0 {
        lemma_tally_none(all, status, n - 1);
    }
}

/// The rendered lines of an alignment.
pub open spec fn rendered_lines(all: Seq<DiffEntry>) -> Seq<Seq<char>> {
    Seq::new(all.len(), |i: int| rendered(all[i]))
}

/// The merged document as text: every rendered line, each ended by a line
/// feed.
pub open spec fn merged_text(all: Seq<DiffEntry>) -> Seq<char> {
    join_lines(rendered_lines(all))
}

/// A rendered line holds no line feed.
proof fn lemma_rendered_holds_no_feed(base_text: Seq<char>, target_text: Seq<char>, i: int)
    requires
        0 <= i < split_lines(base_text).len(),
    ensures
        ({
            let first = align(classify_text(base_text), classify_text(target_text));
            forall|k: int|
                0 <= k < rendered(first[i]).len() ==> #[trigger] rendered(first[i])[k] != '\n'
        }),
{
    let base = classify_text(base_text);
    let target = classify_text(target_text);
    let first = align(base, target);
    let own = split_lines(base_text)[i];
    lemma_lines_hold_no_feed(base_text, 0);
    lemma_lines_hold_no_feed(target_text, 0);
    if first[i].target is Some {
        // the counterpart is a line of the target
        lemma_section_isolation(base, target, i);
        lemma_first_match(target, section_of(base, i), Probe::of(base[i]), 0);
    } else if base[i] is KeyValue {
        // key and separator are the beginning of the base line
        lemma_key_value_reassembles(own);
        let text = rendered(first[i]);
        assert forall|k: int| 0 <= k < text.len() implies #[trigger] text[k] != '\n' by {
            assert(text[k] == own[k]);
        }
    }
}

/// Where no rendered line ends in a carriage return, the merged document,
/// written as text and split into lines again, is read back as [`merged`]
/// has it.
pub proof fn lemma_merged_text_reads_back(base_text: Seq<char>, target_text: Seq<char>)
    requires
        ({
            let first = align(classify_text(base_text), classify_text(target_text));
            forall|i: int|
                0 <= i < first.len() && rendered(first[i]).len() > 0 ==> (#[trigger] rendered(
                    first[i],
                )).last() != '\r'
        }),
    ensures
        ({
            let first = align(classify_text(base_text), classify_text(target_text));
            classify_text(merged_text(first)) == merged(first)
        }),
{
    let first = align(classify_text(base_text), classify_text(target_text));
    let written = rendered_lines(first);
    assert forall|i: int| 0 <= i < written.len() implies survives_writing(
        #[trigger] written[i],
    ) by {
        lemma_rendered_holds_no_feed(base_text, target_text, i);
    }
    lemma_split_joined(written);
}

/// The same for documents as text: where the first comparison settles
/// every line as present and no rendered line ends in a carriage return,
/// comparing the base with the text of the merged document finds nothing
/// missing and nothing emptied.
pub proof fn lemma_merge_is_idempotent_on_text(base_text: Seq<char>, target_text: Seq<char>)
    requires
        ({
            let first = align(classify_text(base_text), classify_text(target_text));
            &&& forall|i: int|
                0 <= i < first.len() ==> settled(#[trigger] first[i]) == Status::Present
            &&& forall|i: int|
                0 <= i < first.len() && rendered(first[i]).len() > 0 ==> (#[trigger] rendered(
                    first[i],
                )).last() != '\r'
        }),
    ensures
        ({
            let base = classify_text(base_text);
            let first = align(base, classify_text(target_text));
            let second = align(base, classify_text(merged_text(first)));
            &&& tally(second, Status::Missing, base.len() as int) == 0
            &&& tally(second, Status::Emptied, base.len() as int) == 0
        }),
{
    lemma_merged_text_reads_back(base_text, target_text);
    lemma_merge_is_idempotent(base_text, target_text);
}

} // verus!
