//! Reordering: the alignment looks at the target only through its buckets,
//! so moving whole sections of the target about changes nothing.
use vstd::prelude::*;

use crate::diff::{align, bucket, bucket_upto, index_of, section_of, Probe, SectionId};
use crate::parser::Line;

verus! {

/// Whether `lines` is empty or begins with a section header, so that none of
/// its lines falls into a section opened before it.
pub open spec fn opens_with_header(lines: Seq<Line>) -> bool {
    lines.len() > 0 ==> lines[0] is Section
}

/// Whether `lines` holds a header named `name`.
pub open spec fn has_header(lines: Seq<Line>, name: Seq<char>) -> bool {
    exists|j: int| 0 <= j < lines.len() && Probe::Header(name).hits(#[trigger] lines[j])
}

/// Two targets with the same buckets give the same alignment, whatever the
/// base: only the order of the lines within each section counts.
pub proof fn lemma_alignment_depends_on_buckets(
    base: Seq<Line>,
    target: Seq<Line>,
    other: Seq<Line>,
)
    requires
        forall|section: SectionId| bucket(target, section) == bucket(other, section),
    ensures
        align(base, target) == align(base, other),
{
}

/// In `front + back` the lines of `front` stand in the sections that they
/// stand in within `front` alone.
proof fn lemma_section_in_front(front: Seq<Line>, back: Seq<Line>, i: int)
    requires
        i < front.len(),
    ensures
        section_of(front + back, i) == section_of(front, i),
    decreases i + 1,
{
    if i >= 0 {
        lemma_section_in_front(front, back, i - 1);
    }
}

/// Where `back` opens with a header, its lines stand in `front + back` in the
/// sections that they stand in within `back` alone.
proof fn lemma_section_in_back(front: Seq<Line>, back: Seq<Line>, j: int)
    requires
        opens_with_header(back),
        0 <= j < back.len(),
    ensures
        section_of(front + back, front.len() + j) == section_of(back, j),
    decreases j,
{
    if j > 0 && !(back[j] is Section) {
        lemma_section_in_back(front, back, j - 1);
    }
}

/// Where `back` opens with a header, a bucket of `front + back` is the bucket
/// of `front` followed by the bucket of `back`.
proof fn lemma_bucket_of_concat(front: Seq<Line>, back: Seq<Line>, section: SectionId, n: int)
    requires
        opens_with_header(back),
        0 <= n <= front.len() + back.len(),
    ensures
        bucket_upto(front + back, section, n) == if n <= front.len() {
            bucket_upto(front, section, n)
        } else {
            bucket(front, section) + bucket_upto(back, section, n - front.len())
        },
    decreases n,
{
    if n > 0 {
        lemma_bucket_of_concat(front, back, section, n - 1);
        if n <= front.len() {
            lemma_section_in_front(front, back, n - 1);
        } else {
            let j = n - 1 - front.len();
            lemma_section_in_back(front, back, j);
            let held = bucket_upto(back, section, j);
            assert(bucket(front, section) + held.push(back[j]) =~= (bucket(front, section)
                + held).push(back[j]));
        }
    }
}

/// Where `lines` opens with a header, every line of it stands in a section
/// that one of its own headers names.
proof fn lemma_sections_are_named_within(lines: Seq<Line>, j: int)
    requires
        opens_with_header(lines),
        0 <= j < lines.len(),
    ensures
        section_of(lines, j) matches SectionId::Named(name) && has_header(lines, name),
    decreases j,
{
    if !(lines[j] is Section) {
        lemma_sections_are_named_within(lines, j - 1);
    }
}

/// Where `lines` opens with a header, only the sections that its headers
/// name have lines.
proof fn lemma_bucket_needs_header(lines: Seq<Line>, section: SectionId, n: int)
    requires
        opens_with_header(lines),
        0 <= n <= lines.len(),
        bucket_upto(lines, section, n).len() > 0,
    ensures
        section matches SectionId::Named(name) && has_header(lines, name),
    decreases n,
{
    if section_of(lines, n - 1) == section {
        lemma_sections_are_named_within(lines, n - 1);
    } else {
        lemma_bucket_needs_header(lines, section, n - 1);
    }
}

/// Two runs of whole sections that share no section name can change places
/// in the target, and the alignment stays what it was.
///
/// The target is `before + first + second + after`. Each of `first`,
/// `second` and `after` opens with a header, so that each run is made of
/// whole sections.
pub proof fn lemma_sections_can_change_places(
    base: Seq<Line>,
    before: Seq<Line>,
    first: Seq<Line>,
    second: Seq<Line>,
    after: Seq<Line>,
)
    requires
        opens_with_header(first),
        opens_with_header(second),
        opens_with_header(after),
        forall|name: Seq<char>| !(has_header(first, name) && has_header(second, name)),
    ensures
        align(base, before + first + second + after) == align(
            base,
            before + second + first + after,
        ),
{
    let target = before + first + second + after;
    let other = before + second + first + after;
    assert forall|section: SectionId| bucket(target, section) == bucket(other, section) by {
        lemma_bucket_of_concat(before, first, section, (before + first).len() as int);
        lemma_bucket_of_concat(
            before + first,
            second,
            section,
            (before + first + second).len() as int,
        );
        lemma_bucket_of_concat(before + first + second, after, section, target.len() as int);
        lemma_bucket_of_concat(before, second, section, (before + second).len() as int);
        lemma_bucket_of_concat(
            before + second,
            first,
            section,
            (before + second + first).len() as int,
        );
        lemma_bucket_of_concat(before + second + first, after, section, other.len() as int);
        if bucket(first, section).len() > 0 {
            lemma_bucket_needs_header(first, section, first.len() as int);
            if bucket(second, section).len() > 0 {
                lemma_bucket_needs_header(second, section, second.len() as int);
            }
        }
    }
    lemma_alignment_depends_on_buckets(base, target, other);
}

} // verus!
