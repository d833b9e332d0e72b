//! What the alignment finds, said without the index: the counterpart of a
//! base line is the first line of the target, in document order, that stands
//! in the same section and can stand for it.
use vstd::prelude::*;

use crate::diff::{
    align, bucket, bucket_upto, find_in, first_hit, header_in, index_of, lemma_first_hit,
    section_of, Probe, SectionId,
};
use crate::parser::Line;

verus! {

/// The least index `j >= from` at which `lines` holds, in `section`, a line
/// that `probe` hits, or `lines.len()` if there is none.
pub open spec fn first_match(lines: Seq<Line>, section: SectionId, probe: Probe, from: int) -> int
    decreases lines.len() - from,
{
    if from >= lines.len() {
        lines.len() as int
    } else if section_of(lines, from) == section && probe.hits(lines[from]) {
        from
    } else {
        first_match(lines, section, probe, from + 1)
    }
}

/// The line of `lines` at `first_match`, if there is one.
pub open spec fn matched(lines: Seq<Line>, section: SectionId, probe: Probe) -> Option<Line> {
    let j = first_match(lines, section, probe, 0);
    if j < lines.len() {
        Some(lines[j])
    } else {
        None
    }
}

/// `first_match` lies between `from` and the end, skips no line of the
/// section that the probe hits, and stops on such a line.
pub proof fn lemma_first_match(lines: Seq<Line>, section: SectionId, probe: Probe, from: int)
    requires
        0 <= from <= lines.len(),
    ensures
        from <= first_match(lines, section, probe, from) <= lines.len(),
        forall|k: int|
            from <= k < first_match(lines, section, probe, from) ==> !(section_of(lines, k)
                == section && probe.hits(#[trigger] lines[k])),
        first_match(lines, section, probe, from) < lines.len() ==> {
            let j = first_match(lines, section, probe, from);
            section_of(lines, j) == section && probe.hits(lines[j])
        },
    decreases lines.len() - from,
{
    if from < lines.len() && !(section_of(lines, from) == section && probe.hits(lines[from])) {
        lemma_first_match(lines, section, probe, from + 1);
    }
}

/// A bucket only grows as more lines are taken in, and what it holds stays.
proof fn lemma_bucket_grows(lines: Seq<Line>, section: SectionId, n: int, m: int)
    requires
        0 <= n <= m,
    ensures
        bucket_upto(lines, section, n).len() <= bucket_upto(lines, section, m).len(),
        forall|k: int|
            0 <= k < bucket_upto(lines, section, n).len() ==> bucket_upto(lines, section, m)[k]
                == bucket_upto(lines, section, n)[k],
    decreases m - n,
{
    if n < m {
        lemma_bucket_grows(lines, section, n, m - 1);
    }
}

/// A line of the section stands in the bucket, at the place that the number
/// of the section's lines before it gives.
proof fn lemma_bucket_holds_line(lines: Seq<Line>, section: SectionId, j: int, m: int)
    requires
        0 <= j < m,
        section_of(lines, j) == section,
    ensures
        bucket_upto(lines, section, j).len() < bucket_upto(lines, section, m).len(),
        bucket_upto(lines, section, m)[bucket_upto(lines, section, j).len() as int] == lines[j],
{
    lemma_bucket_grows(lines, section, j + 1, m);
}

/// Every line of a bucket is a line of the section: the index that it came
/// from.
proof fn lemma_bucket_origin(lines: Seq<Line>, section: SectionId, m: int, k: int) -> (j: int)
    requires
        0 <= k < bucket_upto(lines, section, m).len(),
    ensures
        0 <= j < m,
        section_of(lines, j) == section,
        bucket_upto(lines, section, j).len() == k,
        lines[j] == bucket_upto(lines, section, m)[k],
    decreases m,
{
    if section_of(lines, m - 1) == section && k == bucket_upto(lines, section, m - 1).len() {
        m - 1
    } else {
        lemma_bucket_origin(lines, section, m - 1, k)
    }
}

/// Searching the bucket of a section finds the first line of the document
/// that stands in the section and that the probe hits.
pub proof fn lemma_find_in_bucket(lines: Seq<Line>, section: SectionId, probe: Probe)
    ensures
        find_in(bucket(lines, section), probe) == matched(lines, section, probe),
{
    let n = lines.len() as int;
    let held = bucket(lines, section);
    let j = first_match(lines, section, probe, 0);
    let k = first_hit(held, probe, 0);
    lemma_first_match(lines, section, probe, 0);
    lemma_first_hit(held, probe, 0);
    if j < n {
        // line `j` stands in the bucket at place `r`, so the search of the
        // bucket stops there or before
        lemma_bucket_holds_line(lines, section, j, n);
        let r = bucket_upto(lines, section, j).len() as int;
        if k < r {
            // a hit before `r` would come from a line before `j`
            let origin = lemma_bucket_origin(lines, section, n, k);
            if origin >= j {
                lemma_bucket_grows(lines, section, j, origin);
            }
            assert(false);
        }
    } else if k < held.len() {
        // a hit in the bucket would come from a line that `first_match` met
        let origin = lemma_bucket_origin(lines, section, n, k);
        assert(false);
    }
}

/// The first line that the index holds for a named section is a header with
/// that name: the first such header of the document.
pub proof fn lemma_header_in_index(lines: Seq<Line>, name: Seq<char>)
    ensures
        header_in(index_of(lines), SectionId::Named(name)) == matched(
            lines,
            SectionId::Named(name),
            Probe::Header(name),
        ),
{
    let n = lines.len() as int;
    let section = SectionId::Named(name);
    let held = bucket(lines, section);
    lemma_find_in_bucket(lines, section, Probe::Header(name));
    if held.len() > 0 {
        // the first line of the bucket cannot have inherited the section
        // from the line before it, so it is the header itself
        let origin = lemma_bucket_origin(lines, section, n, 0);
        assert(lines[origin] is Section);
    }
}

/// The counterpart of a base line is the first line of the target that
/// stands in the base line's section and can stand for it, wherever in the
/// target that section and that line are.
pub proof fn lemma_counterpart_is_first_match(base: Seq<Line>, target: Seq<Line>, i: int)
    requires
        0 <= i < base.len(),
    ensures
        align(base, target)[i].target == matched(
            target,
            section_of(base, i),
            Probe::of(base[i]),
        ),
{
    let section = section_of(base, i);
    let probe = Probe::of(base[i]);
    lemma_find_in_bucket(target, section, probe);
    match base[i] {
        Line::Section { name, .. } => {
            lemma_header_in_index(target, name);
        },
        _ => {},
    }
}

/// The section in force at line `i` is `Global` exactly when no header
/// stands at or before `i`.
pub proof fn lemma_global_means_no_header(lines: Seq<Line>, i: int)
    ensures
        section_of(lines, i) is Global <==> forall|m: int|
            0 <= m <= i ==> !(#[trigger] lines[m] is Section),
    decreases i + 1,
{
    if i >= 0 {
        lemma_global_means_no_header(lines, i - 1);
    }
}

/// A counterpart stands in the same section of the target as its base line
/// does in the base: no line is ever paired across sections.
pub proof fn lemma_section_isolation(base: Seq<Line>, target: Seq<Line>, i: int)
    requires
        0 <= i < base.len(),
    ensures
        ({
            let j = first_match(target, section_of(base, i), Probe::of(base[i]), 0);
            &&& align(base, target)[i].target is Some <==> j < target.len()
            &&& j < target.len() ==> {
                &&& align(base, target)[i].target == Some(target[j])
                &&& section_of(target, j) == section_of(base, i)
                &&& Probe::of(base[i]).hits(target[j])
            }
        }),
{
    lemma_counterpart_is_first_match(base, target, i);
    lemma_first_match(target, section_of(base, i), Probe::of(base[i]), 0);
}

/// A base line finds a counterpart wherever in the target a line stands that
/// is in the same section and can stand for it: the order of the target's
/// sections and lines does not matter.
pub proof fn lemma_found_wherever_it_stands(base: Seq<Line>, target: Seq<Line>, i: int, j: int)
    requires
        0 <= i < base.len(),
        0 <= j < target.len(),
        section_of(target, j) == section_of(base, i),
        Probe::of(base[i]).hits(target[j]),
    ensures
        align(base, target)[i].target is Some,
{
    lemma_section_isolation(base, target, i);
    lemma_first_match(target, section_of(base, i), Probe::of(base[i]), 0);
}

/// A line that stands before the first header of the base is only ever
/// paired with a line that stands before the first header of the target.
pub proof fn lemma_global_isolation(base: Seq<Line>, target: Seq<Line>, i: int)
    requires
        0 <= i < base.len(),
        forall|m: int| 0 <= m <= i ==> !(#[trigger] base[m] is Section),
    ensures
        ({
            let j = first_match(target, SectionId::Global, Probe::of(base[i]), 0);
            &&& align(base, target)[i].target is Some <==> j < target.len()
            &&& j < target.len() ==> {
                &&& align(base, target)[i].target == Some(target[j])
                &&& forall|m: int| 0 <= m <= j ==> !(#[trigger] target[m] is Section)
            }
        }),
{
    lemma_global_means_no_header(base, i);
    lemma_section_isolation(base, target, i);
    let j = first_match(target, SectionId::Global, Probe::of(base[i]), 0);
    if j < target.len() {
        lemma_global_means_no_header(target, j);
    }
}

} // verus!
