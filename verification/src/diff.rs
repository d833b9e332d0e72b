//! The structural differ: the target document is indexed by section, and
//! every line of the base document is paired with its counterpart there.
use vstd::prelude::*;

use crate::parser::{classify_text, line_views, parse_ini_lines, IniLine, Line};
use crate::text::split_lines;

verus! {

/// The section that a line stands in.
#[derive(Debug, PartialEq, Eq)]
pub enum SectionType {
    /// Before the first section header of the document.
    Global,
    /// Under a header with this exact name.
    Named(String),
}

/// The mathematical value of a [`SectionType`].
pub enum SectionId {
    Global,
    Named(Seq<char>),
}

impl View for SectionType {
    type V = SectionId;

    open spec fn view(&self) -> SectionId {
        match *self {
            SectionType::Global => SectionId::Global,
            SectionType::Named(name) => SectionId::Named(name@),
        }
    }
}

impl Clone for SectionType {
    fn clone(&self) -> (copy: Self)
        ensures
            copy == *self,
    {
        match self {
            SectionType::Global => SectionType::Global,
            SectionType::Named(name) => SectionType::Named(name.clone()),
        }
    }
}

impl SectionType {
    /// Whether the two are the same section: both global, or both named with
    /// equal names.
    pub fn same(&self, other: &SectionType) -> (b: bool)
        ensures
            b == (self@ == other@),
    {
        match (self, other) {
            (SectionType::Global, SectionType::Global) => true,
            (SectionType::Named(a), SectionType::Named(b)) => *a == *b,
            _ => false,
        }
    }
}

/// The section in force at line `i` of `lines`: the one that the nearest
/// header at or before `i` opens, or `Global` where there is none. A header
/// stands in the section that it opens.
pub open spec fn section_of(lines: Seq<Line>, i: int) -> SectionId
    decreases i + 1,
{
    if i < 0 {
        SectionId::Global
    } else {
        match lines[i] {
            Line::Section { name, .. } => SectionId::Named(name),
            _ => section_of(lines, i - 1),
        }
    }
}

/// The lines among the first `n` of `lines` that stand in `section`, in
/// document order.
pub open spec fn bucket_upto(lines: Seq<Line>, section: SectionId, n: int) -> Seq<Line>
    decreases n,
{
    if n <= 0 {
        Seq::empty()
    } else if section_of(lines, n - 1) == section {
        bucket_upto(lines, section, n - 1).push(lines[n - 1])
    } else {
        bucket_upto(lines, section, n - 1)
    }
}

/// All lines of `lines` that stand in `section`, in document order.
pub open spec fn bucket(lines: Seq<Line>, section: SectionId) -> Seq<Line> {
    bucket_upto(lines, section, lines.len() as int)
}

/// The document index: every section that holds at least one line, with its
/// lines.
pub open spec fn index_of(lines: Seq<Line>) -> Map<SectionId, Seq<Line>> {
    Map::new(
        |section: SectionId| bucket(lines, section).len() > 0,
        |section: SectionId| bucket(lines, section),
    )
}

/// What a lookup searches for.
pub enum Probe {
    /// A section header with this name.
    Header(Seq<char>),
    /// A key/value line with this key.
    Key(Seq<char>),
    /// A line that is neither header nor key/value and has this text.
    Raw(Seq<char>),
}

impl Probe {
    /// Whether `line` is what the probe looks for.
    pub open spec fn hits(self, line: Line) -> bool {
        match self {
            Probe::Header(wanted) => line matches Line::Section { name, .. } && name == wanted,
            Probe::Key(wanted) => line matches Line::KeyValue { key, .. } && key == wanted,
            Probe::Raw(wanted) => line matches Line::Other { raw } && raw == wanted,
        }
    }

    /// The probe that finds the lines that can stand for the base line
    /// `base`: a header of the same name, a key/value line with the same key,
    /// another line with the same text.
    pub open spec fn of(base: Line) -> Probe {
        match base {
            Line::Section { name, .. } => Probe::Header(name),
            Line::KeyValue { key, .. } => Probe::Key(key),
            Line::Other { raw } => Probe::Raw(raw),
        }
    }
}

/// The least index `i >= from` at which `lines` holds a line that `probe`
/// hits, or `lines.len()` if there is none.
pub open spec fn first_hit(lines: Seq<Line>, probe: Probe, from: int) -> int
    decreases lines.len() - from,
{
    if from >= lines.len() {
        lines.len() as int
    } else if probe.hits(lines[from]) {
        from
    } else {
        first_hit(lines, probe, from + 1)
    }
}

/// The first line of `lines` that `probe` hits, if any.
pub open spec fn find_in(lines: Seq<Line>, probe: Probe) -> Option<Line> {
    let i = first_hit(lines, probe, 0);
    if i < lines.len() {
        Some(lines[i])
    } else {
        None
    }
}

/// `first_hit` lies between `from` and the end, skips only lines that the
/// probe misses, and stops on a line that it hits.
pub proof fn lemma_first_hit(lines: Seq<Line>, probe: Probe, from: int)
    requires
        0 <= from <= lines.len(),
    ensures
        from <= first_hit(lines, probe, from) <= lines.len(),
        forall|k: int|
            from <= k < first_hit(lines, probe, from) ==> !probe.hits(#[trigger] lines[k]),
        first_hit(lines, probe, from) < lines.len() ==> probe.hits(
            lines[first_hit(lines, probe, from)],
        ),
    decreases lines.len() - from,
{
    if from < lines.len() && !probe.hits(lines[from]) {
        lemma_first_hit(lines, probe, from + 1);
    }
}

/// The header of `section` in `index`: the first line held for a named
/// section. `Global` has none.
pub open spec fn header_in(index: Map<SectionId, Seq<Line>>, section: SectionId) -> Option<Line> {
    if section is Named && index.dom().contains(section) && index[section].len() > 0 {
        Some(index[section][0])
    } else {
        None
    }
}

/// The first line that `probe` hits among those that `index` holds for
/// `section`.
pub open spec fn probe_in(
    index: Map<SectionId, Seq<Line>>,
    section: SectionId,
    probe: Probe,
) -> Option<Line> {
    if index.dom().contains(section) {
        find_in(index[section], probe)
    } else {
        None
    }
}

/// The counterpart of the base line `base`, which stands in `section`, in a
/// target document with the index `index`.
///
/// A header is paired with the header of its section, a key/value line with
/// the first key/value line of the section that has the same key, any other
/// line with the first such line of the section that has the same text.
pub open spec fn counterpart(
    index: Map<SectionId, Seq<Line>>,
    section: SectionId,
    base: Line,
) -> Option<Line> {
    match base {
        Line::Section { .. } => header_in(index, section),
        Line::KeyValue { key, .. } => probe_in(index, section, Probe::Key(key)),
        Line::Other { raw } => probe_in(index, section, Probe::Raw(raw)),
    }
}

/// The view of an optional line.
pub open spec fn option_view(line: Option<IniLine>) -> Option<Line> {
    match line {
        Some(l) => Some(l@),
        None => None,
    }
}

/// One section of a document together with the lines that stand in it.
struct Bucket {
    section: SectionType,
    lines: Vec<IniLine>,
}

/// The index of a document: its lines grouped by section.
///
/// No section is held twice and no section is held without lines.
pub struct Ast {
    sections: Vec<Bucket>,
}

/// No two of `sections` are for the same section, and each holds a line.
spec fn well_formed(sections: Seq<Bucket>) -> bool {
    &&& forall|a: int, b: int|
        0 <= a < b < sections.len() ==> (#[trigger] sections[a]).section@
            != (#[trigger] sections[b]).section@
    &&& forall|a: int| 0 <= a < sections.len() ==> (#[trigger] sections[a]).lines.len() > 0
}

/// Whether `sections` holds a bucket for `section`.
spec fn holds(sections: Seq<Bucket>, section: SectionId) -> bool {
    exists|a: int| 0 <= a < sections.len() && (#[trigger] sections[a]).section@ == section
}

/// The place of the bucket for `section` in `sections`.
spec fn place(sections: Seq<Bucket>, section: SectionId) -> int {
    choose|a: int| 0 <= a < sections.len() && (#[trigger] sections[a]).section@ == section
}

/// Finds the bucket for `section`.
fn find_bucket(sections: &Vec<Bucket>, section: &SectionType) -> (found: Option<usize>)
    requires
        well_formed(sections@),
    ensures
        match found {
            Some(a) => a < sections.len() && sections[a as int].section@ == section@ && place(
                sections@,
                section@,
            ) == a,
            None => !holds(sections@, section@),
        },
{
    let mut a: usize = 0;
    while a < sections.len()
        invariant
            a <= sections.len(),
            well_formed(sections@),
            forall|b: int| 0 <= b < a ==> (#[trigger] sections[b]).section@ != section@,
        decreases sections.len() - a,
    {
        if sections[a].section.same(section) {
            return Some(a);
        }
        a += 1;
    }
    None
}

/// The first key/value line of `lines` whose key is `target_key`.
fn find_key(lines: &Vec<IniLine>, target_key: &str) -> (found: Option<IniLine>)
    ensures
        option_view(found) == find_in(line_views(lines@), Probe::Key(target_key@)),
{
    let ghost probe = Probe::Key(target_key@);
    let mut i: usize = 0;
    while i < lines.len()
        invariant
            i <= lines.len(),
            probe == Probe::Key(target_key@),
            first_hit(line_views(lines@), probe, 0) == first_hit(
                line_views(lines@),
                probe,
                i as int,
            ),
        decreases lines.len() - i,
    {
        if let IniLine::KeyValue { key, .. } = &lines[i] {
            if *key.as_str() == *target_key {
                return Some(lines[i].clone());
            }
        }
        i += 1;
    }
    None
}

/// The first line of `lines` that is neither header nor key/value and whose
/// text is exactly `target_raw`.
fn find_other(lines: &Vec<IniLine>, target_raw: &str) -> (found: Option<IniLine>)
    ensures
        option_view(found) == find_in(line_views(lines@), Probe::Raw(target_raw@)),
{
    let ghost probe = Probe::Raw(target_raw@);
    let mut i: usize = 0;
    while i < lines.len()
        invariant
            i <= lines.len(),
            probe == Probe::Raw(target_raw@),
            first_hit(line_views(lines@), probe, 0) == first_hit(
                line_views(lines@),
                probe,
                i as int,
            ),
        decreases lines.len() - i,
    {
        if let IniLine::Other { raw } = &lines[i] {
            if *raw.as_str() == *target_raw {
                return Some(lines[i].clone());
            }
        }
        i += 1;
    }
    None
}

impl View for Ast {
    type V = Map<SectionId, Seq<Line>>;

    closed spec fn view(&self) -> Map<SectionId, Seq<Line>> {
        Map::new(
            |section: SectionId| holds(self.sections@, section),
            |section: SectionId| line_views(self.sections[place(self.sections@, section)].lines@),
        )
    }
}

impl Ast {
    #[verifier::type_invariant]
    spec fn inv(&self) -> bool {
        well_formed(self.sections@)
    }

    /// Indexes the document `text`.
    pub fn new(text: &str) -> (ast: Ast)
        ensures
            ast@ == index_of(classify_text(text@)),
    {
        Ast::from_lines(parse_ini_lines(text))
    }

    /// Indexes a document that has been classified.
    pub fn from_lines(lines: Vec<IniLine>) -> (ast: Ast)
        ensures
            ast@ == index_of(line_views(lines@)),
    {
        let ghost all = line_views(lines@);
        let mut sections: Vec<Bucket> = Vec::new();
        let mut current = SectionType::Global;
        for line in it: lines
            invariant
                line_views(it.seq()) == all,
                well_formed(sections@),
                current@ == section_of(all, it.index() - 1),
                forall|a: int|
                    0 <= a < sections.len() ==> line_views((#[trigger] sections[a]).lines@)
                        == bucket_upto(all, sections[a].section@, it.index()),
                forall|section: SectionId|
                    (#[trigger] bucket_upto(all, section, it.index())).len() > 0 ==> holds(
                        sections@,
                        section,
                    ),
        {
            let ghost k = it.index();
            assert(all[k] == line@);
            if let IniLine::Section { name, .. } = &line {
                current = SectionType::Named(name.clone());
            }
            let ghost before = sections@;
            let ghost at: int;
            match find_bucket(&sections, &current) {
                Some(a) => {
                    sections[a].lines.push(line);
                    proof {
                        at = a as int;
                    }
                },
                None => {
                    let mut lines: Vec<IniLine> = Vec::new();
                    lines.push(line);
                    sections.push(Bucket { section: current.clone(), lines });
                    proof {
                        at = before.len() as int;
                    }
                },
            }
            proof {
                assert(sections[at].section@ == current@);
                assert forall|section: SectionId|
                    (#[trigger] bucket_upto(all, section, k + 1)).len() > 0 implies holds(
                    sections@,
                    section,
                ) by {
                    if section != current@ {
                        assert(bucket_upto(all, section, k).len() > 0);
                        let b = place(before, section);
                        assert(sections[b].section@ == section);
                    }
                }
            }
        }
        let ast = Ast { sections };
        ast
    }

    /// The header line of a named section: the first line that the index
    /// holds for it. `Global` has no header.
    pub fn get_section(&self, section: &SectionType) -> (found: Option<IniLine>)
        ensures
            option_view(found) == header_in(self@, section@),
    {
        proof {
            use_type_invariant(self);
        }
        match section {
            SectionType::Global => None,
            SectionType::Named(_) => match find_bucket(&self.sections, section) {
                Some(a) => Some(self.sections[a].lines[0].clone()),
                None => None,
            },
        }
    }

    /// The first key/value line of `section` whose key is `target_key`.
    pub fn get_key(&self, section: &SectionType, target_key: &str) -> (found: Option<IniLine>)
        ensures
            option_view(found) == probe_in(self@, section@, Probe::Key(target_key@)),
    {
        proof {
            use_type_invariant(self);
        }
        match find_bucket(&self.sections, section) {
            Some(a) => find_key(&self.sections[a].lines, target_key),
            None => None,
        }
    }

    /// The first line of `section` that is neither header nor key/value and
    /// whose text is exactly `target_raw`.
    pub fn get_other(&self, section: &SectionType, target_raw: &str) -> (found: Option<IniLine>)
        ensures
            option_view(found) == probe_in(self@, section@, Probe::Raw(target_raw@)),
    {
        proof {
            use_type_invariant(self);
        }
        match find_bucket(&self.sections, section) {
            Some(a) => find_other(&self.sections[a].lines, target_raw),
            None => None,
        }
    }
}

/// A line of the base document and its counterpart in the target document.
#[derive(Debug, PartialEq, Eq)]
pub struct DiffResult {
    /// The counterpart, or `None` where the target has none.
    pub target: Option<IniLine>,
    /// The line of the base document.
    pub base: IniLine,
}

/// The mathematical value of a [`DiffResult`].
pub struct DiffEntry {
    pub target: Option<Line>,
    pub base: Line,
}

impl View for DiffResult {
    type V = DiffEntry;

    open spec fn view(&self) -> DiffEntry {
        DiffEntry { target: option_view(self.target), base: self.base@ }
    }
}

impl Clone for DiffResult {
    fn clone(&self) -> (copy: Self)
        ensures
            copy == *self,
    {
        let target = match &self.target {
            Some(line) => Some(line.clone()),
            None => None,
        };
        DiffResult { target, base: self.base.clone() }
    }
}

/// The views of the results of `v`.
pub open spec fn entries(v: Seq<DiffResult>) -> Seq<DiffEntry> {
    Seq::new(v.len(), |i: int| v[i]@)
}

/// The alignment of the base lines `base` with the target lines `target`:
/// one entry per base line, in order, each with the counterpart that the
/// target's index holds in the base line's section.
pub open spec fn align(base: Seq<Line>, target: Seq<Line>) -> Seq<DiffEntry> {
    Seq::new(
        base.len(),
        |i: int|
            DiffEntry {
                target: counterpart(index_of(target), section_of(base, i), base[i]),
                base: base[i],
            },
    )
}

/// Compares the base document with the target document: one result per line
/// of the base, in the order of the base.
pub fn diff(base_text: &str, target_text: &str) -> (results: Vec<DiffResult>)
    ensures
        results.len() == split_lines(base_text@).len(),
        entries(results@) == align(classify_text(base_text@), classify_text(target_text@)),
{
    let target_lines = parse_ini_lines(target_text);
    let base_lines = parse_ini_lines(base_text);
    diff_lines(base_lines, target_lines)
}

/// Compares two documents that have been classified: one result per line of
/// the base, in the order of the base.
pub fn diff_lines(base_lines: Vec<IniLine>, target_lines: Vec<IniLine>) -> (results: Vec<
    DiffResult,
>)
    ensures
        results.len() == base_lines.len(),
        entries(results@) == align(line_views(base_lines@), line_views(target_lines@)),
{
    let ghost base = line_views(base_lines@);
    let ghost target = line_views(target_lines@);
    let target_ast = Ast::from_lines(target_lines);
    let mut current = SectionType::Global;
    let mut results: Vec<DiffResult> = Vec::with_capacity(base_lines.len());
    for line in it: base_lines
        invariant
            line_views(it.seq()) == base,
            target_ast@ == index_of(target),
            current@ == section_of(base, it.index() - 1),
            results.len() == it.index(),
            forall|k: int|
                0 <= k < it.index() ==> (#[trigger] results[k])@ == align(base, target)[k],
    {
        let ghost k = it.index();
        let target_line = match &line {
            IniLine::Section { name, .. } => {
                current = SectionType::Named(name.clone());
                target_ast.get_section(&current)
            },
            IniLine::KeyValue { key, .. } => target_ast.get_key(&current, key.as_str()),
            IniLine::Other { raw } => target_ast.get_other(&current, raw.as_str()),
        };
        results.push(DiffResult { target: target_line, base: line });
    }
    results
}

} // verus!
