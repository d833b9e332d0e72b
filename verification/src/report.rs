//! What a comparison amounts to: for every line of the base document the
//! text to show or to write, and whether its counterpart is there, is there
//! with its value emptied, or is missing.
use vstd::prelude::*;
use vstd::string::StringExecFns;

use crate::diff::{entries, DiffEntry, DiffResult};
use crate::parser::{IniLine, Line};
use crate::text::{blank, is_blank, join_lines};

verus! {

/// How the target document stands to one line of the base document.
#[derive(Debug, Clone, Copy, PartialEq, Eq, Structural)]
pub enum Status {
    /// The target has a counterpart, and nothing is wrong with it.
    Present,
    /// The target has the key, but its value is blank where the base has one.
    Emptied,
    /// The target has no counterpart.
    Missing,
}

impl Status {
    /// The status of a key/value line whose counterpart is a key/value line,
    /// given which of the two values are blank: emptied where the target's
    /// is and the base's is not.
    pub open spec fn of_values(target_blank: bool, base_blank: bool) -> Status {
        if target_blank && !base_blank {
            Status::Emptied
        } else {
            Status::Present
        }
    }

    /// Tells an emptied value from one that is present, given which of the
    /// two values are blank.
    pub fn from_values(target_blank: bool, base_blank: bool) -> (status: Status)
        ensures
            status == Status::of_values(target_blank, base_blank),
    {
        if target_blank && !base_blank {
            Status::Emptied
        } else {
            Status::Present
        }
    }
}

/// The status of one entry of an alignment: missing without a counterpart;
/// where both lines are key/value lines, what [`Status::of_values`] makes of
/// their values; present in every other case.
pub open spec fn status_of(entry: DiffEntry) -> Status {
    match entry.target {
        None => Status::Missing,
        Some(target) => match (entry.base, target) {
            (
                Line::KeyValue { value: base_value, .. },
                Line::KeyValue { value: target_value, .. },
            ) => Status::of_values(is_blank(target_value), is_blank(base_value)),
            _ => Status::Present,
        },
    }
}

/// The text that stands for one entry of an alignment: the counterpart as it
/// is written in the target; for a missing key/value line the key with its
/// separator and no value; for any other missing line the line of the base.
pub open spec fn rendered(entry: DiffEntry) -> Seq<char> {
    match entry.target {
        Some(target) => target.raw(),
        None => match entry.base {
            Line::KeyValue { key, separator, .. } => key + separator.text(),
            _ => entry.base.raw(),
        },
    }
}

/// How many of the first `n` entries have the status `status`.
pub open spec fn tally(all: Seq<DiffEntry>, status: Status, n: int) -> nat
    decreases n,
{
    if n <= 0 {
        0
    } else if status_of(all[n - 1]) == status {
        tally(all, status, n - 1) + 1
    } else {
        tally(all, status, n - 1)
    }
}

/// No more than `n` of the first `n` entries have a given status.
pub proof fn lemma_tally_bound(all: Seq<DiffEntry>, status: Status, n: int)
    requires
        0 <= n,
    ensures
        tally(all, status, n) <= n,
    decreases n,
{
    if n > 0 {
        lemma_tally_bound(all, status, n - 1);
    }
}

impl DiffResult {
    /// The status of this result.
    pub fn status(&self) -> (status: Status)
        ensures
            status == status_of(self@),
    {
        match &self.target {
            None => Status::Missing,
            Some(target) => {
                if let IniLine::KeyValue { value: base_value, .. } = &self.base {
                    if let IniLine::KeyValue { value: target_value, .. } = target {
                        return Status::from_values(
                            blank(target_value.as_str()),
                            blank(base_value.as_str()),
                        );
                    }
                }
                Status::Present
            },
        }
    }

    /// The text that stands for this result.
    pub fn render(&self) -> (text: String)
        ensures
            text@ == rendered(self@),
    {
        match &self.target {
            Some(target) => target.get_raw().to_string(),
            None => match &self.base {
                IniLine::KeyValue { key, separator, .. } => {
                    let mut text = key.clone();
                    text.append(separator.as_str());
                    text
                },
                other => other.get_raw().to_string(),
            },
        }
    }
}

/// One line of a report.
#[derive(Debug, PartialEq, Eq)]
pub struct ReportLine {
    pub status: Status,
    pub text: String,
}

/// The outcome of a comparison, line by line, with its totals.
#[derive(Debug, PartialEq, Eq)]
pub struct Report {
    /// One line per result, in the order of the results.
    pub lines: Vec<ReportLine>,
    /// How many lines are `Missing`.
    pub missing: usize,
    /// How many lines are `Emptied`.
    pub emptied: usize,
}

impl Report {
    /// Whether the report is the one that `all` calls for.
    pub open spec fn describes(self, all: Seq<DiffEntry>) -> bool {
        &&& self.lines.len() == all.len()
        &&& forall|i: int|
            0 <= i < all.len() ==> (#[trigger] self.lines[i]).status == status_of(all[i])
                && self.lines[i].text@ == rendered(all[i])
        &&& self.missing == tally(all, Status::Missing, all.len() as int)
        &&& self.emptied == tally(all, Status::Emptied, all.len() as int)
    }

    /// The texts of the lines, in order.
    pub open spec fn texts(self) -> Seq<Seq<char>> {
        Seq::new(self.lines.len() as nat, |i: int| self.lines[i].text@)
    }

    /// The document that the report renders: every line's text, each ended
    /// by a line feed.
    pub fn document(&self) -> (text: String)
        ensures
            text@ == join_lines(self.texts()),
    {
        let mut text = String::new();
        let mut i: usize = 0;
        while i < self.lines.len()
            invariant
                i <= self.lines.len(),
                text@ == join_lines(self.texts().take(i as int)),
            decreases self.lines.len() - i,
        {
            proof {
                let next = self.texts().take(i + 1);
                assert(next.drop_last() == self.texts().take(i as int));
            }
            text.append(self.lines[i].text.as_str());
            text.push('\n');
            i += 1;
        }
        assert(self.texts().take(i as int) == self.texts());
        text
    }

    /// Whether nothing is missing and nothing is emptied.
    pub fn is_clean(&self) -> (clean: bool)
        ensures
            clean == (self.missing == 0 && self.emptied == 0),
    {
        self.missing == 0 && self.emptied == 0
    }
}

/// Reports on the results of a comparison.
pub fn report(results: &Vec<DiffResult>) -> (out: Report)
    ensures
        out.describes(entries(results@)),
{
    let ghost all = entries(results@);
    let mut lines: Vec<ReportLine> = Vec::with_capacity(results.len());
    let mut missing: usize = 0;
    let mut emptied: usize = 0;
    let mut i: usize = 0;
    while i < results.len()
        invariant
            i <= results.len(),
            all == entries(results@),
            lines.len() == i,
            forall|k: int|
                0 <= k < i ==> (#[trigger] lines[k]).status == status_of(all[k]) && lines[k].text@
                    == rendered(all[k]),
            missing == tally(all, Status::Missing, i as int),
            emptied == tally(all, Status::Emptied, i as int),
        decreases results.len() - i,
    {
        proof {
            lemma_tally_bound(all, Status::Missing, i as int);
            lemma_tally_bound(all, Status::Emptied, i as int);
        }
        let status = results[i].status();
        let text = results[i].render();
        match status {
            Status::Missing => {
                missing += 1;
            },
            Status::Emptied => {
                emptied += 1;
            },
            Status::Present => {},
        }
        lines.push(ReportLine { status, text });
        i += 1;
    }
    Report { lines, missing, emptied }
}

} // verus!
