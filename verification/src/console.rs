//! What a run prints on the console: the lines of a report, each behind its
//! mark, and the totals. Marks and totals are painted by the `colored`
//! crate, which adds colour or not as the environment has it.
use colored::Colorize;
use vstd::prelude::*;
use vstd::string::StringExecFns;

use crate::config::Action;
use crate::report::{Report, ReportLine, Status};
use crate::text::texts;

verus! {

/// The colours of the output.
#[derive(Debug, Clone, Copy, PartialEq, Eq, Structural)]
pub enum Tint {
    Green,
    Yellow,
}

impl Tint {
    /// The escape sequence that switches a terminal to the colour.
    pub open spec fn code(self) -> Seq<char> {
        match self {
            Tint::Green => "\x1b[32m"@,
            Tint::Yellow => "\x1b[33m"@,
        }
    }
}

/// The escape sequence that switches a terminal back to its own colours.
pub open spec fn reset() -> Seq<char> {
    "\x1b[0m"@
}

/// Whether `out` is `text` as it may come back painted in `tint`: the text
/// itself where colour is off, the text between the colour's sequence and
/// the reset sequence where it is on, and the text before the reset sequence
/// where it is switched off in between.
pub open spec fn is_painted(out: Seq<char>, text: Seq<char>, tint: Tint) -> bool {
    ||| out == text
    ||| out == tint.code() + text + reset()
    ||| out == text + reset()
}

/// Whether `text` is free of the escape character, so that painting leaves
/// it in one piece.
pub open spec fn is_paintable(text: Seq<char>) -> bool {
    forall|k: int| 0 <= k < text.len() ==> #[trigger] text[k] != '\x1b'
}

/// `Colorize::green` of `colored` on a `&str`, and the `ColoredString` that
/// it gives formatted by its `Display`.
///
/// Whether colour is on is for `colored` to find out, from its override
/// switch, from the environment and from what the standard output is. It
/// asks once whether to wrap the text at all, and once more for the colour's
/// sequence, so the result is one of the three forms of [`is_painted`]. The
/// text itself comes back unchanged: it holds no reset sequence that
/// `colored` would have to escape.
#[verifier::external_body]
fn green(text: &str) -> (out: String)
    requires
        is_paintable(text@),
    ensures
        is_painted(out@, text@, Tint::Green),
{
    text.green().to_string()
}

/// `Colorize::yellow` of `colored` on a `&str`, and the `ColoredString` that
/// it gives formatted by its `Display`. The result is one of the three forms
/// of [`is_painted`], for the same reasons as with [`green`].
#[verifier::external_body]
fn yellow(text: &str) -> (out: String)
    requires
        is_paintable(text@),
    ensures
        is_painted(out@, text@, Tint::Yellow),
{
    text.yellow().to_string()
}

/// A line of output: the mark, the bar and the text.
pub open spec fn marked(mark: Seq<char>, text: Seq<char>) -> Seq<char> {
    mark + "  | "@ + text
}

/// Puts `mark` and the bar before `text`.
pub fn mark_line(mark: &str, text: &str) -> (out: String)
    ensures
        out@ == marked(mark@, text@),
{
    let mut out = mark.to_string();
    out.append("  | ");
    out.append(text);
    out
}

/// Whether `out` shows a report line with the status `status` and the text
/// `text`: a blank mark for a line that is present, a yellow `*` for an
/// emptied one, a green `+` for a missing one.
pub open spec fn is_shown(out: Seq<char>, status: Status, text: Seq<char>) -> bool {
    match status {
        Status::Present => out == marked(" "@, text),
        Status::Emptied => exists|mark: Seq<char>|
            is_painted(mark, "*"@, Tint::Yellow) && out == #[trigger] marked(mark, text),
        Status::Missing => exists|mark: Seq<char>|
            is_painted(mark, "+"@, Tint::Green) && out == #[trigger] marked(mark, text),
    }
}

/// Shows one line of a report.
pub fn show_line(line: &ReportLine) -> (out: String)
    ensures
        is_shown(out@, line.status, line.text@),
{
    proof {
        reveal_strlit("*");
        reveal_strlit("+");
    }
    match line.status {
        Status::Present => mark_line(" ", line.text.as_str()),
        Status::Emptied => mark_line(yellow("*").as_str(), line.text.as_str()),
        Status::Missing => mark_line(green("+").as_str(), line.text.as_str()),
    }
}

/// The character for the digit `d`, a number below ten.
pub open spec fn digit(d: nat) -> char {
    if d == 0 {
        '0'
    } else if d == 1 {
        '1'
    } else if d == 2 {
        '2'
    } else if d == 3 {
        '3'
    } else if d == 4 {
        '4'
    } else if d == 5 {
        '5'
    } else if d == 6 {
        '6'
    } else if d == 7 {
        '7'
    } else if d == 8 {
        '8'
    } else {
        '9'
    }
}

/// The number `n` written in decimal digits, without leading zeros.
pub open spec fn decimal(n: nat) -> Seq<char>
    decreases n,
{
    if n < 10 {
        seq![digit(n)]
    } else {
        decimal(n / 10).push(digit(n % 10))
    }
}

/// A number in decimal digits holds no escape character.
pub proof fn lemma_decimal_is_paintable(n: nat)
    ensures
        is_paintable(decimal(n)),
    decreases n,
{
    if n >= 10 {
        lemma_decimal_is_paintable(n / 10);
    }
}

/// The character for the digit `d`.
fn digit_char(d: usize) -> (c: char)
    requires
        d < 10,
    ensures
        c == digit(d as nat),
{
    if d == 0 {
        '0'
    } else if d == 1 {
        '1'
    } else if d == 2 {
        '2'
    } else if d == 3 {
        '3'
    } else if d == 4 {
        '4'
    } else if d == 5 {
        '5'
    } else if d == 6 {
        '6'
    } else if d == 7 {
        '7'
    } else if d == 8 {
        '8'
    } else {
        '9'
    }
}

/// Writes `n` in decimal digits.
pub fn to_decimal(n: usize) -> (out: String)
    ensures
        out@ == decimal(n as nat),
{
    let mut digits: Vec<char> = Vec::new();
    let mut rest: usize = n;
    while rest >= 10
        invariant
            decimal(n as nat) == decimal(rest as nat) + digits@.reverse(),
        decreases rest,
    {
        let d = digit_char(rest % 10);
        proof {
            let upper = decimal((rest / 10) as nat);
            let lower = digits@.reverse();
            assert(upper.push(d) + lower =~= upper + (seq![d] + lower));
        }
        digits.push(d);
        rest = rest / 10;
    }
    digits.push(digit_char(rest));
    let mut out = String::new();
    let mut i: usize = digits.len();
    while i > 0
        invariant
            i <= digits.len(),
            out@ == digits@.reverse().take(digits.len() - i),
        decreases i,
    {
        i -= 1;
        out.push(digits[i]);
    }
    out
}

/// The line that closes a run of the given action.
pub open spec fn closing(action: Action) -> Seq<char> {
    match action {
        Action::Check => "Check Complete."@,
        Action::Merge => "Merge Complete."@,
    }
}

/// What stands before the number of the lines that the target lacked: in a
/// check they are missing, in a merge they were added.
pub open spec fn lacking(action: Action) -> Seq<char> {
    match action {
        Action::Check => " - Missing keys : "@,
        Action::Merge => " - Added keys : "@,
    }
}

/// The totals of a run in which nothing was found: an empty line, the
/// closing line, and the word that says so.
pub open spec fn totals_clean(action: Action, word: Seq<char>) -> Seq<Seq<char>> {
    seq![Seq::<char>::empty(), closing(action), word]
}

/// The totals of a run in which something was found: an empty line, the
/// closing line, the number of lines that the target lacked and the number
/// of emptied values.
pub open spec fn totals_found(action: Action, missing: Seq<char>, emptied: Seq<char>) -> Seq<
    Seq<char>,
> {
    seq![
        Seq::<char>::empty(),
        closing(action),
        lacking(action) + missing,
        " - Empty vals   : "@ + emptied,
    ]
}

/// The closing line of a run of `action`.
fn closing_line(action: Action) -> (out: String)
    ensures
        out@ == closing(action),
{
    match action {
        Action::Check => "Check Complete.".to_string(),
        Action::Merge => "Merge Complete.".to_string(),
    }
}

/// The totals of a run in which nothing was found; `word` says so.
pub fn clean_totals(action: Action, word: String) -> (out: Vec<String>)
    ensures
        texts(out@) == totals_clean(action, word@),
{
    let mut out: Vec<String> = Vec::new();
    out.push(String::new());
    out.push(closing_line(action));
    out.push(word);
    out
}

/// The totals of a run in which something was found; `missing` and
/// `emptied` are the two numbers as they are to be printed.
pub fn found_totals(action: Action, missing: &str, emptied: &str) -> (out: Vec<String>)
    ensures
        texts(out@) == totals_found(action, missing@, emptied@),
{
    let mut lacked = match action {
        Action::Check => " - Missing keys : ".to_string(),
        Action::Merge => " - Added keys : ".to_string(),
    };
    lacked.append(missing);
    let mut empty = " - Empty vals   : ".to_string();
    empty.append(emptied);
    let mut out: Vec<String> = Vec::new();
    out.push(String::new());
    out.push(closing_line(action));
    out.push(lacked);
    out.push(empty);
    out
}

/// Whether `lines` are the totals of a run with the given numbers: where
/// both are zero, the word that nothing was found, in green; else the number
/// of lines that the target lacked, in green, and the number of emptied
/// values, in yellow.
pub open spec fn is_totals(
    lines: Seq<Seq<char>>,
    missing: nat,
    emptied: nat,
    action: Action,
) -> bool {
    if missing == 0 && emptied == 0 {
        exists|word: Seq<char>|
            is_painted(word, "No issues found."@, Tint::Green) && lines == #[trigger] totals_clean(
                action,
                word,
            )
    } else {
        exists|lacked: Seq<char>, empty: Seq<char>|
            is_painted(lacked, decimal(missing), Tint::Green) && is_painted(
                empty,
                decimal(emptied),
                Tint::Yellow,
            ) && lines == #[trigger] totals_found(action, lacked, empty)
    }
}

/// The totals of a report, as the run of `action` prints them.
pub fn show_totals(report: &Report, action: Action) -> (out: Vec<String>)
    ensures
        is_totals(texts(out@), report.missing as nat, report.emptied as nat, action),
{
    if report.is_clean() {
        proof {
            lemma_literal_is_paintable();
        }
        clean_totals(action, green("No issues found."))
    } else {
        proof {
            lemma_decimal_is_paintable(report.missing as nat);
            lemma_decimal_is_paintable(report.emptied as nat);
        }
        let missing = green(to_decimal(report.missing).as_str());
        let emptied = yellow(to_decimal(report.emptied).as_str());
        found_totals(action, missing.as_str(), emptied.as_str())
    }
}

/// The word that nothing was found holds no escape character.
proof fn lemma_literal_is_paintable()
    ensures
        is_paintable("No issues found."@),
{
    reveal_strlit("No issues found.");
}

/// Whether `lines` are what a run of `action` prints for `report`: its
/// lines, each shown behind its mark, and then the totals.
pub open spec fn is_output(lines: Seq<Seq<char>>, report: Report, action: Action) -> bool {
    let n = report.lines.len() as int;
    &&& lines.len() >= n
    &&& forall|i: int|
        0 <= i < n ==> is_shown(#[trigger] lines[i], report.lines[i].status, report.lines[i].text@)
    &&& is_totals(lines.skip(n), report.missing as nat, report.emptied as nat, action)
}

/// Everything that a run of `action` prints for `report`, line by line.
pub fn show(report: &Report, action: Action) -> (out: Vec<String>)
    ensures
        is_output(texts(out@), *report, action),
{
    let mut out: Vec<String> = Vec::new();
    let mut i: usize = 0;
    while i < report.lines.len()
        invariant
            i <= report.lines.len(),
            out.len() == i,
            forall|k: int|
                0 <= k < i ==> is_shown(
                    #[trigger] out[k]@,
                    report.lines[k].status,
                    report.lines[k].text@,
                ),
        decreases report.lines.len() - i,
    {
        out.push(show_line(&report.lines[i]));
        i += 1;
    }
    let ghost lines = out@;
    let mut totals = show_totals(report, action);
    let ghost rest = totals@;
    out.append(&mut totals);
    assert(texts(out@).skip(lines.len() as int) == texts(rest));
    out
}

} // verus!
