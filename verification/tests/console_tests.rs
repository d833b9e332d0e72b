use colored::control::set_override;
use ini_diff::config::Action;
use ini_diff::console::{
    clean_totals, found_totals, mark_line, show, show_line, show_totals, to_decimal,
};
use ini_diff::diff::diff;
use ini_diff::report::{report, Report, ReportLine, Status};

fn line(status: Status, text: &str) -> ReportLine {
    ReportLine { status, text: text.to_string() }
}

fn totals(missing: usize, emptied: usize) -> Report {
    Report { lines: Vec::new(), missing, emptied }
}

#[test]
fn mark_line_puts_mark_and_bar_before_text() {
    assert_eq!(mark_line(" ", "k=v"), "   | k=v");
    assert_eq!(mark_line("+", "k="), "+  | k=");
    assert_eq!(mark_line("", ""), "  | ");
}

#[test]
fn decimal_digits() {
    assert_eq!(to_decimal(0), "0");
    assert_eq!(to_decimal(7), "7");
    assert_eq!(to_decimal(10), "10");
    assert_eq!(to_decimal(109), "109");
    assert_eq!(to_decimal(1234567890), "1234567890");
    assert_eq!(to_decimal(usize::MAX), usize::MAX.to_string());
}

#[test]
fn lines_without_colour() {
    set_override(false);
    assert_eq!(show_line(&line(Status::Present, "[s]")), "   | [s]");
    assert_eq!(show_line(&line(Status::Emptied, "key=")), "*  | key=");
    assert_eq!(show_line(&line(Status::Missing, "key=")), "+  | key=");
}

#[test]
fn lines_with_colour() {
    set_override(true);
    assert_eq!(show_line(&line(Status::Present, "[s]")), "   | [s]");
    assert_eq!(show_line(&line(Status::Emptied, "key=")), "\x1b[33m*\x1b[0m  | key=");
    assert_eq!(show_line(&line(Status::Missing, "key=")), "\x1b[32m+\x1b[0m  | key=");
}

#[test]
fn totals_of_a_clean_check() {
    set_override(false);
    assert_eq!(
        show_totals(&totals(0, 0), Action::Check),
        vec!["", "Check Complete.", "No issues found."]
    );
}

#[test]
fn totals_of_a_clean_merge() {
    set_override(false);
    assert_eq!(
        show_totals(&totals(0, 0), Action::Merge),
        vec!["", "Merge Complete.", "No issues found."]
    );
}

#[test]
fn totals_of_a_check_with_findings() {
    set_override(false);
    assert_eq!(
        show_totals(&totals(3, 12), Action::Check),
        vec!["", "Check Complete.", " - Missing keys : 3", " - Empty vals   : 12"]
    );
    assert_eq!(
        show_totals(&totals(0, 1), Action::Check),
        vec!["", "Check Complete.", " - Missing keys : 0", " - Empty vals   : 1"]
    );
}

#[test]
fn totals_of_a_merge_with_findings() {
    set_override(false);
    assert_eq!(
        show_totals(&totals(2, 0), Action::Merge),
        vec!["", "Merge Complete.", " - Added keys : 2", " - Empty vals   : 0"]
    );
}

#[test]
fn totals_with_colour() {
    set_override(true);
    assert_eq!(
        show_totals(&totals(0, 0), Action::Check),
        vec!["", "Check Complete.", "\x1b[32mNo issues found.\x1b[0m"]
    );
    assert_eq!(
        show_totals(&totals(1, 20), Action::Merge),
        vec![
            "",
            "Merge Complete.",
            " - Added keys : \x1b[32m1\x1b[0m",
            " - Empty vals   : \x1b[33m20\x1b[0m",
        ]
    );
}

#[test]
fn whole_output_of_a_check() {
    set_override(false);
    let out = report(&diff("[s]\nkey=1\nname=x\n", "[s]\nname=\n"));
    assert_eq!(
        show(&out, Action::Check),
        vec![
            "   | [s]",
            "+  | key=",
            "*  | name=",
            "",
            "Check Complete.",
            " - Missing keys : 1",
            " - Empty vals   : 1",
        ]
    );
}

#[test]
fn whole_output_of_a_clean_merge() {
    set_override(false);
    let out = report(&diff("[s]\nkey=1\n", "[s]\nkey=2\n"));
    assert_eq!(
        show(&out, Action::Merge),
        vec!["   | [s]", "   | key=2", "", "Merge Complete.", "No issues found."]
    );
}

#[test]
fn totals_from_given_parts() {
    assert_eq!(
        clean_totals(Action::Check, "fine".to_string()),
        vec!["", "Check Complete.", "fine"]
    );
    assert_eq!(
        clean_totals(Action::Merge, String::new()),
        vec!["", "Merge Complete.", ""]
    );
    assert_eq!(
        found_totals(Action::Check, "<3>", "<0>"),
        vec!["", "Check Complete.", " - Missing keys : <3>", " - Empty vals   : <0>"]
    );
    assert_eq!(
        found_totals(Action::Merge, "1", "2"),
        vec!["", "Merge Complete.", " - Added keys : 1", " - Empty vals   : 2"]
    );
}
