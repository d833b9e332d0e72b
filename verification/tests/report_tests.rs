use ini_diff::diff::{diff, DiffResult};
use ini_diff::parser::parse_line;
use ini_diff::report::{report, Report, ReportLine, Status};

fn line(status: Status, text: &str) -> ReportLine {
    ReportLine { status, text: text.to_string() }
}

fn merged_text(report: &Report) -> String {
    report.document()
}

#[test]
fn missing_key_is_flagged_and_counted() {
    let out = report(&diff("[s]\nkey=1\n", "[s]\n"));
    assert_eq!(out.lines, vec![line(Status::Present, "[s]"), line(Status::Missing, "key=")]);
    assert_eq!(out.missing, 1);
    assert_eq!(out.emptied, 0);
    assert!(!out.is_clean());
}

#[test]
fn emptied_value_is_flagged_and_counted() {
    let out = report(&diff("[s]\nkey=1\n", "[s]\nkey=\n"));
    assert_eq!(out.lines, vec![line(Status::Present, "[s]"), line(Status::Emptied, "key=")]);
    assert_eq!(out.missing, 0);
    assert_eq!(out.emptied, 1);
    assert!(!out.is_clean());
}

#[test]
fn identical_documents_are_clean() {
    let text = "[s]\nkey=1\n; note\n";
    let out = report(&diff(text, text));
    assert_eq!(out.missing, 0);
    assert_eq!(out.emptied, 0);
    assert!(out.is_clean());
    assert!(out.lines.iter().all(|l| l.status == Status::Present));
}

#[test]
fn empty_comparison_is_clean() {
    let out = report(&Vec::new());
    assert_eq!(out, Report { lines: Vec::new(), missing: 0, emptied: 0 });
    assert!(out.is_clean());
}

#[test]
fn whitespace_only_value_counts_as_emptied() {
    let out = report(&diff("k=1\n", "k=  \t\n"));
    assert_eq!(out.lines, vec![line(Status::Emptied, "k=  \t")]);
}

#[test]
fn blank_base_value_is_never_emptied() {
    let out = report(&diff("k=\nj= \n", "k=\nj=\n"));
    assert_eq!(out.lines, vec![line(Status::Present, "k="), line(Status::Present, "j=")]);
    assert!(out.is_clean());
}

#[test]
fn present_line_shows_the_text_of_the_target() {
    let out = report(&diff("[a]\nx=1\n", "  [a] ; mine\nx: 42\n"));
    assert_eq!(
        out.lines,
        vec![line(Status::Present, "  [a] ; mine"), line(Status::Present, "x: 42")]
    );
}

#[test]
fn missing_key_shows_key_and_separator_without_value() {
    let out = report(&diff("user: admin\n  pass=secret\n", ""));
    assert_eq!(
        out.lines,
        vec![line(Status::Missing, "user:"), line(Status::Missing, "  pass=")]
    );
    assert_eq!(out.missing, 2);
}

#[test]
fn missing_header_and_other_lines_show_the_base_text() {
    let out = report(&diff("[a]\n; note\n\n", ""));
    assert_eq!(
        out.lines,
        vec![
            line(Status::Missing, "[a]"),
            line(Status::Missing, "; note"),
            line(Status::Missing, ""),
        ]
    );
    assert_eq!(out.missing, 3);
    assert_eq!(out.emptied, 0);
}

#[test]
fn totals_count_every_flagged_line() {
    let base = "[a]\nx=1\ny=2\nz=3\n[b]\nw=4\n";
    let target = "[a]\nx=\ny=2\n[b]\nw= \n";
    let out = report(&diff(base, target));
    assert_eq!(
        out.lines,
        vec![
            line(Status::Present, "[a]"),
            line(Status::Emptied, "x="),
            line(Status::Present, "y=2"),
            line(Status::Missing, "z="),
            line(Status::Present, "[b]"),
            line(Status::Emptied, "w= "),
        ]
    );
    assert_eq!(out.missing, 1);
    assert_eq!(out.emptied, 2);
}

#[test]
fn status_and_render_of_a_single_result() {
    let present = DiffResult { target: Some(parse_line("k=2")), base: parse_line("k=1") };
    assert_eq!(present.status(), Status::Present);
    assert_eq!(present.render(), "k=2");
    let emptied = DiffResult { target: Some(parse_line("k=")), base: parse_line("k=1") };
    assert_eq!(emptied.status(), Status::Emptied);
    assert_eq!(emptied.render(), "k=");
    let missing = DiffResult { target: None, base: parse_line("k:1") };
    assert_eq!(missing.status(), Status::Missing);
    assert_eq!(missing.render(), "k:");
    let header = DiffResult { target: None, base: parse_line("[h]") };
    assert_eq!(header.status(), Status::Missing);
    assert_eq!(header.render(), "[h]");
}

#[test]
fn key_value_against_other_kind_is_present() {
    let odd = DiffResult { target: Some(parse_line("; note")), base: parse_line("k=1") };
    assert_eq!(odd.status(), Status::Present);
    assert_eq!(odd.render(), "; note");
}

#[test]
fn merge_then_diff_finds_nothing_missing() {
    let base = "; top\nroot=\n[a]\nx=\n; note\n[b]\ny=\n\n";
    let target = "[b]\n[c]\nq=1\n";
    let first = report(&diff(base, target));
    assert_eq!(first.missing, 7);
    let second = report(&diff(base, &merged_text(&first)));
    assert_eq!(second.missing, 0);
    assert_eq!(second.emptied, 0);
    assert!(second.is_clean());
}

#[test]
fn merge_is_stable_once_applied() {
    let base = "[a]\nx=1\ny=2\n[b]\nz=3\n";
    let target = "[b]\nz=30\n[a]\ny=20\nx=10\n";
    let first = report(&diff(base, target));
    assert!(first.is_clean());
    let merged = merged_text(&first);
    assert_eq!(merged, "[a]\nx=10\ny=20\n[b]\nz=30\n");
    let second = report(&diff(base, &merged));
    assert!(second.is_clean());
    assert_eq!(merged_text(&second), merged);
}

#[test]
fn merge_leaves_added_keys_with_values_emptied() {
    let first = report(&diff("[s]\nkey=1\n", "[s]\n"));
    assert_eq!(merged_text(&first), "[s]\nkey=\n");
    let second = report(&diff("[s]\nkey=1\n", &merged_text(&first)));
    assert_eq!(second.missing, 0);
    assert_eq!(second.emptied, 1);
}

#[test]
fn merge_keeps_emptied_values_emptied() {
    let first = report(&diff("[s]\nkey=1\n", "[s]\nkey=\n"));
    assert_eq!(first.emptied, 1);
    let second = report(&diff("[s]\nkey=1\n", &merged_text(&first)));
    assert_eq!(second.missing, 0);
    assert_eq!(second.emptied, 1);
}

#[test]
fn document_ends_every_line_with_a_line_feed() {
    let out = report(&diff("[a]\nx=1\n\n; c", "[a]\n"));
    assert_eq!(out.document(), "[a]\nx=\n\n; c\n");
    assert_eq!(report(&Vec::new()).document(), "");
    assert_eq!(report(&diff("\n", "")).document(), "\n");
}

#[test]
fn document_reads_back_line_by_line() {
    let out = report(&diff("; top\n[a]\nx = 1\ny:2\n", "[a]\ny:3\n"));
    let texts: Vec<String> = out.lines.iter().map(|l| l.text.clone()).collect();
    assert_eq!(ini_diff::text::lines(&out.document()), texts);
}

#[test]
fn line_ending_in_carriage_return_is_not_read_back() {
    let base = "x\r\r\n";
    let first = report(&diff(base, ""));
    assert_eq!(first.lines, vec![line(Status::Missing, "x\r")]);
    let second = report(&diff(base, &first.document()));
    assert_eq!(second.missing, 1);
}

#[test]
fn status_from_blankness_of_the_two_values() {
    assert_eq!(Status::from_values(true, false), Status::Emptied);
    assert_eq!(Status::from_values(true, true), Status::Present);
    assert_eq!(Status::from_values(false, false), Status::Present);
    assert_eq!(Status::from_values(false, true), Status::Present);
}
