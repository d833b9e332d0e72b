use ini_diff::parser::{
    parse_chars, parse_ini_lines, parse_line, split_key_value, IniLine, Separator,
};
use ini_diff::text::to_chars;

fn section(raw: &str, name: &str) -> IniLine {
    IniLine::Section { raw: raw.to_string(), name: name.to_string() }
}

fn key_value(raw: &str, key: &str, separator: Separator, value: &str) -> IniLine {
    IniLine::KeyValue {
        raw: raw.to_string(),
        key: key.to_string(),
        separator,
        value: value.to_string(),
    }
}

fn other(raw: &str) -> IniLine {
    IniLine::Other { raw: raw.to_string() }
}

#[test]
fn separator_as_str() {
    assert_eq!(Separator::Equals.as_str(), "=");
    assert_eq!(Separator::Colon.as_str(), ":");
}

#[test]
fn raw_is_the_line_itself() {
    let samples = [
        "",
        "   ",
        "[db]",
        "[db",
        "  [ a b ] ; trailing",
        "key=value",
        "  key : value  ",
        "; comment",
        "no separator here",
        "a:b=c",
        "=",
        ":",
        "]",
        "ключ=значение",
        "tab\tinside",
    ];
    for sample in samples {
        assert_eq!(parse_line(sample).get_raw(), sample);
    }
}

#[test]
fn get_raw_of_each_variant() {
    assert_eq!(section("[a]", "a").get_raw(), "[a]");
    assert_eq!(key_value("k=v", "k", Separator::Equals, "v").get_raw(), "k=v");
    assert_eq!(other("; c").get_raw(), "; c");
}

#[test]
fn colon_before_equals_wins() {
    assert_eq!(parse_line("a:b=c"), key_value("a:b=c", "a", Separator::Colon, "b=c"));
}

#[test]
fn equals_before_colon_wins() {
    assert_eq!(parse_line("a=b:c"), key_value("a=b:c", "a", Separator::Equals, "b:c"));
}

#[test]
fn only_one_kind_of_separator() {
    assert_eq!(parse_line("key=value"), key_value("key=value", "key", Separator::Equals, "value"));
    assert_eq!(parse_line("key:value"), key_value("key:value", "key", Separator::Colon, "value"));
}

#[test]
fn closed_header_is_a_section() {
    assert_eq!(parse_line("[db]"), section("[db]", "db"));
}

#[test]
fn unclosed_header_is_other() {
    assert_eq!(parse_line("[db"), other("[db"));
}

#[test]
fn unclosed_header_with_separator_is_other() {
    assert_eq!(parse_line("[db=1"), other("[db=1"));
    assert_eq!(parse_line("  [a:b"), other("  [a:b"));
}

#[test]
fn header_name_ends_at_first_closing_bracket() {
    assert_eq!(parse_line("[a]]"), section("[a]]", "a"));
    assert_eq!(parse_line("[a][b]"), section("[a][b]", "a"));
    assert_eq!(parse_line("[a] ; note = 1"), section("[a] ; note = 1", "a"));
}

#[test]
fn header_name_is_not_trimmed() {
    assert_eq!(parse_line("[ a b ]"), section("[ a b ]", " a b "));
    assert_eq!(parse_line("[]"), section("[]", ""));
}

#[test]
fn indented_header_is_a_section() {
    assert_eq!(parse_line("  \t[db]"), section("  \t[db]", "db"));
    assert_eq!(parse_line("\u{a0}[db]"), section("\u{a0}[db]", "db"));
}

#[test]
fn header_case_is_kept() {
    assert_eq!(parse_line("[DB]"), section("[DB]", "DB"));
}

#[test]
fn bracket_after_other_text_is_no_header() {
    assert_eq!(parse_line("x[db]"), other("x[db]"));
    assert_eq!(parse_line("a=[b]"), key_value("a=[b]", "a", Separator::Equals, "[b]"));
}

#[test]
fn key_keeps_leading_whitespace() {
    assert_eq!(parse_line("  key=1"), key_value("  key=1", "  key", Separator::Equals, "1"));
    assert_eq!(parse_line("\tk: v"), key_value("\tk: v", "\tk", Separator::Colon, " v"));
}

#[test]
fn key_and_value_keep_inner_and_trailing_whitespace() {
    assert_eq!(
        parse_line("key = value  "),
        key_value("key = value  ", "key ", Separator::Equals, " value  ")
    );
}

#[test]
fn empty_key_or_value() {
    assert_eq!(parse_line("=v"), key_value("=v", "", Separator::Equals, "v"));
    assert_eq!(parse_line("k="), key_value("k=", "k", Separator::Equals, ""));
    assert_eq!(parse_line(":"), key_value(":", "", Separator::Colon, ""));
    assert_eq!(parse_line("  ="), key_value("  =", "  ", Separator::Equals, ""));
}

#[test]
fn line_without_separator_is_other() {
    assert_eq!(parse_line(""), other(""));
    assert_eq!(parse_line("   "), other("   "));
    assert_eq!(parse_line("; comment"), other("; comment"));
    assert_eq!(parse_line("# comment"), other("# comment"));
    assert_eq!(parse_line("]"), other("]"));
    assert_eq!(parse_line("plain text"), other("plain text"));
}

#[test]
fn comment_with_separator_is_key_value() {
    assert_eq!(parse_line("; a=b"), key_value("; a=b", "; a", Separator::Equals, "b"));
}

#[test]
fn non_ascii_text() {
    assert_eq!(
        parse_line("ключ=значение"),
        key_value("ключ=значение", "ключ", Separator::Equals, "значение")
    );
    assert_eq!(parse_line("[секция]"), section("[секция]", "секция"));
}

#[test]
fn lines_are_classified_in_order() {
    let parsed = parse_ini_lines("[s]\nkey=1\n; note\n");
    assert_eq!(
        parsed,
        vec![
            section("[s]", "s"),
            key_value("key=1", "key", Separator::Equals, "1"),
            other("; note"),
        ]
    );
}

#[test]
fn one_entry_per_line() {
    assert_eq!(parse_ini_lines("").len(), 0);
    assert_eq!(parse_ini_lines("\n").len(), 1);
    assert_eq!(parse_ini_lines("a\n\n\nb").len(), 4);
    assert_eq!(parse_ini_lines("a\n\n\nb")[1], other(""));
}

#[test]
fn windows_line_endings_are_not_part_of_a_line() {
    let parsed = parse_ini_lines("[s]\r\nk=v\r\n");
    assert_eq!(parsed, vec![section("[s]", "s"), key_value("k=v", "k", Separator::Equals, "v")]);
}

#[test]
fn clone_is_equal() {
    let line = parse_line("a:b=c");
    assert_eq!(line.clone(), line);
    let header = parse_line("[x]");
    assert_eq!(header.clone(), header);
    let rest = parse_line("zzz");
    assert_eq!(rest.clone(), rest);
}

#[test]
fn parse_chars_classifies_from_the_given_start() {
    assert_eq!(parse_chars(&to_chars("[db]"), 0), section("[db]", "db"));
    assert_eq!(parse_chars(&to_chars("  [db]"), 2), section("  [db]", "db"));
    assert_eq!(parse_chars(&to_chars("[db"), 0), other("[db"));
    assert_eq!(
        parse_chars(&to_chars("a:b=c"), 0),
        key_value("a:b=c", "a", Separator::Colon, "b=c")
    );
    assert_eq!(
        parse_chars(&to_chars("  k=v"), 2),
        key_value("  k=v", "  k", Separator::Equals, "v")
    );
    assert_eq!(parse_chars(&to_chars("plain"), 0), other("plain"));
    assert_eq!(parse_chars(&to_chars(""), 0), other(""));
}

#[test]
fn parse_chars_looks_for_the_separator_from_the_start_on() {
    assert_eq!(
        parse_chars(&to_chars("a=b:c"), 2),
        key_value("a=b:c", "a=b", Separator::Colon, "c")
    );
    assert_eq!(parse_chars(&to_chars("a=b"), 2), other("a=b"));
    assert_eq!(parse_chars(&to_chars("a=b"), 7), other("a=b"));
}

#[test]
fn split_key_value_at_first_separator() {
    assert_eq!(
        split_key_value(&to_chars("a:b=c"), 0),
        Some(("a".to_string(), (Separator::Colon, "b=c".to_string())))
    );
    assert_eq!(
        split_key_value(&to_chars("a=b:c"), 0),
        Some(("a".to_string(), (Separator::Equals, "b:c".to_string())))
    );
    assert_eq!(
        split_key_value(&to_chars("  k="), 2),
        Some(("  k".to_string(), (Separator::Equals, String::new())))
    );
    assert_eq!(split_key_value(&to_chars("no separator"), 0), None);
    assert_eq!(split_key_value(&to_chars(""), 0), None);
}
