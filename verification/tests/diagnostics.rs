use demiourgos::scad::diagnostics::{extract_line_number, parse, Severity};

fn chars(s: &str) -> Vec<char> {
    s.chars().collect()
}

#[test]
fn parses_echo_lines() {
    let out = parse("ECHO: \"hello\", 42\nECHO: 3.14");
    assert_eq!(
        out.echos,
        vec!["\"hello\", 42".to_string(), "3.14".to_string()]
    );
    assert!(out.diagnostics.is_empty());
}

#[test]
fn parses_error_with_line_number() {
    let out = parse("ERROR: Parser error: syntax error in file part.scad, line 7");
    assert_eq!(out.diagnostics.len(), 1);
    let d = &out.diagnostics[0];
    assert_eq!(d.severity, Severity::Error);
    assert_eq!(d.line, Some(7));
    assert!(out.has_errors());
}

#[test]
fn parses_in_line_phrasing() {
    let out = parse("ERROR: Parser error in line 12: syntax error");
    assert_eq!(out.diagnostics[0].line, Some(12));
}

#[test]
fn parses_warning_without_line() {
    let out = parse("WARNING: Object may not be a valid 2-manifold");
    assert_eq!(out.diagnostics.len(), 1);
    assert_eq!(out.diagnostics[0].severity, Severity::Warning);
    assert_eq!(out.diagnostics[0].line, None);
    assert!(!out.has_errors());
    assert_eq!(out.warnings().len(), 1);
}

#[test]
fn ignores_banner_noise() {
    let out = parse("OpenSCAD version 2021.01\n\nCompiling design (CSG Tree generation)...");
    assert!(out.diagnostics.is_empty());
    assert!(out.echos.is_empty());
}

#[test]
fn handles_indented_diagnostics() {
    let out = parse("   WARNING: something happened, line 3");
    assert_eq!(out.diagnostics[0].severity, Severity::Warning);
    assert_eq!(out.diagnostics[0].line, Some(3));
}

#[test]
fn trace_and_debug_are_info_and_messages_are_trimmed() {
    let out = parse("TRACE:   called foo  \r\nDEBUG: x\nERROR:boom\r\n");
    assert_eq!(out.diagnostics.len(), 3);
    assert_eq!(out.diagnostics[0].severity, Severity::Info);
    assert_eq!(out.diagnostics[0].message, "called foo");
    assert_eq!(out.diagnostics[1].severity, Severity::Info);
    assert_eq!(out.diagnostics[2].severity, Severity::Error);
    assert_eq!(out.diagnostics[2].message, "boom");
    assert_eq!(out.errors().len(), 1);
    assert_eq!(out.errors()[0].message, "boom");
}

#[test]
fn line_numbers_skip_unparsable_mentions() {
    assert_eq!(extract_line_number(&chars("at line x, then LINE 42")), Some(42));
    assert_eq!(extract_line_number(&chars("line 99999999999")), None);
    assert_eq!(extract_line_number(&chars("line 99999999999 and line 5")), Some(5));
    assert_eq!(extract_line_number(&chars("line 0004")), Some(4));
    assert_eq!(extract_line_number(&chars("no numbers here")), None);
    assert_eq!(extract_line_number(&chars("line4")), None);
}

#[test]
fn empty_output_parses_to_nothing() {
    let out = parse("");
    assert!(out.diagnostics.is_empty());
    assert!(out.echos.is_empty());
    let out = parse("\n\n");
    assert!(out.diagnostics.is_empty());
}

#[test]
fn has_errors_exactly_when_errors_are_listed() {
    let with = parse("WARNING: w\nERROR: e, line 2\n");
    assert!(with.has_errors());
    assert_eq!(with.errors().len(), 1);
    assert_eq!(with.warnings().len(), 1);
    let without = parse("WARNING: only a warning\nECHO: 1\n");
    assert!(!without.has_errors());
    assert!(without.errors().is_empty());
}
