use demiourgos::scad::run::{detect_libraries, parse_version, RunOutput};
use demiourgos::server::tools::failure_summary;

#[test]
fn parses_version_from_stderr_banner() {
    assert_eq!(
        parse_version("OpenSCAD version 2021.01\n").as_deref(),
        Some("2021.01")
    );
    assert_eq!(
        parse_version("Some banner\nOpenSCAD version 2025.03.15").as_deref(),
        Some("2025.03.15")
    );
    assert_eq!(parse_version("no version here"), None);
}

#[test]
fn version_needs_a_digit_right_after() {
    assert_eq!(parse_version("version\n  7.1 later"), None);
    assert_eq!(parse_version("versions 2\nOpenSCAD version   19.05 extra"), Some("19.05".to_string()));
}

#[test]
fn bosl2_reported_once() {
    assert!(detect_libraries(&[]).is_empty());
    assert!(detect_libraries(&[false, false]).is_empty());
    assert_eq!(detect_libraries(&[false, true, true]), vec!["BOSL2".to_string()]);
}

#[test]
fn captured_streams_are_parsed_together() {
    let run = RunOutput::from_captured(
        false,
        Some(1),
        "ECHO: 5".to_string(),
        "WARNING: w\nERROR: bad thing in line 3".to_string(),
    );
    assert!(!run.success);
    assert_eq!(run.exit_code, Some(1));
    assert_eq!(run.parsed.echos, vec!["5".to_string()]);
    assert_eq!(run.parsed.diagnostics.len(), 2);
    assert!(run.parsed.has_errors());
    assert_eq!(failure_summary("render", &run), "OpenSCAD render failed: bad thing in line 3");
}

#[test]
fn failure_summary_falls_back_to_last_stderr_line() {
    let run = RunOutput::from_captured(false, Some(2), String::new(), "first\nsecond\n".to_string());
    assert_eq!(failure_summary("export", &run), "OpenSCAD export failed: second");
    let quiet = RunOutput::from_captured(false, None, String::new(), String::new());
    assert_eq!(
        failure_summary("export", &quiet),
        "OpenSCAD export failed: no diagnostics captured"
    );
}
