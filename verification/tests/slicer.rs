use demiourgos::server::slicer::{
    after_eq, duration_in_range, footer_kind, gcode_footer, parse_duration, FooterKind,
};

#[test]
fn parses_durations() {
    assert_eq!(parse_duration("45s"), Some(45));
    assert_eq!(parse_duration("23m 45s"), Some(23 * 60 + 45));
    assert_eq!(parse_duration("1h 23m 45s"), Some(3600 + 23 * 60 + 45));
    assert_eq!(parse_duration("1d 2h"), Some(86400 + 7200));
    assert_eq!(parse_duration("garbage"), None);
}

#[test]
fn duration_edge_cases() {
    assert_eq!(parse_duration(""), None);
    assert_eq!(parse_duration("   "), None);
    assert_eq!(parse_duration("+5m"), Some(300));
    assert_eq!(parse_duration("5"), None);
    assert_eq!(parse_duration("5x"), None);
    assert_eq!(parse_duration("5m x"), None);
    assert_eq!(parse_duration("m"), None);
    assert_eq!(parse_duration("2s 2s"), Some(4));
}

#[test]
fn duration_range_check() {
    assert!(duration_in_range("1d 2h"));
    assert!(duration_in_range("garbage"));
    assert!(!duration_in_range("18446744073709551615d"));
    assert!(duration_in_range("18446744073709551615s"));
    assert!(!duration_in_range("18446744073709551615s 1s"));
    assert!(duration_in_range("18446744073709551615s x 1s"));
}

#[test]
fn after_eq_takes_first_equals() {
    assert_eq!(after_eq("; filament used [g] = 3.95 "), Some("3.95".to_string()));
    assert_eq!(after_eq("a=b=c"), Some("b=c".to_string()));
    assert_eq!(after_eq("no value"), None);
    assert_eq!(after_eq("x ="), Some(String::new()));
}

#[test]
fn durations_written_together_add_up() {
    let pairs = [("1h", "30m"), ("2d", "5s"), ("45s", "45s"), ("1h 2m", "3s")];
    for (a, b) in pairs {
        let joined = format!("{a} \t{b}");
        assert_eq!(
            parse_duration(&joined),
            Some(parse_duration(a).unwrap() + parse_duration(b).unwrap())
        );
    }
}

fn number(v: &Option<String>) -> Option<f64> {
    v.as_deref().and_then(|t| t.parse().ok())
}

#[test]
fn parses_prusaslicer_footer() {
    let gcode = "\
; G-code\nG1 X0 Y0\n\
; filament used [mm] = 1234.56\n\
; filament used [cm3] = 3.21\n\
; filament used [g] = 3.95\n\
; estimated printing time (normal mode) = 1h 23m 45s\n";
    let s = gcode_footer(gcode);
    assert_eq!(number(&s.filament_mm), Some(1234.56));
    assert_eq!(number(&s.filament_cm3), Some(3.21));
    assert_eq!(s.filament_g.iter().find_map(|v| v.parse::<f64>().ok()), Some(3.95));
    assert_eq!(s.print_time.as_deref(), Some("1h 23m 45s"));
    assert_eq!(parse_duration(s.print_time.as_deref().unwrap()), Some(3600 + 23 * 60 + 45));
    assert!(s.print_time.is_some() || s.filament_mm.is_some() || !s.filament_g.is_empty());
}

#[test]
fn empty_gcode_yields_empty_stats() {
    let s = gcode_footer("G1 X0\nG1 Y0\n");
    assert!(s.print_time.is_none() && s.filament_mm.is_none() && s.filament_g.is_empty());
    assert!(s.filament_cm3.is_none());
}

#[test]
fn footer_keeps_last_time_and_every_gram_reading() {
    let gcode = ";;  Estimated printing time = 5m\r\n\
; TOTAL FILAMENT USED [g] = 0\n\
; filament used [g] = 2.5\n\
; estimated printing time (silent mode) = 1h\n\
; estimated printing time without value\n\
; filament used [mm]\n";
    let s = gcode_footer(gcode);
    assert_eq!(s.print_time.as_deref(), Some("1h"));
    assert_eq!(s.filament_g, vec!["0".to_string(), "2.5".to_string()]);
    assert_eq!(s.filament_mm, None);
    assert_eq!(s.filament_cm3, None);
}

#[test]
fn footer_kinds_ignore_case() {
    let k = |t: &str| footer_kind(&t.chars().collect::<Vec<char>>());
    assert_eq!(k("ESTIMATED PRINTING TIME = 1s"), FooterKind::PrintTime);
    assert_eq!(k("Filament used [cm3] = 1"), FooterKind::FilamentCm3);
    assert_eq!(k("filament used [mm] = 1"), FooterKind::FilamentMm);
    assert_eq!(k("total filament used [g] = 1"), FooterKind::FilamentG);
    assert_eq!(k("filament used = 1"), FooterKind::Other);
}
