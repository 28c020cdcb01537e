use demiourgos::scad::camera::View;
use demiourgos::scad::ops::Projection;
use demiourgos::server::params::{
    defines_from_map, escape_scad_string, parse_projection, parse_view, scad_expr, ParamValue,
};

fn pairs(items: Vec<(&str, ParamValue)>) -> Vec<(String, ParamValue)> {
    items.into_iter().map(|(k, v)| (k.to_string(), v)).collect()
}

#[test]
fn numbers_and_bools_are_bare() {
    let d = defines_from_map(&pairs(vec![
        ("h", ParamValue::Number("12".to_string())),
        ("on", ParamValue::Bool(true)),
    ]));
    assert_eq!(d[0].name, "h");
    assert_eq!(d[0].expr, "12");
    assert_eq!(d[1].name, "on");
    assert_eq!(d[1].expr, "true");
}

#[test]
fn strings_are_quoted_and_escaped() {
    let d = defines_from_map(&pairs(vec![("label", ParamValue::Str("a\"b".to_string()))]));
    assert_eq!(d[0].expr, "\"a\\\"b\"");
}

#[test]
fn arrays_become_vectors() {
    let d = defines_from_map(&pairs(vec![(
        "size",
        ParamValue::Array(vec![
            ParamValue::Number("1".to_string()),
            ParamValue::Number("2".to_string()),
            ParamValue::Number("3".to_string()),
        ]),
    )]));
    assert_eq!(d[0].expr, "[1,2,3]");
}

#[test]
fn projection_parsing() {
    assert_eq!(parse_projection("ortho").unwrap(), Projection::Ortho);
    assert_eq!(parse_projection("P").unwrap(), Projection::Perspective);
    assert!(parse_projection("isometric").is_err());
}

#[test]
fn projection_error_and_view_error_messages() {
    assert_eq!(
        parse_projection(" Iso ").unwrap_err(),
        "unknown projection 'iso' (expected 'ortho' or 'perspective')"
    );
    assert_eq!(parse_view("Top").unwrap(), View::Top);
    assert_eq!(
        parse_view("up").unwrap_err(),
        "unknown view 'up' (expected one of: front, back, left, right, top, bottom, iso)"
    );
}

#[test]
fn nested_and_empty_values() {
    assert_eq!(scad_expr(&ParamValue::Null), "undef");
    assert_eq!(scad_expr(&ParamValue::Object), "undef");
    assert_eq!(scad_expr(&ParamValue::Array(vec![])), "[]");
    assert_eq!(
        scad_expr(&ParamValue::Array(vec![
            ParamValue::Array(vec![ParamValue::Bool(false)]),
            ParamValue::Str("q\\".to_string()),
        ])),
        "[[false],\"q\\\\\"]"
    );
    assert_eq!(escape_scad_string("\\\""), "\\\\\\\"");
}

/// How OpenSCAD reads a string literal's body: a backslash takes the next
/// character literally.
fn read_back(e: &str) -> String {
    let mut out = String::new();
    let mut it = e.chars();
    while let Some(c) = it.next() {
        if c == '\\' {
            if let Some(n) = it.next() {
                out.push(n);
                continue;
            }
        }
        out.push(c);
    }
    out
}

#[test]
fn escaped_strings_read_back_unchanged() {
    for s in ["plain", "a\"b", "back\\slash", "\\\"", "\\n is not a newline", "", "\"\"\\\\"] {
        assert_eq!(read_back(&escape_scad_string(s)), s);
    }
}
