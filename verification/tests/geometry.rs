use demiourgos::server::geometry::{scad_path, Axis};

#[test]
fn axis_parse() {
    assert_eq!("X".parse::<Axis>().unwrap(), Axis::X);
    assert!("w".parse::<Axis>().is_err());
}

#[test]
fn axis_error_message_uses_normalized_name() {
    assert_eq!(
        " W ".parse::<Axis>().unwrap_err(),
        "unknown axis 'w' (expected 'x', 'y', or 'z')"
    );
    assert_eq!(" z".parse::<Axis>().unwrap(), Axis::Z);
}

#[test]
fn scad_paths_escape_backslashes_then_quotes() {
    assert_eq!(scad_path("/tmp/m.stl"), "/tmp/m.stl");
    assert_eq!(scad_path("C:\\a\"b"), "C:\\\\a\\\"b");
}
