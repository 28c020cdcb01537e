use demiourgos::scad::camera::View;
use demiourgos::scad::ops::default_camera_string;

#[test]
fn parses_known_views_case_insensitively() {
    assert_eq!("FRONT".parse::<View>().unwrap(), View::Front);
    assert_eq!("  iso ".parse::<View>().unwrap(), View::Iso);
    assert_eq!("rear".parse::<View>().unwrap(), View::Back);
    assert!("diagonal".parse::<View>().is_err());
}

#[test]
fn all_views_round_trip_through_label() {
    for v in View::all() {
        assert_eq!(v.label().parse::<View>().unwrap(), v);
    }
}

#[test]
fn view_aliases_parse() {
    assert_eq!("bot".parse::<View>().unwrap(), View::Bottom);
    assert_eq!("Isometric".parse::<View>().unwrap(), View::Iso);
    assert_eq!("3D".parse::<View>().unwrap(), View::Iso);
    assert_eq!("\tLeft\n".parse::<View>().unwrap(), View::Left);
}

#[test]
fn unknown_view_keeps_name_and_explains() {
    let e = "diagonal ".parse::<View>().unwrap_err();
    assert_eq!(e.0, "diagonal ");
    assert_eq!(
        e.to_string(),
        "unknown view 'diagonal ' (expected one of: front, back, left, right, top, bottom, iso)"
    );
}

#[test]
fn rotations_match_gui_views() {
    assert_eq!(View::Front.rotation(), (0, 0, 0));
    assert_eq!(View::Back.rotation(), (0, 0, 180));
    assert_eq!(View::Right.rotation(), (0, 0, 270));
    assert_eq!(View::Bottom.rotation(), (270, 0, 0));
    assert_eq!(View::Iso.rotation(), (55, 0, 25));
}

#[test]
fn default_camera_strings_are_clean() {
    assert_eq!(default_camera_string(View::Front), "0,0,0,0,0,0,500");
    assert_eq!(default_camera_string(View::Top), "0,0,0,90,0,0,500");
    assert_eq!(default_camera_string(View::Iso), "0,0,0,55,0,25,500");
}
