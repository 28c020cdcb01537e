use demiourgos::server::workspace::Workspace;

#[test]
fn appends_scad_extension() {
    let n = Workspace::validate_name("bracket").unwrap();
    assert_eq!(n.file_name(), "bracket.scad");
    assert_eq!(n.stem(), "bracket");
}

#[test]
fn keeps_existing_extension() {
    let n = Workspace::validate_name("bracket.scad").unwrap();
    assert_eq!(n.file_name(), "bracket.scad");
    assert_eq!(n.stem(), "bracket");
}

#[test]
fn rejects_path_traversal() {
    assert!(Workspace::validate_name("../evil").is_err());
    assert!(Workspace::validate_name("sub/dir").is_err());
    assert!(Workspace::validate_name("a\\b").is_err());
    assert!(Workspace::validate_name("..").is_err());
    assert!(Workspace::validate_name("").is_err());
}

#[test]
fn rejects_odd_characters() {
    assert!(Workspace::validate_name("na me").is_err());
    assert!(Workspace::validate_name("we!rd").is_err());
}

#[test]
fn validation_messages() {
    assert_eq!(Workspace::validate_name("   ").unwrap_err(), "model name must not be empty");
    assert_eq!(
        Workspace::validate_name(" a/b ").unwrap_err(),
        "model name 'a/b' must not contain path separators"
    );
    assert_eq!(Workspace::validate_name("x..y").unwrap_err(), "model name 'x..y' is not allowed");
    assert_eq!(Workspace::validate_name(".").unwrap_err(), "model name '.' is not allowed");
    assert_eq!(
        Workspace::validate_name("we!rd.scad").unwrap_err(),
        "model name 'we!rd' may only contain letters, digits, '_', '-', and '.'"
    );
    assert_eq!(Workspace::validate_name(" v1.2-x_y ").unwrap().file_name(), "v1.2-x_y.scad");
    assert_eq!(Workspace::validate_name(".scad").unwrap().stem(), "");
}

#[test]
fn model_and_artifact_paths() {
    let ws = Workspace::from_dirs("/work", "/work/artifacts/");
    let n = Workspace::validate_name("cube").unwrap();
    assert_eq!(ws.model_path(&n), "/work/cube.scad");
    assert_eq!(ws.artifact_path("cube.png"), "/work/artifacts/cube.png");
    assert_eq!(ws.artifact_path("/abs.png"), "/abs.png");
    assert_eq!(ws.root(), "/work");
    assert_eq!(ws.artifacts_dir(), "/work/artifacts/");
    assert_eq!(n.clone(), n);
}

#[test]
fn validating_a_validated_name_changes_nothing() {
    for raw in ["bracket", " bracket.scad ", "a-b_c.1", ".scad"] {
        let once = Workspace::validate_name(raw).unwrap();
        let twice = Workspace::validate_name(once.file_name()).unwrap();
        assert_eq!(once.file_name(), twice.file_name());
        assert!(once.file_name().ends_with(".scad"));
        assert_eq!(format!("{}.scad", once.stem()), once.file_name());
    }
    // A trailing dot meets the appended extension: the result is refused on
    // a second pass.
    let dotted = Workspace::validate_name("a.").unwrap();
    assert_eq!(dotted.file_name(), "a..scad");
    assert!(Workspace::validate_name(dotted.file_name()).is_err());
}

#[test]
fn model_paths_are_direct_children_of_the_root() {
    let ws = Workspace::from_dirs("/w", "/w/artifacts");
    let name = Workspace::validate_name("part").unwrap();
    assert_eq!(ws.model_path(&name), "/w/part.scad");
    let ws = Workspace::from_dirs("/w/", "/w/artifacts");
    assert_eq!(ws.model_path(&name), "/w/part.scad");
}
