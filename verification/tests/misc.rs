use demiourgos::mesh::Mesh;
use demiourgos::server::config::{secs_from_env, Config};
use demiourgos::server::strength::Orientation;
use demiourgos::server::tools::{ident_before_paren, scan_defs, sorted_unique};

fn cube_faces() -> Vec<[usize; 3]> {
    vec![
        [0, 2, 1],
        [0, 3, 2],
        [4, 5, 6],
        [4, 6, 7],
        [0, 1, 5],
        [0, 5, 4],
        [2, 3, 7],
        [2, 7, 6],
        [1, 2, 6],
        [1, 6, 5],
        [0, 4, 7],
        [0, 7, 3],
    ]
}

#[test]
fn unit_cube_is_watertight() {
    assert!(Mesh::new(8, cube_faces()).is_watertight());
}

#[test]
fn open_mesh_is_not_watertight() {
    let mut f = cube_faces();
    f.truncate(10);
    let m = Mesh::new(8, f);
    assert!(!m.is_watertight());
    assert_eq!(m.triangle_count(), 10);
}

#[test]
fn empty_and_doubled_meshes_are_not_watertight() {
    let m = Mesh::default();
    assert!(m.is_empty());
    assert!(!m.is_watertight());
    let mut f = cube_faces();
    f.extend(cube_faces());
    assert!(!Mesh::new(8, f).is_watertight());
}

#[test]
fn orientation_parsing() {
    assert_eq!("Lying".parse::<Orientation>().unwrap(), Orientation::Flat);
    assert_eq!("on-edge".parse::<Orientation>().unwrap(), Orientation::OnEdge);
    assert_eq!("across_layers".parse::<Orientation>().unwrap(), Orientation::Upright);
    assert_eq!(
        "sideways".parse::<Orientation>().unwrap_err(),
        "unknown orientation 'sideways' (expected flat, on_edge, or upright)"
    );
}

#[test]
fn timeouts_and_config() {
    assert_eq!(secs_from_env(None, 60), 60);
    assert_eq!(secs_from_env(Some("15"), 60), 15);
    assert_eq!(secs_from_env(Some("0"), 60), 60);
    assert_eq!(secs_from_env(Some(" 15"), 60), 60);
    assert_eq!(secs_from_env(Some("abc"), 30), 30);
    let c = Config::from_values(None, None, Some("5"), None, Some("-1"));
    assert_eq!(c.workspace_root, "workspace");
    assert_eq!(c.data_dir, "workspace/.demiourgos");
    assert_eq!(c.render_timeout, 5);
    assert_eq!(c.export_timeout, 120);
    assert_eq!(c.check_timeout, 30);
    let d = Config::from_values(Some("/w/"), Some("/d"), None, None, None);
    assert_eq!(d.data_dir, "/d");
}

#[test]
fn library_definitions_are_scanned() {
    let src = "module cube_rounded(size) {}\n  function  lerp2(a,b)=a;\nmodule (x)\nfunction Foo_Bar();\n// module ignored()";
    let mut modules = Vec::new();
    let mut functions = Vec::new();
    scan_defs(src, &None, &mut modules, &mut functions);
    assert_eq!(modules, vec!["cube_rounded".to_string()]);
    assert_eq!(functions, vec!["lerp2".to_string(), "Foo_Bar".to_string()]);
    let mut m2 = Vec::new();
    let mut f2 = Vec::new();
    scan_defs(src, &Some("bar".to_string()), &mut m2, &mut f2);
    assert!(m2.is_empty());
    assert_eq!(f2, vec!["Foo_Bar".to_string()]);
    assert_eq!(ident_before_paren("abc_1(x)"), Some("abc_1".to_string()));
    assert_eq!(ident_before_paren("(x)"), None);
}

#[test]
fn sorted_unique_sorts_dedups_and_caps() {
    let names: Vec<String> = ["b", "a", "c", "a", "ab", "é", "z"].iter().map(|s| s.to_string()).collect();
    assert_eq!(sorted_unique(names.clone(), 100), vec!["a", "ab", "b", "c", "z", "é"]);
    assert_eq!(sorted_unique(names.clone(), 2), vec!["a", "ab"]);
    assert_eq!(sorted_unique(names, 0), Vec::<String>::new());
    assert_eq!(sorted_unique(Vec::new(), 3), Vec::<String>::new());
}

#[test]
fn sorted_unique_matches_std_order() {
    let names: Vec<String> = ["beta", "Beta", "alpha", "alph", "_x", "10", "9"].iter().map(|s| s.to_string()).collect();
    let mut expected = names.clone();
    expected.sort();
    expected.dedup();
    assert_eq!(sorted_unique(names, 300), expected);
}

#[test]
fn identifiers_take_unicode_letters_and_digits() {
    assert_eq!(ident_before_paren("Größe2(x)"), Some("Größe2".to_string()));
    assert_eq!(ident_before_paren("名前 ()"), Some("名前".to_string()));
    assert_eq!(ident_before_paren("a-b()"), Some("a".to_string()));
    assert_eq!(ident_before_paren("-b()"), None);
}
