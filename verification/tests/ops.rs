use demiourgos::scad::camera::View;
use demiourgos::scad::ops::{
    compile_check_args, export_args, render_args, Define, ExportFormat, Projection, RenderOptions,
};

#[test]
fn compile_check_args_emit_csg_output_last_file() {
    let args = compile_check_args("part.scad", "/tmp/out.csg", &[Define::new("h", "10")]);
    assert_eq!(args, vec!["-o", "/tmp/out.csg", "-D", "h=10", "part.scad"]);
}

#[test]
fn render_args_include_camera_imgsize_projection_and_render() {
    let opts = RenderOptions::for_view("part.scad", "out.png", View::Iso);
    let args = render_args(&opts);
    assert!(args.contains(&"--imgsize=800,600".to_string()));
    assert!(args.contains(&"--projection=o".to_string()));
    assert!(args.contains(&"--camera=0,0,0,55,0,25,500".to_string()));
    assert!(args.contains(&"--viewall".to_string()));
    assert!(args.contains(&"--autocenter".to_string()));
    let ri = args.iter().position(|a| a == "--render").unwrap();
    assert_eq!(args[ri + 1], "");
    assert_eq!(args.last().unwrap(), "part.scad");
}

#[test]
fn render_args_apply_fn_override() {
    let mut opts = RenderOptions::for_view("p.scad", "o.png", View::Front);
    opts.fn_ = Some(128);
    let args = render_args(&opts);
    let i = args.iter().position(|a| a == "-D").unwrap();
    assert_eq!(args[i + 1], "$fn=128");
}

#[test]
fn export_args_binstl_set_format_flag() {
    let args = export_args("p.scad", "o.stl", ExportFormat::BinStl, None, &[]);
    assert_eq!(args, vec!["-o", "o.stl", "--export-format", "binstl", "p.scad"]);
}

#[test]
fn export_args_off_has_no_format_flag() {
    let args = export_args("p.scad", "o.off", ExportFormat::Off, Some(64), &[]);
    assert_eq!(args, vec!["-o", "o.off", "-D", "$fn=64", "p.scad"]);
}

#[test]
fn render_args_full_order() {
    let defs = [Define::new("a", "1"), Define::new("b", "\"x\"")];
    let opts = RenderOptions {
        file: "m.scad",
        output_png: "m.png",
        width: 1024,
        height: 0,
        projection: Projection::Perspective,
        camera: None,
        viewall: false,
        autocenter: true,
        render_full: false,
        fn_: Some(0),
        defines: &defs,
        colorscheme: Some("Tomorrow"),
    };
    assert_eq!(
        render_args(&opts),
        vec![
            "-o",
            "m.png",
            "--imgsize=1024,0",
            "--projection=p",
            "--autocenter",
            "--colorscheme=Tomorrow",
            "-D",
            "$fn=0",
            "-D",
            "a=1",
            "-D",
            "b=\"x\"",
            "m.scad"
        ]
    );
}

#[test]
fn formats_extensions_and_flags() {
    assert_eq!(ExportFormat::AsciiStl.extension(), "stl");
    assert_eq!(ExportFormat::ThreeMf.extension(), "3mf");
    assert_eq!(ExportFormat::Svg.extension(), "svg");
    assert_eq!(ExportFormat::AsciiStl.export_format_flag(), Some("asciistl"));
    assert_eq!(ExportFormat::Dxf.export_format_flag(), None);
    assert_eq!(Projection::Ortho.flag(), "o");
    assert_eq!(Define::new("n", "3").arg(), "n=3");
}

#[test]
fn export_format_names() {
    assert_eq!(ExportFormat::from_name("stl", true), Ok(ExportFormat::BinStl));
    assert_eq!(ExportFormat::from_name(" STL ", false), Ok(ExportFormat::AsciiStl));
    assert_eq!(ExportFormat::from_name("3MF", true), Ok(ExportFormat::ThreeMf));
    assert_eq!(ExportFormat::from_name("off", false), Ok(ExportFormat::Off));
    assert_eq!(ExportFormat::from_name("amf", true), Ok(ExportFormat::Amf));
    assert_eq!(ExportFormat::from_name("dxf", true), Ok(ExportFormat::Dxf));
    assert_eq!(ExportFormat::from_name("Svg", true), Ok(ExportFormat::Svg));
    assert_eq!(
        ExportFormat::from_name(" OBJ", true),
        Err("unsupported format 'obj' (expected stl, 3mf, off, amf, dxf, or svg)".to_string())
    );
}

#[test]
fn every_extension_names_its_format() {
    for f in [
        ExportFormat::BinStl,
        ExportFormat::AsciiStl,
        ExportFormat::ThreeMf,
        ExportFormat::Off,
        ExportFormat::Amf,
        ExportFormat::Dxf,
        ExportFormat::Svg,
    ] {
        let binary = f != ExportFormat::AsciiStl;
        assert_eq!(ExportFormat::from_name(f.extension(), binary), Ok(f));
    }
}
