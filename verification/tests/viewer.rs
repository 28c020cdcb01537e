use demiourgos::server::result::base64_encode;
use demiourgos::server::viewer::{escape_html, viewer_html, viewer_theme, ViewerAssets};

fn assets() -> ViewerAssets {
    ViewerAssets {
        three: "export const REVISION = '160';".to_string(),
        orbit_controls: "export class OrbitControls {}".to_string(),
        stl_loader: "export class STLLoader {}".to_string(),
    }
}

#[test]
fn html_inlines_three_and_model_offline() {
    let html = viewer_html(&assets(), "widget", "12 mm", "QUJD", "d9a441");
    assert!(html.contains("<title>widget"));
    assert!(html.contains("12 mm"));
    assert!(html.contains("QUJD"));
    assert!(html.contains("0xd9a441"));
    assert!(html.contains("data:text/javascript;base64,"));
    assert!(!html.contains("unpkg.com"));
    assert!(!html.contains("http://"));
    assert!(!html.contains("https://"));
    for ph in [
        "__THREE_B64__",
        "__ORBIT_B64__",
        "__STLLOADER_B64__",
        "__MODEL_B64__",
        "__TITLE__",
        "__THEME__",
    ] {
        assert!(!html.contains(ph), "leftover placeholder {ph}");
    }
    assert!(html.contains(&base64_encode(assets().three.as_bytes())));
}

#[test]
fn escapes_html_in_title() {
    let html = viewer_html(&assets(), "<x>&\"", "m", "AA", "fff");
    assert!(html.contains("&lt;x&gt;&amp;&quot;"));
}

#[test]
fn escape_html_order() {
    assert_eq!(escape_html("a&b<c>d\"e"), "a&amp;b&lt;c&gt;d&quot;e");
    assert_eq!(escape_html("&lt;"), "&amp;lt;");
}

#[test]
fn base64_standard_padding() {
    assert_eq!(base64_encode(b""), "");
    assert_eq!(base64_encode(b"f"), "Zg==");
    assert_eq!(base64_encode(b"fo"), "Zm8=");
    assert_eq!(base64_encode(b"foo"), "Zm9v");
    assert_eq!(base64_encode(b"ABC"), "QUJD");
    assert_eq!(base64_encode(&[0xff, 0xfe]), "//4=");
}

#[test]
fn theme_accepts_six_hex_digits_after_hashes() {
    assert_eq!(viewer_theme(None), "d9a441");
    assert_eq!(viewer_theme(Some("#2e9bd6")), "2e9bd6");
    assert_eq!(viewer_theme(Some("##A0B1C2")), "A0B1C2");
    assert_eq!(viewer_theme(Some("2e9bd")), "d9a441");
    assert_eq!(viewer_theme(Some("#2e9bdg")), "d9a441");
    assert_eq!(viewer_theme(Some(" #2e9bd6")), "d9a441");
    assert_eq!(viewer_theme(Some("")), "d9a441");
}
