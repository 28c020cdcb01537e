//! Interactive 3D viewer generation: a self-contained HTML page that shows an
//! exported mesh in an orbit-controlled WebGL viewer (Three.js). The STL and
//! the Three.js sources are inlined — the library modules through an import
//! map of base64 `data:` URLs — so the page works fully offline.

use vstd::prelude::*;
use vstd::utf8::encode_utf8;

use crate::server::result::{base64_encode, base64_model};
use crate::text::{
    chars_of, lead_len, lemma_replace_char_origin, replace_all, replace_str, skip_lead, string_of,
};

verus! {

/// The Three.js sources the page inlines: the core module and the two addons
/// it imports.
pub struct ViewerAssets {
    pub three: String,
    pub orbit_controls: String,
    pub stl_loader: String,
}

/// `&`, `<`, `>` and `"` replaced by their HTML entities (in that order).
pub open spec fn escape_html_model(s: Seq<char>) -> Seq<char> {
    replace_all(
        replace_all(replace_all(replace_all(s, "&"@, "&amp;"@), "<"@, "&lt;"@), ">"@, "&gt;"@),
        "\""@,
        "&quot;"@,
    )
}

/// HTML-escaped text holds no `<`, `>` or `"`, so it can neither open a tag
/// nor end an attribute value.
pub proof fn lemma_escaped_html_is_inert(s: Seq<char>)
    ensures
        !escape_html_model(s).contains('<'),
        !escape_html_model(s).contains('>'),
        !escape_html_model(s).contains('"'),
{
    reveal_strlit("&");
    reveal_strlit("<");
    reveal_strlit(">");
    reveal_strlit("\"");
    reveal_strlit("&amp;");
    reveal_strlit("&lt;");
    reveal_strlit("&gt;");
    reveal_strlit("&quot;");
    let r1 = replace_all(s, "&"@, "&amp;"@);
    let r2 = replace_all(r1, "<"@, "&lt;"@);
    let r3 = replace_all(r2, ">"@, "&gt;"@);
    let r4 = replace_all(r3, "\""@, "&quot;"@);
    assert("&"@ == seq!['&']);
    assert("<"@ == seq!['<']);
    assert(">"@ == seq!['>']);
    assert("\""@ == seq!['"']);
    if r4.contains('"') {
        lemma_replace_char_origin(r3, '"', "&quot;"@, '"');
    }
    if r4.contains('>') {
        lemma_replace_char_origin(r3, '"', "&quot;"@, '>');
        lemma_replace_char_origin(r2, '>', "&gt;"@, '>');
    }
    if r4.contains('<') {
        lemma_replace_char_origin(r3, '"', "&quot;"@, '<');
        lemma_replace_char_origin(r2, '>', "&gt;"@, '<');
        lemma_replace_char_origin(r1, '<', "&lt;"@, '<');
    }
}

/// Escape text for HTML element content and attribute values.
pub fn escape_html(s: &str) -> (r: String)
    ensures
        r@ == escape_html_model(s@),
{
    proof {
        reveal_strlit("&");
        reveal_strlit("<");
        reveal_strlit(">");
        reveal_strlit("\"");
    }
    let v = chars_of(s);
    let a = replace_str(v.as_slice(), "&", "&amp;");
    let b = replace_str(a.as_slice(), "<", "&lt;");
    let c = replace_str(b.as_slice(), ">", "&gt;");
    let d = replace_str(c.as_slice(), "\"", "&quot;");
    string_of(d.as_slice())
}

/// Base64 of the UTF-8 encoding of `s`.
fn b64(s: &str) -> (r: String)
    ensures
        r@ == base64_model(encode_utf8(s@)),
{
    base64_encode(s.as_bytes())
}

/// The page: the template with each placeholder replaced in turn.
pub open spec fn viewer_html_model(
    assets: ViewerAssets,
    title: Seq<char>,
    meta: Seq<char>,
    model_stl_base64: Seq<char>,
    theme_hex: Seq<char>,
) -> Seq<char> {
    let p1 = replace_all(TEMPLATE@, "__THREE_B64__"@, base64_model(encode_utf8(assets.three@)));
    let p2 = replace_all(p1, "__ORBIT_B64__"@, base64_model(encode_utf8(assets.orbit_controls@)));
    let p3 = replace_all(p2, "__STLLOADER_B64__"@, base64_model(encode_utf8(assets.stl_loader@)));
    let p4 = replace_all(p3, "__MODEL_B64__"@, model_stl_base64);
    let p5 = replace_all(p4, "__THEME__"@, theme_hex);
    let p6 = replace_all(p5, "__TITLE__"@, escape_html_model(title));
    replace_all(p6, "__META__"@, escape_html_model(meta))
}

/// Replace every `pat` in `s` by `rep`.
fn replace_string(s: &[char], pat: &str, rep: &str) -> (r: Vec<char>)
    requires
        pat@.len() > 0,
    ensures
        r@ == replace_all(s@, pat@, rep@),
{
    replace_str(s, pat, rep)
}

pub open spec fn is_hex_digit(c: char) -> bool {
    ('0' <= c && c <= '9') || ('a' <= c && c <= 'f') || ('A' <= c && c <= 'F')
}

/// The default model colour, a warm filament tone.
pub open spec fn default_theme() -> Seq<char> {
    "d9a441"@
}

/// The surface colour a viewer request asks for: the text after its leading
/// `#`s when that is exactly six hex digits, else the default.
pub open spec fn theme_model(color: Option<Seq<char>>) -> Seq<char> {
    match color {
        Some(c) => {
            let t = c.skip(lead_len(c, '#') as int);
            if t.len() == 6 && forall|i: int| 0 <= i < t.len() ==> is_hex_digit(#[trigger] t[i]) {
                t
            } else {
                default_theme()
            }
        },
        None => default_theme(),
    }
}

/// The hex colour for the viewer's model surface (`#` prefixes dropped), or
/// the default `d9a441` when the request gives none or an invalid one.
pub fn viewer_theme(color: Option<&str>) -> (r: String)
    ensures
        r@ == theme_model(match color {
            Some(c) => Some(c@),
            None => None,
        }),
{
    proof {
        reveal_strlit("d9a441");
    }
    match color {
        None => "d9a441".to_owned(),
        Some(c) => {
            let v = chars_of(c);
            let t = skip_lead(v.as_slice(), '#');
            if t.len() != 6 {
                return "d9a441".to_owned();
            }
            let mut k: usize = 0;
            while k < 6
                invariant
                    t@.len() == 6,
                    t@ == c@.skip(lead_len(c@, '#') as int),
                    color == Some(c),
                    k <= 6,
                    forall|j: int| 0 <= j < k ==> is_hex_digit(#[trigger] t@[j]),
                decreases 6 - k,
            {
                let ch = t[k];
                if !(('0' <= ch && ch <= '9') || ('a' <= ch && ch <= 'f') || ('A' <= ch && ch <= 'F')) {
                    assert(!is_hex_digit(c@.skip(lead_len(c@, '#') as int)[k as int]));
                    return "d9a441".to_owned();
                }
                k = k + 1;
            }
            string_of(t.as_slice())
        },
    }
}

/// Build a standalone, offline HTML viewer for a binary STL (base64-encoded).
///
/// `title` and `meta` are shown in an overlay (HTML-escaped);
/// `model_stl_base64` is the embedded model; `theme_hex` is the model surface
/// color (6 hex digits, no `#`).
pub fn viewer_html(
    assets: &ViewerAssets,
    title: &str,
    meta: &str,
    model_stl_base64: &str,
    theme_hex: &str,
) -> (r: String)
    ensures
        r@ == viewer_html_model(*assets, title@, meta@, model_stl_base64@, theme_hex@),
{
    proof {
        reveal_strlit("__THREE_B64__");
        reveal_strlit("__ORBIT_B64__");
        reveal_strlit("__STLLOADER_B64__");
        reveal_strlit("__MODEL_B64__");
        reveal_strlit("__THEME__");
        reveal_strlit("__TITLE__");
        reveal_strlit("__META__");
    }
    let t = chars_of(TEMPLATE);
    let three = b64(assets.three.as_str());
    let orbit = b64(assets.orbit_controls.as_str());
    let stl = b64(assets.stl_loader.as_str());
    let title_html = escape_html(title);
    let meta_html = escape_html(meta);
    let p1 = replace_string(t.as_slice(), "__THREE_B64__", three.as_str());
    let p2 = replace_string(p1.as_slice(), "__ORBIT_B64__", orbit.as_str());
    let p3 = replace_string(p2.as_slice(), "__STLLOADER_B64__", stl.as_str());
    let p4 = replace_string(p3.as_slice(), "__MODEL_B64__", model_stl_base64);
    let p5 = replace_string(p4.as_slice(), "__THEME__", theme_hex);
    let p6 = replace_string(p5.as_slice(), "__TITLE__", title_html.as_str());
    let p7 = replace_string(p6.as_slice(), "__META__", meta_html.as_str());
    string_of(p7.as_slice())
}

/// The page template; `__…__` placeholders are filled by [`viewer_html`].
pub const TEMPLATE: &'static str = r##"<!doctype html>
<html lang="en">
<head>
<meta charset="utf-8" />
<meta name="viewport" content="width=device-width, initial-scale=1" />
<title>__TITLE__ — Demiourgos viewer</title>
<style>
  :root { color-scheme: dark; }
  html, body { margin: 0; height: 100%; overflow: hidden; background: #1b1d23; }
  #app { position: fixed; inset: 0; }
  #info {
    position: fixed; top: 10px; left: 10px; z-index: 10;
    font: 13px/1.45 system-ui, sans-serif; color: #e7e7ea;
    background: rgba(0,0,0,.45); padding: 8px 11px; border-radius: 6px;
    backdrop-filter: blur(3px); pointer-events: none; max-width: 60ch;
  }
  #info b { font-size: 14px; }
  #info .meta { color: #aab; }
  #hint { position: fixed; bottom: 10px; left: 10px; z-index: 10;
    font: 12px system-ui, sans-serif; color: #889; }
  #err { position: fixed; inset: 0; display: none; place-items: center;
    color: #f88; font: 14px system-ui; text-align: center; padding: 2rem; }
</style>
</head>
<body>
<div id="app"></div>
<div id="info"><b>__TITLE__</b><br><span class="meta">__META__</span></div>
<div id="hint">drag to orbit · scroll to zoom · right-drag to pan · R to reset · fully offline</div>
<div id="err">Failed to initialize the 3D viewer — see the browser console.</div>

<script type="importmap">
{ "imports": {
  "three": "data:text/javascript;base64,__THREE_B64__",
  "three/addons/controls/OrbitControls.js": "data:text/javascript;base64,__ORBIT_B64__",
  "three/addons/loaders/STLLoader.js": "data:text/javascript;base64,__STLLOADER_B64__"
} }
</script>

<script type="module">
  import * as THREE from 'three';
  import { OrbitControls } from 'three/addons/controls/OrbitControls.js';
  import { STLLoader } from 'three/addons/loaders/STLLoader.js';

  try {
    const MODEL_B64 = "__MODEL_B64__";
    const bin = atob(MODEL_B64);
    const bytes = new Uint8Array(bin.length);
    for (let i = 0; i < bin.length; i++) bytes[i] = bin.charCodeAt(i);
    const geo = new STLLoader().parse(bytes.buffer);
    geo.computeVertexNormals();
    geo.computeBoundingBox();
    const bb = geo.boundingBox;
    const size = new THREE.Vector3(); bb.getSize(size);
    const center = new THREE.Vector3(); bb.getCenter(center);
    geo.translate(-center.x, -center.y, -center.z);
    const radius = size.length() / 2 || 50;

    const app = document.getElementById('app');
    const renderer = new THREE.WebGLRenderer({ antialias: true });
    renderer.setPixelRatio(window.devicePixelRatio);
    renderer.setSize(window.innerWidth, window.innerHeight);
    app.appendChild(renderer.domElement);

    const scene = new THREE.Scene();
    scene.background = new THREE.Color(0x1b1d23);

    const camera = new THREE.PerspectiveCamera(45, window.innerWidth / window.innerHeight, radius / 100, radius * 100);
    const start = radius * 2.6;
    camera.position.set(start, -start * 0.9, start * 0.7);

    const controls = new OrbitControls(camera, renderer.domElement);
    controls.enableDamping = true;
    controls.dampingFactor = 0.08;

    // OpenSCAD/CAD convention is Z-up.
    THREE.Object3D.DEFAULT_UP.set(0, 0, 1);
    camera.up.set(0, 0, 1);
    controls.update();

    const mat = new THREE.MeshStandardMaterial({ color: 0x__THEME__, metalness: 0.15, roughness: 0.55, flatShading: false });
    const mesh = new THREE.Mesh(geo, mat);
    scene.add(mesh);

    scene.add(new THREE.HemisphereLight(0xffffff, 0x444455, 0.9));
    const key = new THREE.DirectionalLight(0xffffff, 1.1); key.position.set(1, -1, 2); scene.add(key);
    const fill = new THREE.DirectionalLight(0xffffff, 0.5); fill.position.set(-1, 1, 0.5); scene.add(fill);

    const grid = new THREE.GridHelper(radius * 6, 24, 0x3a3d46, 0x2a2c33);
    grid.rotation.x = Math.PI / 2;           // grid in the X-Y (build) plane
    grid.position.z = -size.z / 2;           // under the part
    scene.add(grid);
    scene.add(new THREE.AxesHelper(radius * 1.4));

    addEventListener('resize', () => {
      camera.aspect = window.innerWidth / window.innerHeight;
      camera.updateProjectionMatrix();
      renderer.setSize(window.innerWidth, window.innerHeight);
    });
    addEventListener('keydown', (e) => { if (e.key === 'r' || e.key === 'R') controls.reset(); });

    (function animate() {
      requestAnimationFrame(animate);
      controls.update();
      renderer.render(scene, camera);
    })();
  } catch (e) {
    document.getElementById('err').style.display = 'grid';
    console.error(e);
  }
</script>
</body>
</html>
"##;

} // verus!
