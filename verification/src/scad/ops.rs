//! OpenSCAD command lines: pure argument builders for compile checks, PNG
//! renders and exports. Paths are carried as text, exactly as they appear on
//! the command line; running the binary is the caller's business.

use vstd::prelude::*;
use vstd::view::View as _;

use crate::scad::camera::{view_rotation, View};
use crate::text::{
    chars_of, concat3, decimal, eq_lit, lower, push_chars, push_decimal, push_lit, string_of, trim,
    trimmed_lower,
};

verus! {

/// Projection mode for renders.
#[derive(Debug, Clone, Copy, PartialEq, Eq, Structural)]
pub enum Projection {
    Ortho,
    Perspective,
}

pub open spec fn projection_flag(p: Projection) -> Seq<char> {
    match p {
        Projection::Ortho => "o"@,
        Projection::Perspective => "p"@,
    }
}

impl Projection {
    /// OpenSCAD's `--projection` value (`o` or `p`).
    pub fn flag(self) -> (r: &'static str)
        ensures
            r@ == projection_flag(self),
    {
        match self {
            Projection::Ortho => "o",
            Projection::Perspective => "p",
        }
    }
}

/// A single `-D name=expr` predefinition. `expr` is raw OpenSCAD source
/// (numbers bare, strings already quoted).
#[derive(Debug, Clone, PartialEq, Eq)]
pub struct Define {
    pub name: String,
    pub expr: String,
}

impl Define {
    pub fn new(name: &str, expr: &str) -> (r: Define)
        ensures
            r.name@ == name@,
            r.expr@ == expr@,
    {
        Define { name: name.to_owned(), expr: expr.to_owned() }
    }

    /// The `name=expr` argument.
    pub fn arg(&self) -> (r: String)
        ensures
            r@ == define_arg(*self),
    {
        let mut out = chars_of(self.name.as_str());
        push_lit(&mut out, "=");
        let e = chars_of(self.expr.as_str());
        push_chars(&mut out, e.as_slice());
        string_of(out.as_slice())
    }
}

pub open spec fn define_arg(d: Define) -> Seq<char> {
    d.name@ + "="@ + d.expr@
}

/// `-D name=expr` for each define, in order.
pub open spec fn define_args(ds: Seq<Define>) -> Seq<Seq<char>>
    decreases ds.len(),
{
    if ds.len() == 0 {
        Seq::empty()
    } else {
        define_args(ds.drop_last()) + seq!["-D"@, define_arg(ds.last())]
    }
}

/// `-D $fn=N` when an override is requested.
pub open spec fn fn_args(fn_: Option<u32>) -> Seq<Seq<char>> {
    match fn_ {
        Some(n) => seq!["-D"@, "$fn="@ + decimal(n as nat)],
        None => Seq::empty(),
    }
}

pub open spec fn strings_model(v: Seq<String>) -> Seq<Seq<char>> {
    v.map_values(|s: String| s@)
}

fn push_arg(args: &mut Vec<String>, lit: &str)
    ensures
        strings_model(final(args)@) == strings_model(old(args)@).push(lit@),
{
    args.push(lit.to_owned());
    assert(strings_model(args@) =~= strings_model(old(args)@).push(lit@));
}

fn push_arg_chars(args: &mut Vec<String>, v: &[char])
    ensures
        strings_model(final(args)@) == strings_model(old(args)@).push(v@),
{
    args.push(string_of(v));
    assert(strings_model(args@) =~= strings_model(old(args)@).push(v@));
}

/// Push `-D name=expr` for each define onto `args`.
fn push_defines(args: &mut Vec<String>, defines: &[Define])
    ensures
        strings_model(final(args)@) == strings_model(old(args)@) + define_args(defines@),
{
    let mut i: usize = 0;
    assert(defines@.take(0) =~= Seq::<Define>::empty());
    assert(strings_model(args@) =~= strings_model(old(args)@) + define_args(
        defines@.take(0),
    ));
    while i < defines.len()
        invariant
            i <= defines@.len(),
            strings_model(args@) == strings_model(old(args)@) + define_args(
                defines@.take(i as int),
            ),
        decreases defines@.len() - i,
    {
        push_arg(args, "-D");
        let ghost mid = strings_model(args@);
        let a = defines[i].arg();
        args.push(a);
        proof {
            assert(strings_model(args@) =~= mid.push(define_arg(defines@[i as int])));
            assert(defines@.take(i + 1).drop_last() =~= defines@.take(i as int));
            assert(defines@.take(i + 1).last() == defines@[i as int]);
            assert(strings_model(args@) =~= strings_model(old(args)@) + define_args(
                defines@.take(i + 1),
            ));
        }
        i = i + 1;
    }
    assert(defines@.take(i as int) =~= defines@);
}

/// Push a `$fn=N` override (as a define) when requested.
fn push_fn(args: &mut Vec<String>, fn_: Option<u32>)
    ensures
        strings_model(final(args)@) == strings_model(old(args)@) + fn_args(fn_),
{
    match fn_ {
        Some(n) => {
            push_arg(args, "-D");
            let mut v = chars_of("$fn=");
            push_decimal(&mut v, n as u64);
            push_arg_chars(args, v.as_slice());
            assert(strings_model(args@) =~= strings_model(old(args)@) + fn_args(fn_));
        },
        None => {
            assert(strings_model(args@) =~= strings_model(old(args)@) + fn_args(fn_));
        },
    }
}

/// `a` ends with `-D` and `name=expr` for each define of `ds`, in the order
/// given, followed by exactly one more argument.
pub open spec fn ends_with_defines(a: Seq<Seq<char>>, ds: Seq<Define>) -> bool {
    let n = ds.len() as int;
    &&& a.len() >= 2 * n + 1
    &&& forall|i: int|
        0 <= i < n ==> a.subrange(a.len() - 1 - 2 * (n - i), a.len() + 1 - 2 * (n - i)) == seq![
            "-D"@,
            (#[trigger] ds[i]).name@ + "="@ + ds[i].expr@,
        ]
}

proof fn lemma_define_args_shape(ds: Seq<Define>)
    ensures
        define_args(ds).len() == 2 * ds.len(),
        forall|i: int| 0 <= i < ds.len() ==> (#[trigger] define_args(ds)[2 * i]) == "-D"@,
        forall|i: int|
            0 <= i < ds.len() ==> define_args(ds)[2 * i + 1] == (#[trigger] ds[i]).name@ + "="@
                + ds[i].expr@,
    decreases ds.len(),
{
    if ds.len() > 0 {
        let p = ds.drop_last();
        lemma_define_args_shape(p);
        let d = define_args(ds);
        let dp = define_args(p);
        let tail = seq!["-D"@, define_arg(ds.last())];
        assert(d == dp + tail);
        assert forall|i: int| 0 <= i < ds.len() implies #[trigger] d[2 * i] == "-D"@ by {
            if i < p.len() {
                assert(dp[2 * i] == "-D"@);
                assert(d[2 * i] == dp[2 * i]);
            } else {
                assert(d[2 * i] == tail[0]);
            }
        }
        assert forall|i: int| 0 <= i < ds.len() implies d[2 * i + 1] == (#[trigger] ds[i]).name@
            + "="@ + ds[i].expr@ by {
            if i < p.len() {
                assert(p[i] == ds[i]);
                assert(d[2 * i + 1] == dp[2 * i + 1]);
            } else {
                assert(ds.last() == ds[i]);
                assert(d[2 * i + 1] == tail[1]);
            }
        }
    }
}

/// Arguments ending in `define_args(ds)` and one more argument end with the
/// defines of `ds`.
proof fn lemma_prefix_defines_last(pre: Seq<Seq<char>>, ds: Seq<Define>, last: Seq<char>)
    ensures
        ({
            let a = pre + define_args(ds) + seq![last];
            &&& ends_with_defines(a, ds)
            &&& a.last() == last
            &&& a.len() == pre.len() + 2 * ds.len() + 1
            &&& forall|k: int| 0 <= k < pre.len() ==> a[k] == pre[k]
        }),
{
    reveal_strlit("-D");
    lemma_define_args_shape(ds);
    let a = pre + define_args(ds) + seq![last];
    let n = ds.len() as int;
    let d = define_args(ds);
    let pd = pre + d;
    assert(a.len() == pre.len() + 2 * n + 1);
    assert forall|i: int| 0 <= i < n implies a.subrange(
        a.len() - 1 - 2 * (n - i),
        a.len() + 1 - 2 * (n - i),
    ) == seq!["-D"@, (#[trigger] ds[i]).name@ + "="@ + ds[i].expr@] by {
        assert(a.len() - 1 - 2 * (n - i) == pre.len() + 2 * i);
        assert(a[pre.len() + 2 * i] == pd[pre.len() + 2 * i]);
        assert(pd[pre.len() + 2 * i] == d[2 * i]);
        assert(d[2 * i] == "-D"@);
        assert(a[pre.len() + 2 * i + 1] == pd[pre.len() + 2 * i + 1]);
        assert(pd[pre.len() + 2 * i + 1] == d[2 * i + 1]);
        assert(a.subrange(pre.len() + 2 * i, pre.len() + 2 * i + 2) =~= seq![
            "-D"@,
            ds[i].name@ + "="@ + ds[i].expr@,
        ]);
    }
    assert forall|k: int| 0 <= k < pre.len() implies a[k] == pre[k] by {
        assert(a[k] == pd[k]);
    }
}

/// A compile check passes every define to OpenSCAD: `-o` and the output,
/// then `-D name=expr` for each define in order, then the model file.
pub proof fn lemma_compile_check_passes_defines(file: Seq<char>, output_csg: Seq<char>, defines: Seq<Define>)
    ensures
        ({
            let a = compile_check_model(file, output_csg, defines);
            &&& a.len() == 2 * defines.len() + 3
            &&& a[0] == "-o"@
            &&& a[1] == output_csg
            &&& ends_with_defines(a, defines)
            &&& a.last() == file
        }),
{
    lemma_prefix_defines_last(seq!["-o"@, output_csg], defines, file);
}

pub open spec fn compile_check_model(file: Seq<char>, output_csg: Seq<char>, defines: Seq<Define>) -> Seq<Seq<char>> {
    seq!["-o"@, output_csg] + define_args(defines) + seq![file]
}

/// Build argv for a fast compile check that emits a throwaway `.csg`.
pub fn compile_check_args(file: &str, output_csg: &str, defines: &[Define]) -> (r: Vec<String>)
    ensures
        strings_model(r@) == compile_check_model(file@, output_csg@, defines@),
{
    let mut args: Vec<String> = Vec::new();
    assert(strings_model(args@) =~= Seq::<Seq<char>>::empty());
    push_arg(&mut args, "-o");
    push_arg(&mut args, output_csg);
    push_defines(&mut args, defines);
    push_arg(&mut args, file);
    assert(strings_model(args@) =~= compile_check_model(file@, output_csg@, defines@));
    args
}

/// Options for a PNG render.
#[derive(Debug, Clone)]
pub struct RenderOptions<'a> {
    pub file: &'a str,
    pub output_png: &'a str,
    pub width: u32,
    pub height: u32,
    pub projection: Projection,
    /// Full `--camera` string (no prefix). When `None`, no `--camera` is passed.
    pub camera: Option<String>,
    pub viewall: bool,
    pub autocenter: bool,
    /// Force full CGAL render (clean geometry) rather than preview.
    pub render_full: bool,
    pub fn_: Option<u32>,
    pub defines: &'a [Define],
    pub colorscheme: Option<&'a str>,
}

/// The gimbal camera string of a named view at the default distance of 500
/// (`--viewall` reframes the object anyway).
pub open spec fn default_camera(view: View) -> Seq<char> {
    let (rx, ry, rz) = view_rotation(view);
    "0,0,0,"@ + decimal(rx as nat) + ","@ + decimal(ry as nat) + ","@ + decimal(rz as nat)
        + ",500"@
}

/// The camera string of `view` at the default distance.
pub fn default_camera_string(view: View) -> (r: String)
    ensures
        r@ == default_camera(view),
{
    let (rx, ry, rz) = view.rotation();
    let mut v = chars_of("0,0,0,");
    push_decimal(&mut v, rx as u64);
    push_lit(&mut v, ",");
    push_decimal(&mut v, ry as u64);
    push_lit(&mut v, ",");
    push_decimal(&mut v, rz as u64);
    push_lit(&mut v, ",500");
    string_of(v.as_slice())
}

impl<'a> RenderOptions<'a> {
    /// Render options for a named view with sensible defaults: 800×600,
    /// orthographic, the view's camera, `--viewall --autocenter`, full render.
    pub fn for_view(file: &'a str, output_png: &'a str, view: View) -> (r: Self)
        ensures
            r.file == file,
            r.output_png == output_png,
            r.width == 800,
            r.height == 600,
            r.projection == Projection::Ortho,
            r.camera matches Some(c) && c@ == default_camera(view),
            r.viewall,
            r.autocenter,
            r.render_full,
            r.fn_ is None,
            r.defines@.len() == 0,
            r.colorscheme is None,
    {
        RenderOptions {
            file,
            output_png,
            width: 800,
            height: 600,
            projection: Projection::Ortho,
            camera: Some(default_camera_string(view)),
            viewall: true,
            autocenter: true,
            render_full: true,
            fn_: None,
            defines: &[],
            colorscheme: None,
        }
    }
}

pub open spec fn flag_args(on: bool, arg: Seq<char>) -> Seq<Seq<char>> {
    if on {
        seq![arg]
    } else {
        Seq::empty()
    }
}

/// The argv of a PNG render.
pub open spec fn render_model(o: RenderOptions) -> Seq<Seq<char>> {
    seq![
        "-o"@,
        o.output_png@,
        "--imgsize="@ + decimal(o.width as nat) + ","@ + decimal(o.height as nat),
        "--projection="@ + projection_flag(o.projection),
    ] + match o.camera {
        Some(c) => seq!["--camera="@ + c@],
        None => Seq::empty(),
    } + flag_args(o.viewall, "--viewall"@) + flag_args(o.autocenter, "--autocenter"@)
        + (if o.render_full {
        seq!["--render"@, Seq::empty()]
    } else {
        Seq::empty()
    }) + match o.colorscheme {
        Some(s) => seq!["--colorscheme="@ + s@],
        None => Seq::empty(),
    } + fn_args(o.fn_) + define_args(o.defines@) + seq![o.file@]
}

/// Build argv for a PNG render.
///
/// `--render` takes a value (a CSG element limit; empty means "all"), so it
/// is followed by a separate, empty argument.
pub fn render_args(opts: &RenderOptions) -> (r: Vec<String>)
    ensures
        strings_model(r@) == render_model(*opts),
{
    let mut args: Vec<String> = Vec::new();
    assert(strings_model(args@) =~= Seq::<Seq<char>>::empty());
    push_arg(&mut args, "-o");
    push_arg(&mut args, opts.output_png);
    let mut size = chars_of("--imgsize=");
    push_decimal(&mut size, opts.width as u64);
    push_lit(&mut size, ",");
    push_decimal(&mut size, opts.height as u64);
    push_arg_chars(&mut args, size.as_slice());
    let mut proj = chars_of("--projection=");
    push_lit(&mut proj, opts.projection.flag());
    push_arg_chars(&mut args, proj.as_slice());
    let ghost base = strings_model(args@);
    match &opts.camera {
        Some(cam) => {
            let mut c = chars_of("--camera=");
            let cc = chars_of(cam.as_str());
            push_chars(&mut c, cc.as_slice());
            push_arg_chars(&mut args, c.as_slice());
        },
        None => {},
    }
    let ghost after_cam = strings_model(args@);
    if opts.viewall {
        push_arg(&mut args, "--viewall");
    }
    let ghost after_viewall = strings_model(args@);
    if opts.autocenter {
        push_arg(&mut args, "--autocenter");
    }
    let ghost after_center = strings_model(args@);
    if opts.render_full {
        push_arg(&mut args, "--render");
        push_arg(&mut args, "");
    }
    let ghost after_render = strings_model(args@);
    match opts.colorscheme {
        Some(scheme) => {
            let mut c = chars_of("--colorscheme=");
            push_lit(&mut c, scheme);
            push_arg_chars(&mut args, c.as_slice());
        },
        None => {},
    }
    let ghost after_scheme = strings_model(args@);
    push_fn(&mut args, opts.fn_);
    push_defines(&mut args, opts.defines);
    push_arg(&mut args, opts.file);
    proof {
        reveal_strlit("");
        assert(""@ =~= Seq::<char>::empty());
        let o = *opts;
        assert(after_cam =~= base + match o.camera {
            Some(c) => seq!["--camera="@ + c@],
            None => Seq::empty(),
        });
        assert(after_viewall =~= after_cam + flag_args(o.viewall, "--viewall"@));
        assert(after_center =~= after_viewall + flag_args(o.autocenter, "--autocenter"@));
        assert(after_render =~= after_center + (if o.render_full {
            seq!["--render"@, Seq::empty()]
        } else {
            Seq::empty()
        }));
        assert(after_scheme =~= after_render + match o.colorscheme {
            Some(s) => seq!["--colorscheme="@ + s@],
            None => Seq::empty(),
        });
        assert(strings_model(args@) =~= render_model(o));
    }
    args
}

/// Export formats Demiourgos can produce.
#[derive(Debug, Clone, Copy, PartialEq, Eq, Structural)]
pub enum ExportFormat {
    BinStl,
    AsciiStl,
    ThreeMf,
    Off,
    Amf,
    Dxf,
    Svg,
}

pub open spec fn format_extension(f: ExportFormat) -> Seq<char> {
    match f {
        ExportFormat::BinStl | ExportFormat::AsciiStl => "stl"@,
        ExportFormat::ThreeMf => "3mf"@,
        ExportFormat::Off => "off"@,
        ExportFormat::Amf => "amf"@,
        ExportFormat::Dxf => "dxf"@,
        ExportFormat::Svg => "svg"@,
    }
}

pub open spec fn format_flag(f: ExportFormat) -> Option<Seq<char>> {
    match f {
        ExportFormat::BinStl => Some("binstl"@),
        ExportFormat::AsciiStl => Some("asciistl"@),
        _ => None,
    }
}

impl ExportFormat {
    /// Output file extension for this format.
    pub fn extension(self) -> (r: &'static str)
        ensures
            r@ == format_extension(self),
    {
        match self {
            ExportFormat::BinStl | ExportFormat::AsciiStl => "stl",
            ExportFormat::ThreeMf => "3mf",
            ExportFormat::Off => "off",
            ExportFormat::Amf => "amf",
            ExportFormat::Dxf => "dxf",
            ExportFormat::Svg => "svg",
        }
    }

    /// Explicit `--export-format` value, when one is needed to disambiguate
    /// (only STL has an ascii/binary choice the extension can't express).
    pub fn export_format_flag(self) -> (r: Option<&'static str>)
        ensures
            match r {
                Some(s) => format_flag(self) == Some(s@),
                None => format_flag(self) is None,
            },
    {
        match self {
            ExportFormat::BinStl => Some("binstl"),
            ExportFormat::AsciiStl => Some("asciistl"),
            _ => None,
        }
    }
}

/// The format a requested name selects (trimmed, ASCII case ignored): `stl`
/// is binary or ASCII STL as `binary` says.
pub open spec fn format_named(k: Seq<char>, binary: bool) -> Option<ExportFormat> {
    if k == "stl"@ {
        Some(if binary { ExportFormat::BinStl } else { ExportFormat::AsciiStl })
    } else if k == "3mf"@ {
        Some(ExportFormat::ThreeMf)
    } else if k == "off"@ {
        Some(ExportFormat::Off)
    } else if k == "amf"@ {
        Some(ExportFormat::Amf)
    } else if k == "dxf"@ {
        Some(ExportFormat::Dxf)
    } else if k == "svg"@ {
        Some(ExportFormat::Svg)
    } else {
        None
    }
}

pub open spec fn parse_format_model(s: Seq<char>, binary: bool) -> Result<ExportFormat, Seq<char>> {
    let k = lower(trim(s));
    match format_named(k, binary) {
        Some(f) => Ok(f),
        None => Err("unsupported format '"@ + k + "' (expected stl, 3mf, off, amf, dxf, or svg)"@),
    }
}

impl ExportFormat {
    /// The export format a tool request names: `stl` (binary unless `binary`
    /// is false), `3mf`, `off`, `amf`, `dxf` or `svg`; whitespace and ASCII
    /// case are ignored.
    pub fn from_name(s: &str, binary: bool) -> (r: Result<ExportFormat, String>)
        ensures
            match r {
                Ok(f) => parse_format_model(s@, binary) == Ok::<ExportFormat, Seq<char>>(f),
                Err(m) => parse_format_model(s@, binary) == Err::<ExportFormat, Seq<char>>(m@),
            },
    {
        let k = trimmed_lower(s);
        let k = k.as_slice();
        if eq_lit(k, "stl") {
            Ok(if binary { ExportFormat::BinStl } else { ExportFormat::AsciiStl })
        } else if eq_lit(k, "3mf") {
            Ok(ExportFormat::ThreeMf)
        } else if eq_lit(k, "off") {
            Ok(ExportFormat::Off)
        } else if eq_lit(k, "amf") {
            Ok(ExportFormat::Amf)
        } else if eq_lit(k, "dxf") {
            Ok(ExportFormat::Dxf)
        } else if eq_lit(k, "svg") {
            Ok(ExportFormat::Svg)
        } else {
            Err(concat3("unsupported format '", k, "' (expected stl, 3mf, off, amf, dxf, or svg)"))
        }
    }
}

/// Every format's extension names it back (`stl` as the STL flavour asked
/// for).
pub proof fn lemma_format_extension_round_trip(f: ExportFormat)
    ensures
        parse_format_model(format_extension(f), f != ExportFormat::AsciiStl) == Ok::<
            ExportFormat,
            Seq<char>,
        >(f),
{
    reveal_strlit("stl");
    reveal_strlit("3mf");
    reveal_strlit("off");
    reveal_strlit("amf");
    reveal_strlit("dxf");
    reveal_strlit("svg");
    let e = format_extension(f);
    crate::text::lemma_trim_plain(e);
    crate::text::lemma_lower_plain(e);
    assert(f == ExportFormat::Svg ==> e[1] != "stl"@[1]);
    assert(e[0] != "3mf"@[0] || f == ExportFormat::ThreeMf);
    assert(e[0] != "off"@[0] || f == ExportFormat::Off);
    assert(e[0] != "amf"@[0] || f == ExportFormat::Amf);
    assert(e[0] != "dxf"@[0] || f == ExportFormat::Dxf);
}

pub open spec fn export_model(
    file: Seq<char>,
    output: Seq<char>,
    format: ExportFormat,
    fn_: Option<u32>,
    defines: Seq<Define>,
) -> Seq<Seq<char>> {
    seq!["-o"@, output] + match format_flag(format) {
        Some(f) => seq!["--export-format"@, f],
        None => Seq::empty(),
    } + fn_args(fn_) + define_args(defines) + seq![file]
}

/// Build argv for an export to `output` in `format`.
pub fn export_args(
    file: &str,
    output: &str,
    format: ExportFormat,
    fn_: Option<u32>,
    defines: &[Define],
) -> (r: Vec<String>)
    ensures
        strings_model(r@) == export_model(file@, output@, format, fn_, defines@),
{
    let mut args: Vec<String> = Vec::new();
    assert(strings_model(args@) =~= Seq::<Seq<char>>::empty());
    push_arg(&mut args, "-o");
    push_arg(&mut args, output);
    let ghost base = strings_model(args@);
    match format.export_format_flag() {
        Some(f) => {
            push_arg(&mut args, "--export-format");
            push_arg(&mut args, f);
        },
        None => {},
    }
    let ghost after_flag = strings_model(args@);
    push_fn(&mut args, fn_);
    push_defines(&mut args, defines);
    push_arg(&mut args, file);
    proof {
        assert(after_flag =~= base + match format_flag(format) {
            Some(f) => seq!["--export-format"@, f],
            None => Seq::empty(),
        });
        assert(strings_model(args@) =~= export_model(file@, output@, format, fn_, defines@));
    }
    args
}

/// An export passes everything asked of it: `-o` and the output; the format
/// flag, where the format has one; then `-D $fn=N` where an override is
/// given; then `-D name=expr` for each define, in order; and last the model
/// file.
pub proof fn lemma_export_passes_defines(
    file: Seq<char>,
    output: Seq<char>,
    format: ExportFormat,
    fn_: Option<u32>,
    defines: Seq<Define>,
)
    ensures
        ({
            let a = export_model(file, output, format, fn_, defines);
            let n = defines.len() as int;
            &&& a[0] == "-o"@
            &&& a[1] == output
            &&& format_flag(format) matches Some(f) ==> (a[2] == "--export-format"@) && (a[3] == f)
            &&& ends_with_defines(a, defines)
            &&& a.last() == file
            &&& fn_ matches Some(k) ==> (a[a.len() - 3 - 2 * n] == "-D"@) && (a[a.len() - 2 - 2 * n]
                == "$fn="@ + decimal(k as nat))
            &&& a.len() == 3 + 2 * n + (if format_flag(format) is Some { 2int } else { 0 }) + (if fn_
                is Some { 2int } else { 0 })
        }),
{
    let flag: Seq<Seq<char>> = match format_flag(format) {
        Some(f) => seq!["--export-format"@, f],
        None => Seq::empty(),
    };
    let pre = seq!["-o"@, output] + flag + fn_args(fn_);
    assert(export_model(file, output, format, fn_, defines) =~= pre + define_args(defines) + seq![file]);
    lemma_prefix_defines_last(pre, defines, file);
    let a = pre + define_args(defines) + seq![file];
    let n = defines.len() as int;
    assert(a[0] == pre[0] && a[1] == pre[1]);
    if format_flag(format) is Some {
        assert(a[2] == pre[2] && a[3] == pre[3]);
    }
    if fn_ is Some {
        assert(a[a.len() - 3 - 2 * n] == pre[pre.len() - 2]);
        assert(a[a.len() - 2 - 2 * n] == pre[pre.len() - 1]);
    }
}

/// A render passes every define to OpenSCAD: the argument list ends with
/// `-D name=expr` for each define, in order, then the model file.
pub proof fn lemma_render_passes_defines(o: RenderOptions)
    ensures
        ({
            let a = render_model(o);
            &&& a[0] == "-o"@
            &&& a[1] == o.output_png@
            &&& ends_with_defines(a, o.defines@)
            &&& a.last() == o.file@
        }),
{
    let a = render_model(o);
    let d = define_args(o.defines@);
    let pre = a.subrange(0, a.len() - d.len() - 1);
    lemma_define_args_shape(o.defines@);
    assert(a =~= pre + d + seq![o.file@]);
    lemma_prefix_defines_last(pre, o.defines@, o.file@);
}

} // verus!
