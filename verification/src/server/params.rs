//! Conversion of tool parameters into OpenSCAD invocation inputs: projection
//! and view names, and variable overrides as `-D` defines.

use vstd::prelude::*;
use vstd::view::View as _;

use crate::scad::camera::{parse_view_model, unknown_view_message, View};
use crate::scad::ops::{Define, Projection};
use crate::server::geometry::{scad_escape, scad_escape_chars};
use crate::text::{chars_of, concat3, eq_lit, lower, push_chars, push_lit, string_of, trim, trimmed_lower};

verus! {

pub open spec fn parse_projection_model(s: Seq<char>) -> Result<Projection, Seq<char>> {
    let k = lower(trim(s));
    if k == "o"@ || k == "ortho"@ || k == "orthographic"@ {
        Ok(Projection::Ortho)
    } else if k == "p"@ || k == "persp"@ || k == "perspective"@ {
        Ok(Projection::Perspective)
    } else {
        Err("unknown projection '"@ + k + "' (expected 'ortho' or 'perspective')"@)
    }
}

/// Parse a projection string (`o`/`ortho`/`orthographic` or
/// `p`/`persp`/`perspective`; whitespace and case ignored).
pub fn parse_projection(s: &str) -> (r: Result<Projection, String>)
    ensures
        match r {
            Ok(p) => parse_projection_model(s@) == Ok::<Projection, Seq<char>>(p),
            Err(m) => parse_projection_model(s@) == Err::<Projection, Seq<char>>(m@),
        },
{
    let k = trimmed_lower(s);
    let k = k.as_slice();
    if eq_lit(k, "o") || eq_lit(k, "ortho") || eq_lit(k, "orthographic") {
        Ok(Projection::Ortho)
    } else if eq_lit(k, "p") || eq_lit(k, "persp") || eq_lit(k, "perspective") {
        Ok(Projection::Perspective)
    } else {
        Err(concat3("unknown projection '", k, "' (expected 'ortho' or 'perspective')"))
    }
}

/// Parse a view name into a [`View`], surfacing a friendly error.
pub fn parse_view(s: &str) -> (r: Result<View, String>)
    ensures
        match r {
            Ok(v) => parse_view_model(s@) == Some(v),
            Err(m) => parse_view_model(s@) is None && m@ == unknown_view_message(s@),
        },
{
    match View::from_name(s) {
        Ok(v) => Ok(v),
        Err(e) => Err(e.to_string()),
    }
}

/// Escape text for an OpenSCAD string literal (backslashes and quotes).
pub fn escape_scad_string(s: &str) -> (r: String)
    ensures
        r@ == scad_escape(s@),
{
    let v = chars_of(s);
    let e = scad_escape_chars(v.as_slice());
    string_of(e.as_slice())
}

/// A tool-parameter value, as the JSON it arrives in: numbers keep the text
/// of their JSON rendering.
#[derive(Debug)]
pub enum ParamValue {
    Null,
    Bool(bool),
    Number(String),
    Str(String),
    Array(Vec<ParamValue>),
    Object,
}

/// The OpenSCAD expression for a parameter value: `undef` for null and
/// objects, bare booleans and numbers, quoted and escaped strings, and
/// vectors for arrays.
pub open spec fn scad_expr_model(v: ParamValue) -> Seq<char>
    decreases v,
{
    match v {
        ParamValue::Null => "undef"@,
        ParamValue::Bool(b) => if b {
            "true"@
        } else {
            "false"@
        },
        ParamValue::Number(n) => n@,
        ParamValue::Str(s) => "\""@ + scad_escape(s@) + "\""@,
        ParamValue::Array(items) => "["@ + joined_exprs(items@, items@.len() as int) + "]"@,
        ParamValue::Object => "undef"@,
    }
}

/// The expressions of the first `n` items, comma-separated.
pub open spec fn joined_exprs(items: Seq<ParamValue>, n: int) -> Seq<char>
    decreases items, n,
{
    if n <= 0 || n > items.len() {
        Seq::empty()
    } else if n == 1 {
        scad_expr_model(items[0])
    } else {
        joined_exprs(items, n - 1) + ","@ + scad_expr_model(items[n - 1])
    }
}

/// Render a parameter value as an OpenSCAD expression string.
pub fn scad_expr(value: &ParamValue) -> (r: String)
    ensures
        r@ == scad_expr_model(*value),
    decreases value,
{
    match value {
        ParamValue::Null => "undef".to_owned(),
        ParamValue::Bool(b) => if *b {
            "true".to_owned()
        } else {
            "false".to_owned()
        },
        ParamValue::Number(n) => n.clone(),
        ParamValue::Str(s) => {
            let v = chars_of(s.as_str());
            let e = scad_escape_chars(v.as_slice());
            concat3("\"", e.as_slice(), "\"")
        },
        ParamValue::Array(items) => {
            let mut out = chars_of("[");
            let mut i: usize = 0;
            while i < items.len()
                invariant
                    *value == ParamValue::Array(*items),
                    i <= items@.len(),
                    out@ == "["@ + joined_exprs(items@, i as int),
                decreases items@.len() - i,
            {
                if i > 0 {
                    push_lit(&mut out, ",");
                }
                proof {
                    assert(decreases_to!(*value => (*value)->Array_0));
                    assert(decreases_to!(*items => items@));
                    assert(decreases_to!(items@ => items@[i as int]));
                    assert(decreases_to!(*value => items@[i as int]));
                }
                let part = scad_expr(&items[i]);
                let pc = chars_of(part.as_str());
                push_chars(&mut out, pc.as_slice());
                proof {
                    if i == 0 {
                        assert(joined_exprs(items@, 1) == scad_expr_model(items@[0]));
                    }
                }
                i = i + 1;
                assert(out@ =~= "["@ + joined_exprs(items@, i as int));
            }
            push_lit(&mut out, "]");
            string_of(out.as_slice())
        },
        ParamValue::Object => "undef".to_owned(),
    }
}

/// Convert variable overrides (name, value), in the order given, into
/// OpenSCAD `-D` defines.
pub fn defines_from_map(overrides: &[(String, ParamValue)]) -> (r: Vec<Define>)
    ensures
        r@.len() == overrides@.len(),
        forall|i: int|
            0 <= i < r@.len() ==> #[trigger] r@[i].name@ == overrides@[i].0@ && r@[i].expr@
                == scad_expr_model(overrides@[i].1),
{
    let mut r: Vec<Define> = Vec::new();
    let mut i: usize = 0;
    while i < overrides.len()
        invariant
            i <= overrides@.len(),
            r@.len() == i,
            forall|k: int|
                0 <= k < i ==> #[trigger] r@[k].name@ == overrides@[k].0@ && r@[k].expr@
                    == scad_expr_model(overrides@[k].1),
        decreases overrides@.len() - i,
    {
        let (name, value) = &overrides[i];
        let e = scad_expr(value);
        r.push(Define::new(name.as_str(), e.as_str()));
        i = i + 1;
    }
    r
}

} // verus!
