//! Geometry helpers for the `cross_section` and `fit_check` tools: the axis
//! vocabulary and the escaping of paths embedded in generated SCAD. The
//! wrapper SCAD and transform math carry floating-point values and live with
//! the caller.

use vstd::prelude::*;

use crate::text::{lemma_replace_single_char, lemma_subst_char_concat, subst_char, all_ws, upper, chars_of, concat3, eq_lit, lower, replace_all, replace_str, string_of, trim, trimmed_lower};

verus! {

/// A principal axis.
#[derive(Debug, Clone, Copy, PartialEq, Eq, Structural)]
pub enum Axis {
    X,
    Y,
    Z,
}

pub open spec fn parse_axis_model(s: Seq<char>) -> Result<Axis, Seq<char>> {
    let k = lower(trim(s));
    if k == "x"@ {
        Ok(Axis::X)
    } else if k == "y"@ {
        Ok(Axis::Y)
    } else if k == "z"@ {
        Ok(Axis::Z)
    } else {
        Err("unknown axis '"@ + k + "' (expected 'x', 'y', or 'z')"@)
    }
}

/// Axis names are matched without regard to ASCII case or to whitespace around
/// them.
pub proof fn lemma_axis_name_normalized(s: Seq<char>, pre: Seq<char>, post: Seq<char>)
    requires
        all_ws(pre),
        all_ws(post),
    ensures
        parse_axis_model(upper(s)) == parse_axis_model(s),
        parse_axis_model(lower(s)) == parse_axis_model(s),
        parse_axis_model(pre + s + post) == parse_axis_model(s),
{
    crate::text::lemma_trimmed_key_ignores_case(s);
    crate::text::lemma_trim_padded(pre, s, post);
}

impl Axis {
    /// Parse an axis name (`x`, `y` or `z`; whitespace and case ignored).
    pub fn from_name(s: &str) -> (r: Result<Axis, String>)
        ensures
            match r {
                Ok(a) => parse_axis_model(s@) == Ok::<Axis, Seq<char>>(a),
                Err(m) => parse_axis_model(s@) == Err::<Axis, Seq<char>>(m@),
            },
    {
        let k = trimmed_lower(s);
        let k = k.as_slice();
        if eq_lit(k, "x") {
            Ok(Axis::X)
        } else if eq_lit(k, "y") {
            Ok(Axis::Y)
        } else if eq_lit(k, "z") {
            Ok(Axis::Z)
        } else {
            Err(concat3("unknown axis '", k, "' (expected 'x', 'y', or 'z')"))
        }
    }
}

impl std::str::FromStr for Axis {
    type Err = String;

    fn from_str(s: &str) -> (r: Result<Axis, String>)
        ensures
            match r {
                Ok(a) => parse_axis_model(s@) == Ok::<Axis, Seq<char>>(a),
                Err(m) => parse_axis_model(s@) == Err::<Axis, Seq<char>>(m@),
            },
    {
        Axis::from_name(s)
    }
}

/// Backslashes doubled, then double quotes backslash-escaped: the escaping
/// of text embedded in an OpenSCAD string literal.
pub open spec fn scad_escape(s: Seq<char>) -> Seq<char> {
    replace_all(replace_all(s, "\\"@, "\\\\"@), "\""@, "\\\""@)
}

/// How OpenSCAD reads the body of a string literal, as far as escaping goes:
/// a backslash takes the next character literally.
pub open spec fn scad_unescape(e: Seq<char>) -> Seq<char>
    decreases e.len(),
{
    if e.len() == 0 {
        e
    } else if e[0] == '\\' && e.len() >= 2 {
        seq![e[1]] + scad_unescape(e.skip(2))
    } else {
        seq![e[0]] + scad_unescape(e.drop_first())
    }
}

proof fn lemma_unescape_round_trip(s: Seq<char>)
    ensures
        scad_unescape(
            subst_char(subst_char(s, '\\', seq!['\\', '\\']), '"', seq!['\\', '"']),
        ) == s,
    decreases s.len(),
{
    if s.len() > 0 {
        let bs = seq!['\\', '\\'];
        let q = seq!['\\', '"'];
        let c = s[0];
        let rest = s.drop_first();
        let f1 = if c == '\\' {
            bs
        } else {
            seq![c]
        };
        let t1 = subst_char(rest, '\\', bs);
        assert(subst_char(s, '\\', bs) == f1 + t1);
        lemma_subst_char_concat(f1, t1, '"', q);
        let head = subst_char(f1, '"', q);
        let tail = subst_char(t1, '"', q);
        reveal_with_fuel(subst_char, 3);
        if c == '\\' {
            assert(f1.drop_first() =~= seq!['\\']);
            assert(head =~= bs);
        } else if c == '"' {
            assert(head =~= q);
        } else {
            assert(head =~= seq![c]);
        }
        let e = head + tail;
        lemma_unescape_round_trip(rest);
        if c == '\\' || c == '"' {
            assert(e.skip(2) =~= tail);
        } else {
            assert(e.drop_first() =~= tail);
        }
        assert(seq![c] + rest =~= s);
    }
}

/// Escaped text inside a string literal reads back as it was: every
/// backslash and quote of the text survives OpenSCAD's parsing unchanged.
pub proof fn lemma_scad_escape_round_trip(s: Seq<char>)
    ensures
        scad_unescape(scad_escape(s)) == s,
{
    reveal_strlit("\\");
    reveal_strlit("\\\\");
    reveal_strlit("\"");
    reveal_strlit("\\\"");
    assert("\\"@ =~= seq!['\\']);
    assert("\\\\"@ =~= seq!['\\', '\\']);
    assert("\""@ =~= seq!['"']);
    assert("\\\""@ =~= seq!['\\', '"']);
    lemma_replace_single_char(s, '\\', seq!['\\', '\\']);
    lemma_replace_single_char(
        subst_char(s, '\\', seq!['\\', '\\']),
        '"',
        seq!['\\', '"'],
    );
    lemma_unescape_round_trip(s);
}

/// Escape text for embedding in an OpenSCAD string literal.
pub fn scad_escape_chars(s: &[char]) -> (r: Vec<char>)
    ensures
        r@ == scad_escape(s@),
{
    proof {
        reveal_strlit("\\");
        reveal_strlit("\"");
    }
    let a = replace_str(s, "\\", "\\\\");
    replace_str(a.as_slice(), "\"", "\\\"")
}

/// Escape a path for embedding in an OpenSCAD `import("…")` string literal.
pub fn scad_path(path: &str) -> (r: String)
    ensures
        r@ == scad_escape(path@),
{
    let v = chars_of(path);
    let e = scad_escape_chars(v.as_slice());
    string_of(e.as_slice())
}

} // verus!
