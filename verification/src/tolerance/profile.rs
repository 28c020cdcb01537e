//! Profile identity: where a profile's numbers came from, and the slug used in
//! `printer/material/nozzle` identifiers. The profile's clearances and
//! offsets are floating-point quantities handled by the caller.

use vstd::prelude::*;

use crate::text::{
    all_ws, chars_of, eq_lit, is_alnum, is_alnum_char, lemma_trim_padded,
    lemma_trimmed_key_ignores_case, lower, lower_char, lower_char_exec, push_chars, push_lit,
    string_of, trim, trim_vec, trimmed_upper, upper,
};

verus! {

/// Where a profile's numbers came from.
#[derive(Debug, Clone, Copy, PartialEq, Eq, Structural)]
pub enum ProfileSource {
    /// Seeded from material/literature defaults; not yet calibrated.
    Default,
    /// Refined from at least one recorded real-world outcome.
    Calibrated,
}

/// One character of a slug: ASCII letters, digits, `.` and `-` are kept
/// (lower-cased); everything else becomes `_`.
pub open spec fn slug_char(c: char) -> char {
    if is_alnum(c) || c == '.' || c == '-' {
        lower_char(c)
    } else {
        '_'
    }
}

/// Lowercase, filesystem-safe slug of the trimmed text.
pub open spec fn slug_model(s: Seq<char>) -> Seq<char> {
    let t = trim(s);
    Seq::new(t.len(), |i: int| slug_char(t[i]))
}

/// Slugging a slug changes nothing.
pub proof fn lemma_slug_idempotent(s: Seq<char>)
    ensures
        slug_model(slug_model(s)) == slug_model(s),
{
    let u = slug_model(s);
    assert forall|i: int| 0 <= i < u.len() implies !crate::text::is_ws(#[trigger] u[i])
        && slug_char(u[i]) == u[i] by {
        let c = trim(s)[i];
        assert(u[i] == slug_char(c));
    }
    if u.len() > 0 {
        assert(!crate::text::is_ws(u[0]));
        assert(!crate::text::is_ws(u[u.len() - 1]));
    }
    crate::text::lemma_trim_plain(u);
    assert(slug_model(u) =~= u);
}

/// Lowercase, filesystem-safe slug for ids.
pub fn slug(s: &str) -> (r: String)
    ensures
        r@ == slug_model(s@),
{
    let v = chars_of(s);
    let t = trim_vec(v.as_slice());
    let mut out: Vec<char> = Vec::new();
    let mut i: usize = 0;
    while i < t.len()
        invariant
            i <= t@.len(),
            t@ == trim(s@),
            out@ == slug_model(s@).take(i as int),
        decreases t@.len() - i,
    {
        let c = t[i];
        let m = if is_alnum_char(c) || c == '.' || c == '-' {
            lower_char_exec(c)
        } else {
            '_'
        };
        out.push(m);
        i = i + 1;
        assert(out@ =~= slug_model(s@).take(i as int));
    }
    assert(slug_model(s@).take(i as int) =~= slug_model(s@));
    string_of(out.as_slice())
}

/// A profile's identifier, `printer/material/nozzle`: both names slugged, the
/// nozzle diameter's text as given.
pub open spec fn profile_id_model(printer: Seq<char>, material: Seq<char>, nozzle: Seq<char>) -> Seq<char> {
    slug_model(printer) + "/"@ + slug_model(material) + "/"@ + nozzle
}

/// The identifier of the profile for `printer`, `material` and the nozzle
/// diameter written as `nozzle` (e.g. `0.4`).
pub fn profile_id(printer: &str, material: &str, nozzle: &str) -> (r: String)
    ensures
        r@ == profile_id_model(printer@, material@, nozzle@),
{
    let p = slug(printer);
    let m = slug(material);
    let mut out = chars_of(p.as_str());
    push_lit(&mut out, "/");
    let mv = chars_of(m.as_str());
    push_chars(&mut out, mv.as_slice());
    push_lit(&mut out, "/");
    let nv = chars_of(nozzle);
    push_chars(&mut out, nv.as_slice());
    string_of(out.as_slice())
}

/// A slug never holds a `/`.
pub proof fn lemma_slug_has_no_slash(s: Seq<char>)
    ensures
        !slug_model(s).contains('/'),
{
    let u = slug_model(s);
    if u.contains('/') {
        let i = choose|i: int| 0 <= i < u.len() && u[i] == '/';
        assert(u[i] == slug_char(trim(s)[i]));
    }
}

/// `a/b` splits back into `a` and `b` when `a` holds no `/`.
proof fn lemma_split_at_slash(a: Seq<char>, b: Seq<char>, c: Seq<char>, d: Seq<char>)
    requires
        !a.contains('/'),
        !c.contains('/'),
        a + "/"@ + b == c + "/"@ + d,
    ensures
        a == c,
        b == d,
{
    reveal_strlit("/");
    let x = a + "/"@ + b;
    let y = c + "/"@ + d;
    if a.len() < c.len() {
        assert(x[a.len() as int] == '/');
        assert(y[a.len() as int] == c[a.len() as int]);
    } else if c.len() < a.len() {
        assert(y[c.len() as int] == '/');
        assert(x[c.len() as int] == a[c.len() as int]);
    }
    assert(a =~= x.take(a.len() as int));
    assert(c =~= y.take(c.len() as int));
    assert(b =~= x.skip(a.len() as int + 1));
    assert(d =~= y.skip(c.len() as int + 1));
}

/// Profile identifiers are unambiguous: two that are equal, with nozzle
/// texts free of `/`, name the same printer slug, material slug and nozzle.
pub proof fn lemma_profile_id_unambiguous(
    p1: Seq<char>,
    m1: Seq<char>,
    n1: Seq<char>,
    p2: Seq<char>,
    m2: Seq<char>,
    n2: Seq<char>,
)
    requires
        profile_id_model(p1, m1, n1) == profile_id_model(p2, m2, n2),
    ensures
        slug_model(p1) == slug_model(p2),
        slug_model(m1) == slug_model(m2),
        n1 == n2,
{
    lemma_slug_has_no_slash(p1);
    lemma_slug_has_no_slash(p2);
    lemma_slug_has_no_slash(m1);
    lemma_slug_has_no_slash(m2);
    let r1 = slug_model(m1) + "/"@ + n1;
    let r2 = slug_model(m2) + "/"@ + n2;
    assert(profile_id_model(p1, m1, n1) =~= slug_model(p1) + "/"@ + r1);
    assert(profile_id_model(p2, m2, n2) =~= slug_model(p2) + "/"@ + r2);
    lemma_split_at_slash(slug_model(p1), r1, slug_model(p2), r2);
    lemma_split_at_slash(slug_model(m1), n1, slug_model(m2), n2);
}

/// The family a material name belongs to, which seeds its default
/// clearances and strength figures.
#[derive(Debug, Clone, Copy, PartialEq, Eq, Structural)]
pub enum MaterialKind {
    Pla,
    Petg,
    /// ABS or ASA.
    AbsAsa,
    /// TPU or TPE.
    TpuTpe,
    /// Nylon: `NYLON`, `PA`, `PA12` or `PA6`.
    Nylon,
    /// Any other name.
    Other,
}

/// The family an (upper-cased, trimmed) material name denotes.
pub open spec fn material_named(k: Seq<char>) -> MaterialKind {
    if k == "PLA"@ {
        MaterialKind::Pla
    } else if k == "PETG"@ {
        MaterialKind::Petg
    } else if k == "ABS"@ || k == "ASA"@ {
        MaterialKind::AbsAsa
    } else if k == "TPU"@ || k == "TPE"@ {
        MaterialKind::TpuTpe
    } else if k == "NYLON"@ || k == "PA"@ || k == "PA12"@ || k == "PA6"@ {
        MaterialKind::Nylon
    } else {
        MaterialKind::Other
    }
}

pub open spec fn material_kind_model(s: Seq<char>) -> MaterialKind {
    material_named(upper(trim(s)))
}

/// Classify a material name; whitespace around it and ASCII case are
/// ignored.
pub fn material_kind(material: &str) -> (r: MaterialKind)
    ensures
        r == material_kind_model(material@),
{
    let k = trimmed_upper(material);
    let k = k.as_slice();
    if eq_lit(k, "PLA") {
        MaterialKind::Pla
    } else if eq_lit(k, "PETG") {
        MaterialKind::Petg
    } else if eq_lit(k, "ABS") || eq_lit(k, "ASA") {
        MaterialKind::AbsAsa
    } else if eq_lit(k, "TPU") || eq_lit(k, "TPE") {
        MaterialKind::TpuTpe
    } else if eq_lit(k, "NYLON") || eq_lit(k, "PA") || eq_lit(k, "PA12") || eq_lit(k, "PA6") {
        MaterialKind::Nylon
    } else {
        MaterialKind::Other
    }
}

/// Which names belong to which family: a material name (trimmed, ASCII case
/// ignored) is PLA exactly when it is `PLA`, PETG exactly when it is `PETG`,
/// ABS/ASA exactly when it is `ABS` or `ASA`, TPU/TPE exactly when it is
/// `TPU` or `TPE`, nylon exactly when it is `NYLON`, `PA`, `PA12` or `PA6`,
/// and any other name falls back to `Other`.
pub proof fn lemma_material_families(s: Seq<char>)
    ensures
        material_kind_model(s) == MaterialKind::Pla <==> upper(trim(s)) == "PLA"@,
        material_kind_model(s) == MaterialKind::Petg <==> upper(trim(s)) == "PETG"@,
        material_kind_model(s) == MaterialKind::AbsAsa <==> (upper(trim(s)) == "ABS"@ || upper(
            trim(s),
        ) == "ASA"@),
        material_kind_model(s) == MaterialKind::TpuTpe <==> (upper(trim(s)) == "TPU"@ || upper(
            trim(s),
        ) == "TPE"@),
        material_kind_model(s) == MaterialKind::Nylon <==> (upper(trim(s)) == "NYLON"@ || upper(
            trim(s),
        ) == "PA"@ || upper(trim(s)) == "PA12"@ || upper(trim(s)) == "PA6"@),
{
    reveal_strlit("PLA");
    reveal_strlit("PETG");
    reveal_strlit("ABS");
    reveal_strlit("ASA");
    reveal_strlit("TPU");
    reveal_strlit("TPE");
    reveal_strlit("NYLON");
    reveal_strlit("PA");
    reveal_strlit("PA12");
    reveal_strlit("PA6");
    let k = upper(trim(s));
    // Names of equal length differ in one of their first three characters.
    assert(k == "PLA"@ ==> k[0] == 'P' && k[1] == 'L');
    assert(k == "PETG"@ ==> k[0] == 'P' && k[1] == 'E');
    assert(k == "ABS"@ ==> k[0] == 'A' && k[1] == 'B');
    assert(k == "ASA"@ ==> k[0] == 'A' && k[1] == 'S');
    assert(k == "TPU"@ ==> k[0] == 'T' && k[2] == 'U');
    assert(k == "TPE"@ ==> k[0] == 'T' && k[2] == 'E');
    assert(k == "PA6"@ ==> k[0] == 'P' && k[1] == 'A');
    assert(k == "PA12"@ ==> k[0] == 'P' && k[1] == 'A');
    assert(k == "NYLON"@ ==> k[0] == 'N');
}

/// Material names are matched without regard to ASCII case or to whitespace
/// around them.
pub proof fn lemma_material_name_normalized(s: Seq<char>, pre: Seq<char>, post: Seq<char>)
    requires
        all_ws(pre),
        all_ws(post),
    ensures
        material_kind_model(upper(s)) == material_kind_model(s),
        material_kind_model(lower(s)) == material_kind_model(s),
        material_kind_model(pre + s + post) == material_kind_model(s),
{
    lemma_trimmed_key_ignores_case(s);
    lemma_trim_padded(pre, s, post);
}

impl ProfileSource {
    /// How the source is reported: `default` or `calibrated`.
    pub fn label(self) -> (r: &'static str)
        ensures
            r@ == (match self {
                ProfileSource::Default => "default"@,
                ProfileSource::Calibrated => "calibrated"@,
            }),
    {
        match self {
            ProfileSource::Default => "default",
            ProfileSource::Calibrated => "calibrated",
        }
    }
}

} // verus!
