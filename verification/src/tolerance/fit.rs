//! Fit classes — the qualitative kind of mating fit a designer wants between
//! two parts. Clearance throughout is the per-side gap between the two nominal
//! mating surfaces, so a round peg/hole pair has
//! `hole_diameter = peg_diameter + 2 × clearance`.

use vstd::prelude::*;

use crate::text::{
    all_ws, concat3, eq_lit, lemma_lower_plain, lemma_trim_padded, lemma_trim_plain,
    lemma_trimmed_key_ignores_case, lower, trim, trimmed_lower, upper,
};

verus! {

/// A qualitative mating fit between two parts.
#[derive(Debug, Clone, Copy, PartialEq, Eq, Structural)]
pub enum FitClass {
    /// Free-running: parts slide/rotate without resistance (drawers, lids).
    Slip,
    /// Locating fit: assembles by hand with light friction, no play.
    Snug,
    /// Interference fit: must be pressed together, held by friction.
    Press,
    /// Snap fit: flexible engagement that clicks past a lip.
    Snap,
}

pub open spec fn fit_key(c: FitClass) -> Seq<char> {
    match c {
        FitClass::Slip => "slip"@,
        FitClass::Snug => "snug"@,
        FitClass::Press => "press"@,
        FitClass::Snap => "snap"@,
    }
}

pub open spec fn fit_description(c: FitClass) -> Seq<char> {
    match c {
        FitClass::Slip => "free-running: slides/rotates without resistance"@,
        FitClass::Snug => "locating: assembles by hand with light friction, no play"@,
        FitClass::Press => "interference: pressed together, held by friction"@,
        FitClass::Snap => "snap: flexible engagement that clicks past a lip"@,
    }
}

/// The fit class a (trimmed, lower-cased) name denotes, aliases included.
pub open spec fn fit_named(k: Seq<char>) -> Option<FitClass> {
    if k == "slip"@ || k == "free"@ || k == "loose"@ || k == "clearance"@ {
        Some(FitClass::Slip)
    } else if k == "snug"@ || k == "locating"@ || k == "transition"@ {
        Some(FitClass::Snug)
    } else if k == "press"@ || k == "interference"@ || k == "friction"@ {
        Some(FitClass::Press)
    } else if k == "snap"@ || k == "snapfit"@ || k == "snap-fit"@ {
        Some(FitClass::Snap)
    } else {
        None
    }
}

pub open spec fn parse_fit_model(s: Seq<char>) -> Result<FitClass, Seq<char>> {
    let k = lower(trim(s));
    match fit_named(k) {
        Some(c) => Ok(c),
        None => Err("unknown fit class '"@ + k + "' (expected slip, snug, press, or snap)"@),
    }
}

/// Every fit class's key parses back to that class.
pub proof fn lemma_fit_key_round_trip(c: FitClass)
    ensures
        parse_fit_model(fit_key(c)) == Ok::<FitClass, Seq<char>>(c),
{
    reveal_strlit("slip");
    reveal_strlit("snug");
    reveal_strlit("press");
    reveal_strlit("snap");
    reveal_strlit("free");
    reveal_strlit("loose");
    reveal_strlit("clearance");
    reveal_strlit("locating");
    reveal_strlit("transition");
    reveal_strlit("interference");
    reveal_strlit("friction");
    let k = fit_key(c);
    lemma_trim_plain(k);
    lemma_lower_plain(k);
    // Keys of one length differ at an early position from the names tried
    // before them.
    assert(k.len() != "free"@.len() || k[0] != "free"@[0]);
    assert(k.len() != "loose"@.len() || k[0] != "loose"@[0]);
    assert(k.len() != "slip"@.len() || k[1] != "slip"@[1] || c == FitClass::Slip);
    assert(k.len() != "snug"@.len() || k[2] != "snug"@[2] || c == FitClass::Snug);
}

/// Fit class names are matched without regard to ASCII case or to
/// whitespace around them.
pub proof fn lemma_fit_name_normalized(s: Seq<char>, pre: Seq<char>, post: Seq<char>)
    requires
        all_ws(pre),
        all_ws(post),
    ensures
        parse_fit_model(upper(s)) == parse_fit_model(s),
        parse_fit_model(lower(s)) == parse_fit_model(s),
        parse_fit_model(pre + s + post) == parse_fit_model(s),
{
    lemma_trimmed_key_ignores_case(s);
    lemma_trim_padded(pre, s, post);
}

/// Index of a fit class in `FitClass::all()`.
pub open spec fn fit_index(c: FitClass) -> int {
    match c {
        FitClass::Slip => 0,
        FitClass::Snug => 1,
        FitClass::Press => 2,
        FitClass::Snap => 3,
    }
}

/// The fit classes in their stable order.
pub open spec fn fit_all() -> Seq<FitClass> {
    seq![FitClass::Slip, FitClass::Snug, FitClass::Press, FitClass::Snap]
}

/// Each class sits in `FitClass::all()` at its `class_idx`, and the list
/// holds no other.
pub proof fn lemma_class_idx_indexes_all(c: FitClass)
    ensures
        0 <= fit_index(c) < fit_all().len(),
        fit_all()[fit_index(c)] == c,
        forall|i: int| 0 <= i < fit_all().len() && #[trigger] fit_all()[i] == c ==> i == fit_index(c),
{
}

/// Index of a fit class in `FitClass::all()`.
pub fn class_idx(c: FitClass) -> (r: usize)
    ensures
        r == fit_index(c),
{
    match c {
        FitClass::Slip => 0,
        FitClass::Snug => 1,
        FitClass::Press => 2,
        FitClass::Snap => 3,
    }
}

impl FitClass {
    /// All fit classes in a stable order.
    pub fn all() -> (r: [FitClass; 4])
        ensures
            r@ == fit_all(),
    {
        [FitClass::Slip, FitClass::Snug, FitClass::Press, FitClass::Snap]
    }

    /// Lowercase key used in serialization and profile maps.
    pub fn key(self) -> (r: &'static str)
        ensures
            r@ == fit_key(self),
    {
        match self {
            FitClass::Slip => "slip",
            FitClass::Snug => "snug",
            FitClass::Press => "press",
            FitClass::Snap => "snap",
        }
    }

    /// One-line description of the intended behavior.
    pub fn description(self) -> (r: &'static str)
        ensures
            r@ == fit_description(self),
    {
        match self {
            FitClass::Slip => "free-running: slides/rotates without resistance",
            FitClass::Snug => "locating: assembles by hand with light friction, no play",
            FitClass::Press => "interference: pressed together, held by friction",
            FitClass::Snap => "snap: flexible engagement that clicks past a lip",
        }
    }

    /// Parse a fit class name; whitespace and ASCII case are ignored and the
    /// aliases `free`, `loose`, `clearance`, `locating`, `transition`,
    /// `interference`, `friction`, `snapfit` and `snap-fit` are accepted.
    pub fn from_name(s: &str) -> (r: Result<FitClass, String>)
        ensures
            match r {
                Ok(c) => parse_fit_model(s@) == Ok::<FitClass, Seq<char>>(c),
                Err(m) => parse_fit_model(s@) == Err::<FitClass, Seq<char>>(m@),
            },
    {
        let k = trimmed_lower(s);
        let k = k.as_slice();
        if eq_lit(k, "slip") || eq_lit(k, "free") || eq_lit(k, "loose") || eq_lit(k, "clearance") {
            Ok(FitClass::Slip)
        } else if eq_lit(k, "snug") || eq_lit(k, "locating") || eq_lit(k, "transition") {
            Ok(FitClass::Snug)
        } else if eq_lit(k, "press") || eq_lit(k, "interference") || eq_lit(k, "friction") {
            Ok(FitClass::Press)
        } else if eq_lit(k, "snap") || eq_lit(k, "snapfit") || eq_lit(k, "snap-fit") {
            Ok(FitClass::Snap)
        } else {
            Err(concat3("unknown fit class '", k, "' (expected slip, snug, press, or snap)"))
        }
    }
}

impl std::str::FromStr for FitClass {
    type Err = String;

    fn from_str(s: &str) -> (r: Result<FitClass, String>)
        ensures
            match r {
                Ok(c) => parse_fit_model(s@) == Ok::<FitClass, Seq<char>>(c),
                Err(m) => parse_fit_model(s@) == Err::<FitClass, Seq<char>>(m@),
            },
    {
        FitClass::from_name(s)
    }
}

} // verus!
