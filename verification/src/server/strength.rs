//! Print orientation for the first-order cantilever strength estimate. The
//! estimate itself is floating-point beam theory and lives with the caller.

use vstd::prelude::*;

use crate::text::{all_ws, upper, concat3, eq_lit, lower, trim, trimmed_lower};

verus! {

/// Print orientation relative to the bending load.
#[derive(Debug, Clone, Copy, PartialEq, Eq, Structural)]
pub enum Orientation {
    /// Layers lie in the bending plane (lying flat) — strongest.
    Flat,
    /// Printed on edge — slightly weaker.
    OnEdge,
    /// Load pulls across the layer lines (upright) — weakest (layer adhesion).
    Upright,
}

pub open spec fn parse_orientation_model(s: Seq<char>) -> Result<Orientation, Seq<char>> {
    let k = lower(trim(s));
    if k == "flat"@ || k == "lying"@ {
        Ok(Orientation::Flat)
    } else if k == "on_edge"@ || k == "edge"@ || k == "on-edge"@ {
        Ok(Orientation::OnEdge)
    } else if k == "upright"@ || k == "vertical"@ || k == "standing"@ || k == "across_layers"@ {
        Ok(Orientation::Upright)
    } else {
        Err("unknown orientation '"@ + k + "' (expected flat, on_edge, or upright)"@)
    }
}

/// Orientation names are matched without regard to ASCII case or to whitespace around
/// them.
pub proof fn lemma_orientation_name_normalized(s: Seq<char>, pre: Seq<char>, post: Seq<char>)
    requires
        all_ws(pre),
        all_ws(post),
    ensures
        parse_orientation_model(upper(s)) == parse_orientation_model(s),
        parse_orientation_model(lower(s)) == parse_orientation_model(s),
        parse_orientation_model(pre + s + post) == parse_orientation_model(s),
{
    crate::text::lemma_trimmed_key_ignores_case(s);
    crate::text::lemma_trim_padded(pre, s, post);
}

impl Orientation {
    /// Parse an orientation name (whitespace and case ignored, aliases
    /// `lying`, `edge`, `on-edge`, `vertical`, `standing`, `across_layers`).
    pub fn from_name(s: &str) -> (r: Result<Orientation, String>)
        ensures
            match r {
                Ok(o) => parse_orientation_model(s@) == Ok::<Orientation, Seq<char>>(o),
                Err(m) => parse_orientation_model(s@) == Err::<Orientation, Seq<char>>(m@),
            },
    {
        let k = trimmed_lower(s);
        let k = k.as_slice();
        if eq_lit(k, "flat") || eq_lit(k, "lying") {
            Ok(Orientation::Flat)
        } else if eq_lit(k, "on_edge") || eq_lit(k, "edge") || eq_lit(k, "on-edge") {
            Ok(Orientation::OnEdge)
        } else if eq_lit(k, "upright") || eq_lit(k, "vertical") || eq_lit(k, "standing") || eq_lit(
            k,
            "across_layers",
        ) {
            Ok(Orientation::Upright)
        } else {
            Err(concat3("unknown orientation '", k, "' (expected flat, on_edge, or upright)"))
        }
    }
}

impl std::str::FromStr for Orientation {
    type Err = String;

    fn from_str(s: &str) -> (r: Result<Orientation, String>)
        ensures
            match r {
                Ok(o) => parse_orientation_model(s@) == Ok::<Orientation, Seq<char>>(o),
                Err(m) => parse_orientation_model(s@) == Err::<Orientation, Seq<char>>(m@),
            },
    {
        Orientation::from_name(s)
    }
}

} // verus!
