//! Named camera views.
//!
//! OpenSCAD's gimbal camera string is `trans_x,trans_y,trans_z,rot_x,rot_y,rot_z,distance`;
//! the rotation triple of each named view matches the standard view angles of
//! the OpenSCAD GUI. Formatting the full camera string involves a
//! floating-point distance and lives with the caller.

use vstd::prelude::*;

use vstd::view::View as _;

use crate::text::{
    all_ws, concat3, eq_lit, lemma_lower_plain, lemma_trim_padded, lemma_trim_plain,
    lemma_trimmed_key_ignores_case, lower, trim, trimmed_lower, upper,
};

verus! {

/// A standard, named camera viewpoint.
#[derive(Debug, Clone, Copy, PartialEq, Eq, Structural)]
pub enum View {
    Front,
    Back,
    Left,
    Right,
    Top,
    Bottom,
    /// Isometric three-quarter view (OpenSCAD's default-ish orientation).
    Iso,
}

/// Error returned when a view name cannot be parsed.
#[derive(Debug, Clone, PartialEq, Eq)]
pub struct UnknownView(pub String);

pub open spec fn view_label(v: View) -> Seq<char> {
    match v {
        View::Front => "front"@,
        View::Back => "back"@,
        View::Left => "left"@,
        View::Right => "right"@,
        View::Top => "top"@,
        View::Bottom => "bottom"@,
        View::Iso => "iso"@,
    }
}

/// Object Euler rotation in whole degrees for each view.
pub open spec fn view_rotation(v: View) -> (u16, u16, u16) {
    match v {
        View::Front => (0, 0, 0),
        View::Back => (0, 0, 180),
        View::Left => (0, 0, 90),
        View::Right => (0, 0, 270),
        View::Top => (90, 0, 0),
        View::Bottom => (270, 0, 0),
        View::Iso => (55, 0, 25),
    }
}

/// The rotation about the z axis a quarter turn further on.
pub open spec fn quarter_turn(deg: u16) -> int {
    (deg + 90) % 360
}

/// How the named views sit relative to each other: the front view is the
/// unrotated one; the four side views stand upright and follow one another
/// a quarter turn apart about z in the order front, left, back, right; each
/// view and its opposite (front and back, left and right, top and bottom)
/// are half a turn apart about a single axis; and no two views share a
/// rotation.
pub proof fn lemma_view_rotations(v: View, u: View)
    ensures
        view_rotation(View::Front) == (0u16, 0u16, 0u16),
        (v == View::Front || v == View::Left || v == View::Back || v == View::Right) ==> (
        view_rotation(v).0 == 0 && view_rotation(v).1 == 0),
        view_rotation(View::Left).2 == quarter_turn(view_rotation(View::Front).2),
        view_rotation(View::Back).2 == quarter_turn(view_rotation(View::Left).2),
        view_rotation(View::Right).2 == quarter_turn(view_rotation(View::Back).2),
        view_rotation(View::Front).2 == quarter_turn(view_rotation(View::Right).2),
        view_rotation(View::Right).2 == (view_rotation(View::Left).2 + 180) % 360,
        view_rotation(View::Back).2 == (view_rotation(View::Front).2 + 180) % 360,
        view_rotation(View::Bottom).0 == (view_rotation(View::Top).0 + 180) % 360,
        view_rotation(View::Bottom).1 == view_rotation(View::Top).1,
        view_rotation(View::Bottom).2 == view_rotation(View::Top).2,
        v != u ==> view_rotation(v) != view_rotation(u),
{
}

/// The view a (trimmed, lower-cased) name denotes, including aliases.
pub open spec fn view_named(k: Seq<char>) -> Option<View> {
    if k == "front"@ {
        Some(View::Front)
    } else if k == "back"@ || k == "rear"@ {
        Some(View::Back)
    } else if k == "left"@ {
        Some(View::Left)
    } else if k == "right"@ {
        Some(View::Right)
    } else if k == "top"@ {
        Some(View::Top)
    } else if k == "bottom"@ || k == "bot"@ {
        Some(View::Bottom)
    } else if k == "iso"@ || k == "isometric"@ || k == "3d"@ {
        Some(View::Iso)
    } else {
        None
    }
}

/// What `View::from_str` returns for `s`.
pub open spec fn parse_view_model(s: Seq<char>) -> Option<View> {
    view_named(lower(trim(s)))
}

/// Every view's label parses back to that view.
pub proof fn lemma_view_label_round_trip(v: View)
    ensures
        parse_view_model(view_label(v)) == Some(v),
{
    reveal_strlit("front");
    reveal_strlit("back");
    reveal_strlit("left");
    reveal_strlit("right");
    reveal_strlit("top");
    reveal_strlit("bottom");
    reveal_strlit("iso");
    let l = view_label(v);
    lemma_trim_plain(l);
    lemma_lower_plain(l);
    // Labels that share a length differ in their first character.
    reveal_strlit("rear");
    reveal_strlit("bot");
    assert(l.len() != "front"@.len() || l[0] != "front"@[0] || v == View::Front);
    assert(l.len() != "back"@.len() || l[0] != "back"@[0] || v == View::Back);
    assert(l.len() != "rear"@.len() || l[0] != "rear"@[0]);
    assert(l.len() != "left"@.len() || l[0] != "left"@[0] || v == View::Left);
    assert(l.len() != "top"@.len() || l[0] != "top"@[0] || v == View::Top);
    assert(l.len() != "bot"@.len() || l[0] != "bot"@[0]);
}

/// View names are matched without regard to ASCII case or to whitespace
/// around them.
pub proof fn lemma_view_name_normalized(s: Seq<char>, pre: Seq<char>, post: Seq<char>)
    requires
        all_ws(pre),
        all_ws(post),
    ensures
        parse_view_model(upper(s)) == parse_view_model(s),
        parse_view_model(lower(s)) == parse_view_model(s),
        parse_view_model(pre + s + post) == parse_view_model(s),
{
    lemma_trimmed_key_ignores_case(s);
    lemma_trim_padded(pre, s, post);
}

/// The message of an `UnknownView` error for the name `s`.
pub open spec fn unknown_view_message(s: Seq<char>) -> Seq<char> {
    "unknown view '"@ + s + "' (expected one of: front, back, left, right, top, bottom, iso)"@
}

impl View {
    /// Object Euler rotation `(rot_x, rot_y, rot_z)` in degrees for this view.
    pub fn rotation(self) -> (r: (u16, u16, u16))
        ensures
            r == view_rotation(self),
    {
        match self {
            View::Front => (0, 0, 0),
            View::Back => (0, 0, 180),
            View::Left => (0, 0, 90),
            View::Right => (0, 0, 270),
            View::Top => (90, 0, 0),
            View::Bottom => (270, 0, 0),
            View::Iso => (55, 0, 25),
        }
    }

    /// Human-facing label, also used for contact-sheet captions.
    pub fn label(self) -> (r: &'static str)
        ensures
            r@ == view_label(self),
    {
        match self {
            View::Front => "front",
            View::Back => "back",
            View::Left => "left",
            View::Right => "right",
            View::Top => "top",
            View::Bottom => "bottom",
            View::Iso => "iso",
        }
    }

    /// All views in a stable, sensible contact-sheet order.
    pub fn all() -> (r: [View; 7])
        ensures
            r@ == seq![
                View::Front,
                View::Back,
                View::Left,
                View::Right,
                View::Top,
                View::Bottom,
                View::Iso,
            ],
    {
        [View::Front, View::Back, View::Left, View::Right, View::Top, View::Bottom, View::Iso]
    }

    /// Parse a view name: surrounding whitespace and ASCII case are ignored,
    /// and `rear`, `bot`, `isometric` and `3d` are accepted as aliases.
    pub fn from_name(s: &str) -> (r: Result<View, UnknownView>)
        ensures
            match r {
                Ok(v) => parse_view_model(s@) == Some(v),
                Err(e) => parse_view_model(s@) is None && e.0@ == s@,
            },
    {
        let k = trimmed_lower(s);
        let k = k.as_slice();
        if eq_lit(k, "front") {
            Ok(View::Front)
        } else if eq_lit(k, "back") || eq_lit(k, "rear") {
            Ok(View::Back)
        } else if eq_lit(k, "left") {
            Ok(View::Left)
        } else if eq_lit(k, "right") {
            Ok(View::Right)
        } else if eq_lit(k, "top") {
            Ok(View::Top)
        } else if eq_lit(k, "bottom") || eq_lit(k, "bot") {
            Ok(View::Bottom)
        } else if eq_lit(k, "iso") || eq_lit(k, "isometric") || eq_lit(k, "3d") {
            Ok(View::Iso)
        } else {
            Err(UnknownView(s.to_owned()))
        }
    }
}

impl UnknownView {
    /// The human-readable message.
    pub fn to_string(&self) -> (r: String)
        ensures
            r@ == unknown_view_message(self.0@),
    {
        let name = crate::text::chars_of(self.0.as_str());
        concat3(
            "unknown view '",
            name.as_slice(),
            "' (expected one of: front, back, left, right, top, bottom, iso)",
        )
    }
}

impl std::str::FromStr for View {
    type Err = UnknownView;

    fn from_str(s: &str) -> (r: Result<View, UnknownView>)
        ensures
            match r {
                Ok(v) => parse_view_model(s@) == Some(v),
                Err(e) => parse_view_model(s@) is None && e.0@ == s@,
            },
    {
        View::from_name(s)
    }
}

} // verus!
