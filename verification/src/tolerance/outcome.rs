//! Real-world print outcomes: which feature a caliper reading refers to, and
//! how an assembled fit felt.

use vstd::prelude::*;

use crate::text::{all_ws, upper, concat3, eq_lit, lower, trim, trimmed_lower};

verus! {

/// Which kind of feature a caliper measurement refers to.
#[derive(Debug, Clone, Copy, PartialEq, Eq, Structural)]
pub enum Feature {
    /// An external dimension (width, length, peg diameter).
    Outer,
    /// An internal dimension (a hole or bore diameter).
    Hole,
}

/// A qualitative judgement of how an assembled fit felt.
#[derive(Debug, Clone, Copy, PartialEq, Eq, Structural)]
pub enum Verdict {
    /// Has play / falls out — too much clearance.
    Loose,
    /// Just right.
    Good,
    /// Goes together with effort — borderline.
    Tight,
    /// Won't assemble — too little clearance.
    Jam,
}

/// The verdict a (trimmed, lower-cased) word denotes, aliases included.
pub open spec fn verdict_named(k: Seq<char>) -> Option<Verdict> {
    if k == "loose"@ || k == "sloppy"@ || k == "fell out"@ || k == "fellout"@ {
        Some(Verdict::Loose)
    } else if k == "good"@ || k == "perfect"@ || k == "ok"@ {
        Some(Verdict::Good)
    } else if k == "tight"@ || k == "stiff"@ {
        Some(Verdict::Tight)
    } else if k == "jam"@ || k == "jammed"@ || k == "stuck"@ || k == "nofit"@ || k == "no fit"@ {
        Some(Verdict::Jam)
    } else {
        None
    }
}

pub open spec fn parse_verdict_model(s: Seq<char>) -> Result<Verdict, Seq<char>> {
    let k = lower(trim(s));
    match verdict_named(k) {
        Some(v) => Ok(v),
        None => Err("unknown verdict '"@ + k + "' (expected loose, good, tight, or jam)"@),
    }
}

/// A verdict's own name, as the outcome log records it.
pub open spec fn verdict_word(v: Verdict) -> Seq<char> {
    match v {
        Verdict::Loose => "loose"@,
        Verdict::Good => "good"@,
        Verdict::Tight => "tight"@,
        Verdict::Jam => "jam"@,
    }
}

/// Parsing the name of a verdict gives that verdict, and each accepted
/// word, trimmed and in any ASCII case, parses as the verdict it stands for
/// and no other.
pub proof fn lemma_verdict_words(s: Seq<char>, v: Verdict)
    ensures
        parse_verdict_model(verdict_word(v)) == Ok::<Verdict, Seq<char>>(v),
        parse_verdict_model(s) == Ok::<Verdict, Seq<char>>(Verdict::Tight) <==> (lower(trim(s))
            == "tight"@ || lower(trim(s)) == "stiff"@),
        parse_verdict_model(s) == Ok::<Verdict, Seq<char>>(Verdict::Loose) <==> (lower(trim(s))
            == "loose"@ || lower(trim(s)) == "sloppy"@ || lower(trim(s)) == "fell out"@ || lower(
            trim(s),
        ) == "fellout"@),
        parse_verdict_model(s) == Ok::<Verdict, Seq<char>>(Verdict::Good) <==> (lower(trim(s))
            == "good"@ || lower(trim(s)) == "perfect"@ || lower(trim(s)) == "ok"@),
        parse_verdict_model(s) == Ok::<Verdict, Seq<char>>(Verdict::Jam) <==> (lower(trim(s))
            == "jam"@ || lower(trim(s)) == "jammed"@ || lower(trim(s)) == "stuck"@ || lower(
            trim(s),
        ) == "nofit"@ || lower(trim(s)) == "no fit"@),
{
    reveal_strlit("loose");
    reveal_strlit("sloppy");
    reveal_strlit("fell out");
    reveal_strlit("fellout");
    reveal_strlit("good");
    reveal_strlit("perfect");
    reveal_strlit("ok");
    reveal_strlit("tight");
    reveal_strlit("stiff");
    reveal_strlit("jam");
    reveal_strlit("jammed");
    reveal_strlit("stuck");
    reveal_strlit("nofit");
    reveal_strlit("no fit");
    let w = verdict_word(v);
    crate::text::lemma_trim_plain(w);
    crate::text::lemma_lower_plain(w);
    let k = lower(trim(s));
    // Words of equal length differ in their first or second character.
    assert(k == "tight"@ ==> k[0] == 't');
    assert(k == "stiff"@ ==> k[0] == 's' && k[1] == 't');
    assert(k == "loose"@ ==> k[0] == 'l');
    assert(k == "sloppy"@ ==> k[0] == 's' && k[1] == 'l');
    assert(k == "stuck"@ ==> k[0] == 's' && k[1] == 't' && k[2] == 'u');
    assert(k == "nofit"@ ==> k[0] == 'n');
    assert(k == "jammed"@ ==> k[0] == 'j');
    assert(k == "perfect"@ ==> k[0] == 'p');
    assert(k == "fellout"@ ==> k[0] == 'f');
    assert(k == "good"@ ==> k[0] == 'g');
    assert(k == "ok"@ ==> k[0] == 'o');
    assert(k == "jam"@ ==> k[0] == 'j');
    assert(k == "no fit"@ ==> k[0] == 'n');
    assert(k == "fell out"@ ==> k[0] == 'f');
}

/// Verdicts are matched without regard to ASCII case or to whitespace around
/// them.
pub proof fn lemma_verdict_name_normalized(s: Seq<char>, pre: Seq<char>, post: Seq<char>)
    requires
        all_ws(pre),
        all_ws(post),
    ensures
        parse_verdict_model(upper(s)) == parse_verdict_model(s),
        parse_verdict_model(lower(s)) == parse_verdict_model(s),
        parse_verdict_model(pre + s + post) == parse_verdict_model(s),
{
    crate::text::lemma_trimmed_key_ignores_case(s);
    crate::text::lemma_trim_padded(pre, s, post);
}

/// What a recorded outcome reports: a fit-test coupon's best hole, a caliper
/// reading, or the feel of an assembled fit.
#[derive(Debug, Clone, Copy, PartialEq, Eq, Structural)]
pub enum OutcomeKind {
    Coupon,
    Caliper,
    Fit,
}

pub open spec fn parse_outcome_kind_model(s: Seq<char>) -> Result<OutcomeKind, Seq<char>> {
    let k = lower(trim(s));
    if k == "coupon"@ {
        Ok(OutcomeKind::Coupon)
    } else if k == "caliper"@ {
        Ok(OutcomeKind::Caliper)
    } else if k == "fit"@ {
        Ok(OutcomeKind::Fit)
    } else {
        Err("unknown outcome kind '"@ + k + "' (expected coupon, caliper, or fit)"@)
    }
}

impl OutcomeKind {
    /// Parse an outcome kind (`coupon`, `caliper` or `fit`; whitespace and
    /// ASCII case ignored).
    pub fn from_name(s: &str) -> (r: Result<OutcomeKind, String>)
        ensures
            match r {
                Ok(k) => parse_outcome_kind_model(s@) == Ok::<OutcomeKind, Seq<char>>(k),
                Err(m) => parse_outcome_kind_model(s@) == Err::<OutcomeKind, Seq<char>>(m@),
            },
    {
        let k = trimmed_lower(s);
        let k = k.as_slice();
        if eq_lit(k, "coupon") {
            Ok(OutcomeKind::Coupon)
        } else if eq_lit(k, "caliper") {
            Ok(OutcomeKind::Caliper)
        } else if eq_lit(k, "fit") {
            Ok(OutcomeKind::Fit)
        } else {
            Err(concat3("unknown outcome kind '", k, "' (expected coupon, caliper, or fit)"))
        }
    }
}

/// The feature a caliper reading names (`"outer"` or `"hole"`, ASCII case
/// ignored, no trimming).
pub open spec fn feature_named(s: Seq<char>) -> Option<Feature> {
    if lower(s) == "hole"@ {
        Some(Feature::Hole)
    } else if lower(s) == "outer"@ {
        Some(Feature::Outer)
    } else {
        None
    }
}

impl Feature {
    /// Parse the feature of a caliper reading.
    pub fn from_name(s: &str) -> (r: Option<Feature>)
        ensures
            r == feature_named(s@),
    {
        let v = crate::text::chars_of(s);
        let k = crate::text::lower_vec(v.as_slice());
        if eq_lit(k.as_slice(), "hole") {
            Some(Feature::Hole)
        } else if eq_lit(k.as_slice(), "outer") {
            Some(Feature::Outer)
        } else {
            None
        }
    }
}

impl Verdict {
    /// Parse a verdict; whitespace and ASCII case are ignored and common
    /// synonyms (`sloppy`, `perfect`, `stiff`, `jammed`, `stuck`, ...) accepted.
    pub fn from_name(s: &str) -> (r: Result<Verdict, String>)
        ensures
            match r {
                Ok(v) => parse_verdict_model(s@) == Ok::<Verdict, Seq<char>>(v),
                Err(m) => parse_verdict_model(s@) == Err::<Verdict, Seq<char>>(m@),
            },
    {
        let k = trimmed_lower(s);
        let k = k.as_slice();
        if eq_lit(k, "loose") || eq_lit(k, "sloppy") || eq_lit(k, "fell out") || eq_lit(k, "fellout") {
            Ok(Verdict::Loose)
        } else if eq_lit(k, "good") || eq_lit(k, "perfect") || eq_lit(k, "ok") {
            Ok(Verdict::Good)
        } else if eq_lit(k, "tight") || eq_lit(k, "stiff") {
            Ok(Verdict::Tight)
        } else if eq_lit(k, "jam") || eq_lit(k, "jammed") || eq_lit(k, "stuck") || eq_lit(k, "nofit")
            || eq_lit(k, "no fit") {
            Ok(Verdict::Jam)
        } else {
            Err(concat3("unknown verdict '", k, "' (expected loose, good, tight, or jam)"))
        }
    }
}

impl std::str::FromStr for Verdict {
    type Err = String;

    fn from_str(s: &str) -> (r: Result<Verdict, String>)
        ensures
            match r {
                Ok(v) => parse_verdict_model(s@) == Ok::<Verdict, Seq<char>>(v),
                Err(m) => parse_verdict_model(s@) == Err::<Verdict, Seq<char>>(m@),
            },
    {
        Verdict::from_name(s)
    }
}

} // verus!
