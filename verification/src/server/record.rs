//! Checking the arguments of a recorded print outcome: which fields each kind
//! of outcome needs, in the order they are checked, and the error for the
//! first one that is missing or malformed.

use vstd::prelude::*;

use crate::server::tools::opt_view;
use crate::tolerance::fit::{parse_fit_model, FitClass};
use crate::tolerance::outcome::{
    feature_named, parse_outcome_kind_model, parse_verdict_model, Feature, OutcomeKind, Verdict,
};

verus! {

/// What a recorded outcome measures, once its arguments have been checked.
#[derive(Debug, Clone, Copy, PartialEq, Eq, Structural)]
pub enum OutcomeShape {
    /// A fit-test coupon: the class whose best clearance was read off.
    Coupon(FitClass),
    /// A caliper reading of a feature.
    Caliper(Feature),
    /// How an assembled fit of a class felt.
    Fit(FitClass, Verdict),
}

/// The arguments of an outcome record; each reading in millimetres is
/// reduced to whether it was given.
pub struct OutcomeRequest {
    pub kind: String,
    pub fit_class: Option<String>,
    pub has_best_clearance: bool,
    pub feature: Option<String>,
    pub has_nominal: bool,
    pub has_measured: bool,
    pub has_clearance: bool,
    pub verdict: Option<String>,
}

/// The fit class a request names, or the error for its absence or its name.
pub open spec fn class_arg(f: Option<Seq<char>>, missing: Seq<char>) -> Result<FitClass, Seq<char>> {
    match f {
        None => Err(missing),
        Some(s) => parse_fit_model(s),
    }
}

/// What checking a request gives: the shape of the outcome, or the error for
/// the first field of its kind that is missing or malformed.
pub open spec fn check_outcome_model(q: OutcomeRequest) -> Result<OutcomeShape, Seq<char>> {
    match parse_outcome_kind_model(q.kind@) {
        Err(m) => Err(m),
        Ok(OutcomeKind::Coupon) => match class_arg(
            opt_view(q.fit_class),
            "kind='coupon' requires fit_class"@,
        ) {
            Err(m) => Err(m),
            Ok(c) => if q.has_best_clearance {
                Ok(OutcomeShape::Coupon(c))
            } else {
                Err("kind='coupon' requires best_clearance_mm"@)
            },
        },
        Ok(OutcomeKind::Caliper) => match opt_view(q.feature) {
            Some(f) if feature_named(f) is Some => if !q.has_nominal {
                Err("kind='caliper' requires nominal_mm"@)
            } else if !q.has_measured {
                Err("kind='caliper' requires measured_mm"@)
            } else {
                Ok(OutcomeShape::Caliper(feature_named(f)->Some_0))
            },
            _ => Err("kind='caliper' requires feature 'outer' or 'hole'"@),
        },
        Ok(OutcomeKind::Fit) => match class_arg(opt_view(q.fit_class), "kind='fit' requires fit_class"@) {
            Err(m) => Err(m),
            Ok(c) => if !q.has_clearance {
                Err("kind='fit' requires clearance_mm"@)
            } else {
                match opt_view(q.verdict) {
                    None => Err("kind='fit' requires verdict"@),
                    Some(v) => match parse_verdict_model(v) {
                        Err(m) => Err(m),
                        Ok(w) => Ok(OutcomeShape::Fit(c, w)),
                    },
                }
            },
        },
    }
}

fn class_of(f: &Option<String>, missing: &str) -> (r: Result<FitClass, String>)
    ensures
        match r {
            Ok(c) => class_arg(opt_view(*f), missing@) == Ok::<FitClass, Seq<char>>(c),
            Err(m) => class_arg(opt_view(*f), missing@) == Err::<FitClass, Seq<char>>(m@),
        },
{
    match f {
        None => Err(missing.to_owned()),
        Some(s) => FitClass::from_name(s.as_str()),
    }
}

/// Checks the arguments of an outcome record.
pub fn check_outcome(q: &OutcomeRequest) -> (r: Result<OutcomeShape, String>)
    ensures
        match r {
            Ok(s) => check_outcome_model(*q) == Ok::<OutcomeShape, Seq<char>>(s),
            Err(m) => check_outcome_model(*q) == Err::<OutcomeShape, Seq<char>>(m@),
        },
{
    let kind = match OutcomeKind::from_name(q.kind.as_str()) {
        Ok(k) => k,
        Err(m) => return Err(m),
    };
    match kind {
        OutcomeKind::Coupon => {
            let c = match class_of(&q.fit_class, "kind='coupon' requires fit_class") {
                Ok(c) => c,
                Err(m) => return Err(m),
            };
            if q.has_best_clearance {
                Ok(OutcomeShape::Coupon(c))
            } else {
                Err("kind='coupon' requires best_clearance_mm".to_owned())
            }
        },
        OutcomeKind::Caliper => {
            let f = match &q.feature {
                Some(s) => Feature::from_name(s.as_str()),
                None => None,
            };
            match f {
                None => Err("kind='caliper' requires feature 'outer' or 'hole'".to_owned()),
                Some(ft) => {
                    if !q.has_nominal {
                        Err("kind='caliper' requires nominal_mm".to_owned())
                    } else if !q.has_measured {
                        Err("kind='caliper' requires measured_mm".to_owned())
                    } else {
                        Ok(OutcomeShape::Caliper(ft))
                    }
                },
            }
        },
        OutcomeKind::Fit => {
            let c = match class_of(&q.fit_class, "kind='fit' requires fit_class") {
                Ok(c) => c,
                Err(m) => return Err(m),
            };
            if !q.has_clearance {
                return Err("kind='fit' requires clearance_mm".to_owned());
            }
            match &q.verdict {
                None => Err("kind='fit' requires verdict".to_owned()),
                Some(v) => match Verdict::from_name(v.as_str()) {
                    Ok(w) => Ok(OutcomeShape::Fit(c, w)),
                    Err(m) => Err(m),
                },
            }
        },
    }
}

} // verus!
