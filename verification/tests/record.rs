use demiourgos::server::record::{check_outcome, OutcomeRequest, OutcomeShape};
use demiourgos::tolerance::fit::FitClass;
use demiourgos::tolerance::outcome::{Feature, Verdict};

fn request(kind: &str) -> OutcomeRequest {
    OutcomeRequest {
        kind: kind.to_string(),
        fit_class: None,
        has_best_clearance: false,
        feature: None,
        has_nominal: false,
        has_measured: false,
        has_clearance: false,
        verdict: None,
    }
}

fn err(q: &OutcomeRequest) -> String {
    check_outcome(q).unwrap_err()
}

#[test]
fn coupon_needs_class_then_best_clearance() {
    let mut q = request(" Coupon ");
    assert_eq!(err(&q), "kind='coupon' requires fit_class");
    q.fit_class = Some("bogus".to_string());
    assert!(err(&q).starts_with("unknown fit class 'bogus'"));
    q.fit_class = Some("snug".to_string());
    assert_eq!(err(&q), "kind='coupon' requires best_clearance_mm");
    q.has_best_clearance = true;
    assert_eq!(check_outcome(&q), Ok(OutcomeShape::Coupon(FitClass::Snug)));
}

#[test]
fn caliper_needs_feature_nominal_and_measured() {
    let mut q = request("caliper");
    assert_eq!(err(&q), "kind='caliper' requires feature 'outer' or 'hole'");
    q.feature = Some("side".to_string());
    assert_eq!(err(&q), "kind='caliper' requires feature 'outer' or 'hole'");
    q.feature = Some("HOLE".to_string());
    assert_eq!(err(&q), "kind='caliper' requires nominal_mm");
    q.has_nominal = true;
    assert_eq!(err(&q), "kind='caliper' requires measured_mm");
    q.has_measured = true;
    assert_eq!(check_outcome(&q), Ok(OutcomeShape::Caliper(Feature::Hole)));
}

#[test]
fn fit_needs_class_clearance_and_verdict() {
    let mut q = request("FIT");
    assert_eq!(err(&q), "kind='fit' requires fit_class");
    q.fit_class = Some("press".to_string());
    assert_eq!(err(&q), "kind='fit' requires clearance_mm");
    q.has_clearance = true;
    assert_eq!(err(&q), "kind='fit' requires verdict");
    q.verdict = Some("meh".to_string());
    assert!(err(&q).starts_with("unknown verdict 'meh'"));
    q.verdict = Some("Stuck".to_string());
    assert_eq!(check_outcome(&q), Ok(OutcomeShape::Fit(FitClass::Press, Verdict::Jam)));
}

#[test]
fn unknown_kind_is_named_in_the_error() {
    let q = request("  Photo ");
    assert_eq!(err(&q), "unknown outcome kind 'photo' (expected coupon, caliper, or fit)");
}
