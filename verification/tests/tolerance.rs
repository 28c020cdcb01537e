use demiourgos::tolerance::fit::{class_idx, FitClass};
use demiourgos::tolerance::outcome::{Feature, OutcomeKind, Verdict};
use demiourgos::tolerance::profile::{material_kind, profile_id, slug, MaterialKind, ProfileSource};
use demiourgos::tolerance::store::Store;

#[test]
fn parses_aliases() {
    assert_eq!("loose".parse::<FitClass>().unwrap(), FitClass::Slip);
    assert_eq!("INTERFERENCE".parse::<FitClass>().unwrap(), FitClass::Press);
    assert!("welded".parse::<FitClass>().is_err());
}

#[test]
fn keys_round_trip() {
    for c in FitClass::all() {
        assert_eq!(c.key().parse::<FitClass>().unwrap(), c);
    }
}

#[test]
fn verdict_parses() {
    assert_eq!("jammed".parse::<Verdict>().unwrap(), Verdict::Jam);
    assert_eq!("perfect".parse::<Verdict>().unwrap(), Verdict::Good);
}

#[test]
fn fit_class_details() {
    assert_eq!(
        " Welded ".parse::<FitClass>().unwrap_err(),
        "unknown fit class 'welded' (expected slip, snug, press, or snap)"
    );
    assert_eq!("snap-fit".parse::<FitClass>().unwrap(), FitClass::Snap);
    assert_eq!("Transition".parse::<FitClass>().unwrap(), FitClass::Snug);
    assert_eq!(FitClass::Press.description(), "interference: pressed together, held by friction");
    let idx: Vec<usize> = FitClass::all().iter().map(|c| class_idx(*c)).collect();
    assert_eq!(idx, vec![0, 1, 2, 3]);
}

#[test]
fn verdict_and_feature_details() {
    assert_eq!("no fit".parse::<Verdict>().unwrap(), Verdict::Jam);
    assert_eq!("Fell Out".parse::<Verdict>().unwrap(), Verdict::Loose);
    assert_eq!(
        "meh".parse::<Verdict>().unwrap_err(),
        "unknown verdict 'meh' (expected loose, good, tight, or jam)"
    );
    assert_eq!(Feature::from_name("HOLE"), Some(Feature::Hole));
    assert_eq!(Feature::from_name("outer"), Some(Feature::Outer));
    assert_eq!(Feature::from_name(" outer"), None);
}

#[test]
fn slugs_and_sources() {
    assert_eq!(slug(" Ender 3 "), "ender_3");
    assert_eq!(slug("PETG"), "petg");
    assert_eq!(slug("Prusa MK3.5-S/x"), "prusa_mk3.5-s_x");
    assert_eq!(ProfileSource::Default.label(), "default");
    assert_eq!(ProfileSource::Calibrated.label(), "calibrated");
}

#[test]
fn store_file_locations() {
    let s = Store::at("/data/.demiourgos");
    assert_eq!(s.profiles_path(), "/data/.demiourgos/profiles.json");
    assert_eq!(s.outcomes_path(), "/data/.demiourgos/outcomes.ndjson");
    assert_eq!(Store::at("").profiles_path(), "profiles.json");
}

#[test]
fn id_is_stable_and_slugged() {
    assert_eq!(profile_id("Ender 3", "PETG", "0.4"), "ender_3/petg/0.4");
}

#[test]
fn profile_id_slugs_separators_away() {
    assert_eq!(profile_id(" my/printer ", "pla+", "0.6"), "my_printer/pla_/0.6");
    assert_eq!(profile_id("", "", "1"), "//1");
}

#[test]
fn material_kinds_ignore_case_and_whitespace() {
    assert_eq!(material_kind("PLA"), MaterialKind::Pla);
    assert_eq!(material_kind(" petg "), MaterialKind::Petg);
    assert_eq!(material_kind("asa"), MaterialKind::AbsAsa);
    assert_eq!(material_kind("Abs"), MaterialKind::AbsAsa);
    assert_eq!(material_kind("tpe"), MaterialKind::TpuTpe);
    assert_eq!(material_kind("PA12"), MaterialKind::Nylon);
    assert_eq!(material_kind("nylon"), MaterialKind::Nylon);
    assert_eq!(material_kind("Wood-fill"), MaterialKind::Other);
    assert_eq!(material_kind("P LA"), MaterialKind::Other);
}

#[test]
fn outcome_kinds_parse() {
    assert_eq!(OutcomeKind::from_name("coupon"), Ok(OutcomeKind::Coupon));
    assert_eq!(OutcomeKind::from_name(" Caliper "), Ok(OutcomeKind::Caliper));
    assert_eq!(OutcomeKind::from_name("FIT"), Ok(OutcomeKind::Fit));
    assert_eq!(
        OutcomeKind::from_name("guess"),
        Err("unknown outcome kind 'guess' (expected coupon, caliper, or fit)".to_string())
    );
}

#[test]
fn slugging_a_slug_changes_nothing() {
    for s in [" Ender 3 ", "PLA+", "a/b\\c", "Prusa MK4S.v2-x", ""] {
        let once = slug(s);
        assert_eq!(slug(&once), once);
        assert!(!once.contains('/'));
    }
}

#[test]
fn profile_ids_split_back_into_their_parts() {
    let id = profile_id("My/Printer", "PETG", "0.6");
    let parts: Vec<&str> = id.split('/').collect();
    assert_eq!(parts, vec!["my_printer", "petg", "0.6"]);
    assert_ne!(profile_id("a", "b/c", "0.4"), profile_id("a/b", "c", "0.4"));
}

#[test]
fn fit_classes_sit_at_their_index() {
    for c in FitClass::all() {
        assert_eq!(FitClass::all()[class_idx(c)], c);
    }
}

#[test]
fn names_ignore_case_and_surrounding_whitespace() {
    assert_eq!(FitClass::from_name("\tSNUG \n"), Ok(FitClass::Snug));
    assert_eq!(Verdict::from_name("  Perfect"), Ok(Verdict::Good));
    assert_eq!(material_kind("\u{a0}petg\u{3000}"), MaterialKind::Petg);
}
