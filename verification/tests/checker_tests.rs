//! The checker: classification of every key as current, outdated,
//! missing or unused, against base and target stores.

use rosey::check::RoseyChecker;
use rosey::check::RoseyCheckStates;
use rosey::store::RoseyLocale;
use rosey::store::RoseyTranslation;
use rosey::store::RoseyTranslationEntry;

fn entry(original: Option<&str>, value: Option<&str>) -> RoseyTranslationEntry {
    RoseyTranslationEntry {
        original: original.map(|s| s.to_owned()),
        value: value.map(|s| s.to_owned()),
        pages: None,
        total: None,
    }
}

fn checker_with_base(keys: RoseyTranslation) -> RoseyChecker {
    RoseyChecker { check: Vec::new(), base_locale: RoseyLocale { version: 2, keys } }
}

#[test]
fn classification_of_flat_stores() {
    // base {a: "X", b: "Y"} and target {a: "X translated", c: "Z"}, both
    // flat stores: normalized entries carry no original, so `a` compares
    // current; `b` is missing; `c` is unused.
    let base = RoseyTranslation::V1(vec![
        ("a".to_owned(), "X".to_owned()),
        ("b".to_owned(), "Y".to_owned()),
    ]);
    let target = RoseyTranslation::V1(vec![
        ("a".to_owned(), "X translated".to_owned()),
        ("c".to_owned(), "Z".to_owned()),
    ]);
    let checker = checker_with_base(base);
    let report = checker.check_translation(&target);
    assert_eq!(report.base_total, 2);
    assert_eq!(report.total, 2);
    assert!(!report.current);
    assert_eq!(report.states.current, 1);
    assert_eq!(report.states.missing, 1);
    assert_eq!(report.states.unused, 1);
    assert_eq!(report.states.outdated, 0);
    assert_eq!(report.keys.len(), 3);
    assert_eq!(report.keys[0], ("a".to_owned(), RoseyCheckStates::Current));
    assert_eq!(report.keys[1], ("b".to_owned(), RoseyCheckStates::Missing));
    assert_eq!(report.keys[2], ("c".to_owned(), RoseyCheckStates::Unused));
}

#[test]
fn outdated_when_originals_differ() {
    let base = RoseyTranslation::V2(vec![
        ("a".to_owned(), entry(Some("new text"), None)),
        ("b".to_owned(), entry(Some("same"), None)),
    ]);
    let target = RoseyTranslation::V2(vec![
        ("a".to_owned(), entry(Some("old text"), Some("translated"))),
        ("b".to_owned(), entry(Some("same"), Some("translated"))),
    ]);
    let checker = checker_with_base(base);
    let report = checker.check_translation(&target);
    assert!(!report.current);
    assert_eq!(report.states.outdated, 1);
    assert_eq!(report.states.current, 1);
    assert_eq!(report.keys[0], ("a".to_owned(), RoseyCheckStates::Outdated));
    assert_eq!(report.keys[1], ("b".to_owned(), RoseyCheckStates::Current));
}

#[test]
fn one_sided_original_counts_outdated() {
    // an entry lacking `original` on one side only is not confirmably
    // current: it classifies as outdated.
    let base = RoseyTranslation::V2(vec![("a".to_owned(), entry(Some("text"), None))]);
    let target = RoseyTranslation::V1(vec![("a".to_owned(), "translated".to_owned())]);
    let checker = checker_with_base(base);
    let report = checker.check_translation(&target);
    assert_eq!(report.states.outdated, 1);
    assert_eq!(report.keys[0], ("a".to_owned(), RoseyCheckStates::Outdated));
}

#[test]
fn fully_current_report() {
    let base = RoseyTranslation::V2(vec![("a".to_owned(), entry(Some("x"), None))]);
    let target = RoseyTranslation::V2(vec![
        ("a".to_owned(), entry(Some("x"), Some("tr"))),
    ]);
    let checker = checker_with_base(base);
    let report = checker.check_translation(&target);
    assert!(report.current);
    assert_eq!(report.states.current, 1);
    assert_eq!(report.states.outdated, 0);
    assert_eq!(report.states.missing, 0);
    assert_eq!(report.states.unused, 0);
}

#[test]
fn empty_stores_are_current() {
    let checker = checker_with_base(RoseyTranslation::V2(Vec::new()));
    let report = checker.check_translation(&RoseyTranslation::V2(Vec::new()));
    assert!(report.current);
    assert_eq!(report.base_total, 0);
    assert_eq!(report.total, 0);
    assert_eq!(report.keys.len(), 0);
}
