use cargo_release::requirement::{
    upgrade_req_decision, upgrade_requirement, DependentVersion, Version,
};

fn version(major: u64, minor: u64, patch: u64) -> Version {
    Version { major, minor, patch, pre: String::new() }
}

#[test]
fn exact_pin_keeps_style() {
    // An exact requirement follows the new version in the same style.
    let v = version(1, 3, 0);
    assert_eq!(upgrade_requirement("1.2.0", &v), Some("1.3.0".to_owned()));
    assert_eq!(upgrade_requirement("=1.2.3", &v), Some("=1.3.0".to_owned()));
}

#[test]
fn fix_leaves_matching_requirement() {
    // Policy Fix: a requirement the new version already satisfies stays.
    let v = version(1, 2, 5);
    assert_eq!(
        upgrade_req_decision("^1.2", &v, DependentVersion::Fix),
        None
    );
}

#[test]
fn fix_rewrites_broken_requirement() {
    let v = version(2, 0, 0);
    assert_eq!(
        upgrade_req_decision("^1.2", &v, DependentVersion::Fix),
        Some("^2.0".to_owned())
    );
}

#[test]
fn upgrade_always_reflects_new_version() {
    let v = version(1, 3, 0);
    assert_eq!(
        upgrade_req_decision("^1.2", &v, DependentVersion::Upgrade),
        Some("^1.3".to_owned())
    );
}

#[test]
fn partial_precision_is_kept() {
    // Only the fields spelled out in the requirement are rewritten.
    let v = version(2, 5, 7);
    assert_eq!(upgrade_requirement(">=1", &v), Some(">=2".to_owned()));
    assert_eq!(upgrade_requirement("~1.2", &v), Some("~2.5".to_owned()));
}

#[test]
fn wildcard_keeps_its_shape() {
    let v = version(2, 0, 0);
    assert_eq!(upgrade_requirement("1.*", &v), Some("2.*".to_owned()));
}

#[test]
fn unparseable_requirement_is_skipped() {
    let v = version(1, 0, 0);
    assert_eq!(upgrade_requirement("not a requirement", &v), None);
    assert_eq!(
        upgrade_req_decision("not a requirement", &v, DependentVersion::Upgrade),
        None
    );
}

#[test]
fn unchanged_rewrite_reports_nothing() {
    // Rewriting to the same text is no change at all.
    let v = version(1, 2, 0);
    assert_eq!(upgrade_requirement("^1.2", &v), None);
    assert_eq!(upgrade_requirement("1.2.0", &v), None);
}

#[test]
fn prerelease_version_is_carried() {
    let v = Version { major: 2, minor: 0, patch: 0, pre: "alpha.1".to_owned() };
    assert_eq!(
        upgrade_requirement("=1.0.0", &v),
        Some("=2.0.0-alpha.1".to_owned())
    );
}

#[test]
fn every_comparator_is_rewritten() {
    let v = version(2, 5, 0);
    assert_eq!(
        upgrade_requirement(">=1.0, <2.0", &v),
        Some(">=2.5, <2.5".to_owned())
    );
}
