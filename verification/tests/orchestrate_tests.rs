use cargo_upgrade_command::classify_exit;
use cargo_upgrade_command::plan_upgrades;
use cargo_upgrade_command::Package;
use cargo_upgrade_command::PlanStep;
use cargo_upgrade_command::UpgradeOutcome;

fn outdated(name: &[u8], version: &[u8], latest: &[u8]) -> Package {
    Package {
        name: name.to_vec(),
        version: version.to_vec(),
        new_version: Some(latest.to_vec()),
    }
}

#[test]
fn exit_codes_classify_as_documented() {
    assert_eq!(classify_exit(Some(0)), UpgradeOutcome::Success);
    assert_eq!(classify_exit(Some(1)), UpgradeOutcome::Failure);
    assert_eq!(classify_exit(Some(2)), UpgradeOutcome::Warning);
    assert_eq!(classify_exit(Some(-1)), UpgradeOutcome::Warning);
    assert_eq!(classify_exit(None), UpgradeOutcome::Failure);
}

#[test]
fn two_non_self_packages_are_upgraded_in_order() {
    // The plan drives the runner: exactly one install invocation per step,
    // walked sequentially, so two packages mean exactly two invocations in
    // listed order and never a concurrent one.
    let packages = vec![outdated(b"a", b"1.0.0", b"1.1.0"), outdated(b"b", b"2.0.0", b"2.1.0")];
    let plan = plan_upgrades(&packages, b"cargo-upgrade-command", false);
    assert_eq!(plan.len(), 2);
    match &plan[0] {
        PlanStep::Upgrade { package, relocate_first, separator_before } => {
            assert_eq!(package.name, b"a".to_vec());
            assert!(!relocate_first);
            assert!(!separator_before);
        },
        PlanStep::SkipSelfDebug { .. } => panic!("first step must be an upgrade"),
    }
    match &plan[1] {
        PlanStep::Upgrade { package, relocate_first, separator_before } => {
            assert_eq!(package.name, b"b".to_vec());
            assert!(!relocate_first);
            assert!(separator_before, "a separator precedes the second announcement");
        },
        PlanStep::SkipSelfDebug { .. } => panic!("second step must be an upgrade"),
    }
}

#[test]
fn self_package_is_relocated_first_in_release_builds() {
    let packages = vec![outdated(b"tool", b"1.0.0", b"1.1.0")];
    let plan = plan_upgrades(&packages, b"tool", false);
    assert_eq!(plan.len(), 1);
    match &plan[0] {
        PlanStep::Upgrade { package, relocate_first, .. } => {
            assert_eq!(package.name, b"tool".to_vec());
            assert!(relocate_first);
        },
        PlanStep::SkipSelfDebug { .. } => panic!("release builds upgrade the tool itself"),
    }
}

#[test]
fn self_package_is_skipped_in_debug_builds() {
    let packages = vec![outdated(b"tool", b"1.0.0", b"1.1.0"), outdated(b"b", b"2.0.0", b"2.1.0")];
    let plan = plan_upgrades(&packages, b"tool", true);
    assert_eq!(plan.len(), 2);
    match &plan[0] {
        PlanStep::SkipSelfDebug { name } => assert_eq!(*name, b"tool".to_vec()),
        PlanStep::Upgrade { .. } => panic!("debug builds skip the self upgrade"),
    }
    match &plan[1] {
        PlanStep::Upgrade { package, separator_before, .. } => {
            assert_eq!(package.name, b"b".to_vec());
            // The skipped self upgrade does not count toward the separator.
            assert!(!separator_before);
        },
        PlanStep::SkipSelfDebug { .. } => panic!("second step must be an upgrade"),
    }
}

#[test]
fn unresolved_records_are_dropped_from_the_plan() {
    let packages = vec![
        Package { name: b"a".to_vec(), version: b"1.0.0".to_vec(), new_version: None },
        outdated(b"b", b"2.0.0", b"2.1.0"),
    ];
    let plan = plan_upgrades(&packages, b"tool", false);
    assert_eq!(plan.len(), 1);
    match &plan[0] {
        PlanStep::Upgrade { package, .. } => assert_eq!(package.name, b"b".to_vec()),
        PlanStep::SkipSelfDebug { .. } => panic!("unresolved records are dropped"),
    }
}

#[test]
fn formatted_package_keeps_name_and_marks_versions() {
    let p = outdated(b"foo", b"1.2.3", b"1.3.0");
    let f = p.to_formatted();
    assert_eq!(f.name, b"foo".to_vec());
    let styled_old = f.version;
    let styled_new = f.new_version.expect("formatted record keeps the resolved version");
    // Whatever styling the terminal settings produce, the prefixed version
    // text itself must appear in the styled bytes.
    assert!(contains(&styled_old, b"v1.2.3"));
    assert!(contains(&styled_new, b"v1.3.0"));
}

fn contains(hay: &[u8], needle: &[u8]) -> bool {
    hay.windows(needle.len()).any(|w| w == needle)
}
