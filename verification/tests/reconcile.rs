//! The reconciliation engine: classification and the outdated subset.

use cap::package::{Package, PackageExecutable};
use cap::parse::parse_version;
use cap::updater::{classify, classify_lookup, collect_outdated, PackageStatus, PackageWithStatus};
use cap::version::Version;

fn v(text: &str) -> Version {
    parse_version(text).expect("version should parse")
}

fn pkg(name: &str, version: &str) -> Package {
    Package::new(
        name.to_string(),
        v(version),
        vec![PackageExecutable::new(name.to_string())],
    )
}

#[test]
fn classify_up_to_date_iff_latest_le_local() {
    let pairs = [
        ("1.0.0", "1.0.0", PackageStatus::UpToDate),
        ("1.2.9", "1.3.0", PackageStatus::UpToDate),
        ("1.3.0", "1.2.9", PackageStatus::OutOfDate),
        // A remote pre-release never outdates its release.
        ("2.0.0-rc.1", "2.0.0", PackageStatus::UpToDate),
        ("2.0.0", "2.0.0-rc.1", PackageStatus::OutOfDate),
        // Build metadata is the final tie-break of the full order.
        ("1.0.0+b", "1.0.0", PackageStatus::OutOfDate),
        ("1.0.0", "1.0.0+b", PackageStatus::UpToDate),
    ];
    for (latest, local, expected) in pairs {
        let got = classify(&v(latest), &v(local));
        assert_eq!(got, expected, "latest {} vs local {}", latest, local);
        // The rule is exactly `latest <= local`.
        assert_eq!(got == PackageStatus::UpToDate, v(latest).le(&v(local)));
    }
}

#[test]
fn outdated_local_yields_latest_target() {
    // Local foo 1.2.0 against registry 1.3.0: out of date, carrying
    // 1.3.0 as the update target from 1.2.0.
    let local = pkg("foo", "1.2.0");
    let checked = classify_lookup(&local, Some(v("1.3.0"))).expect("a classification");
    assert!(checked.is_out_of_date());
    assert_eq!(checked.package().name(), "foo");
    assert!(checked.package().version().eq_version(&v("1.2.0")));
    let target = checked.latest_version().as_ref().expect("target expected");
    assert!(target.eq_version(&v("1.3.0")));
}

#[test]
fn current_local_carries_no_target() {
    // Local bar 2.0.0 against registry 2.0.0: up to date, and no update
    // target, so no actuator call is warranted.
    let local = pkg("bar", "2.0.0");
    let checked = classify_lookup(&local, Some(v("2.0.0"))).expect("a classification");
    assert!(!checked.is_out_of_date());
    assert!(checked.latest_version().is_none());
}

#[test]
fn missing_registry_record_yields_nothing() {
    // The registry not knowing baz is a soft outcome: no classification
    // and no error.
    let local = pkg("baz", "0.1.0");
    assert!(classify_lookup(&local, None).is_none());
}

#[test]
fn all_up_to_date_is_nothing_not_empty() {
    let statuses = vec![
        PackageWithStatus::new(pkg("a", "1.0.0"), PackageStatus::UpToDate, None),
        PackageWithStatus::new(pkg("b", "2.0.0"), PackageStatus::UpToDate, None),
    ];
    assert!(collect_outdated(statuses).is_none());
    assert!(collect_outdated(Vec::new()).is_none());
}

#[test]
fn outdated_subset_is_exact_and_ordered() {
    let statuses = vec![
        PackageWithStatus::new(pkg("alpha", "1.0.0"), PackageStatus::UpToDate, None),
        PackageWithStatus::new(
            pkg("longname", "1.0.0"),
            PackageStatus::OutOfDate,
            Some(v("1.1.0")),
        ),
        PackageWithStatus::new(pkg("z", "0.1.0"), PackageStatus::OutOfDate, Some(v("0.2.0"))),
        PackageWithStatus::new(pkg("middle", "3.0.0"), PackageStatus::UpToDate, None),
    ];
    let report = collect_outdated(statuses).expect("outdated entries expected");
    let names: Vec<&str> = report.outdated().iter().map(|p| p.package().name()).collect();
    assert_eq!(names, vec!["longname", "z"]);
    // Padding counts only the outdated subset: "longname" has 8
    // characters, longer than "z"; "alpha" and "middle" do not count.
    assert_eq!(report.padding(), 8);
}

#[test]
fn padding_of_single_outdated_entry() {
    let statuses = vec![
        PackageWithStatus::new(pkg("tool", "1.0.0"), PackageStatus::OutOfDate, Some(v("2.0.0"))),
    ];
    let report = collect_outdated(statuses).expect("outdated entry expected");
    assert_eq!(report.outdated().len(), 1);
    assert_eq!(report.padding(), 4);
}

#[test]
fn check_outcome_into_result() {
    let local = pkg("foo", "1.2.0");
    let checked = classify_lookup(&local, Some(v("1.3.0"))).expect("a classification");
    let outcome = cap::updater::CheckOutcome::Checked(checked);
    let result = outcome.into_result().expect("a result expected");
    assert!(result.is_out_of_date());
    assert!(cap::updater::CheckOutcome::NotInstalled.into_result().is_none());
    assert!(cap::updater::CheckOutcome::NotAvailable.into_result().is_none());
}

#[test]
fn compiled_pattern_matches() {
    let p = cap::registry::CompiledPattern::compile("^rip.*p$").expect("pattern should compile");
    assert!(p.matches("ripgrep"));
    assert!(!p.matches("cargo-edit"));
    let anywhere = cap::registry::CompiledPattern::compile("grep").expect("pattern should compile");
    assert!(anywhere.matches("ripgrep"));
    assert!(cap::registry::CompiledPattern::compile("[").is_none());
}

#[test]
fn first_record_picks_head_of_nonempty_list() {
    let record = |name: &str| crates_io::Crate {
        name: name.to_string(),
        description: None,
        max_version: "1.0.0".to_string(),
    };
    let got = cap::client::CratesIoClient::first_record(vec![record("serde"), record("serde_json")])
        .expect("a record expected");
    assert_eq!(got.name, "serde");
    let empty: Vec<crates_io::Crate> = Vec::new();
    assert!(matches!(
        cap::client::CratesIoClient::first_record(empty),
        Err(cap::client::ClientError::NotFound)
    ));
}
