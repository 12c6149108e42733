use parcel::version::{compare_version_strings, is_newer, latest_version, validate_package_arch};
use std::cmp::Ordering;

#[test]
fn latest_version_uses_semver_and_release() {
    let versions = vec!["1.0.0-alpha01-1".to_string(), "1.0.0-2".to_string(), "1.0.1-1".to_string()];

    assert_eq!(latest_version(&versions).as_deref(), Some("1.0.1-1"));
}

#[test]
fn detects_upgrade_versions() {
    assert!(is_newer("1.0.1-1", "1.0.0-2"));
    assert!(is_newer("1.0.0-2", "1.0.0-1"));
    assert!(!is_newer("1.0.0-1", "1.0.0-1"));
}

#[test]
fn prereleases_come_before_releases() {
    assert_eq!(compare_version_strings("1.0.0-alpha01-1", "1.0.0-1"), Ordering::Less);
    assert_eq!(compare_version_strings("1.10.0-1", "1.9.0-1"), Ordering::Greater);
}

#[test]
fn unparsable_versions_compare_as_text() {
    assert_eq!(compare_version_strings("abc", "abd"), Ordering::Less);
    assert_eq!(latest_version(&Vec::new()), None);
}

#[test]
fn package_architecture_must_match_the_host() {
    assert!(validate_package_arch("x86_64", "x86_64").is_ok());
    let e = validate_package_arch("aarch64", "x86_64").unwrap_err();
    assert_eq!(e.package, "aarch64");
    assert_eq!(e.current, "x86_64");
}
