use parcel::build_manifest::{
    action_source_paths, first_missing_source, supports_architecture,
    build_version, is_remote_source, parse_actions, parse_source_spec, source_file_name, sources_for_arch, BuildError,
};
use parcel::parcel_manifest::{InstallAction, InstallActionKind, InstallTarget};
use parcel::utils::arch::Architecture;

#[test]
fn source_checksums_follow_the_last_colon() {
    let s = parse_source_spec("https://example.com/a.zip:ABC123def");
    assert_eq!(s.location, "https://example.com/a.zip");
    assert_eq!(s.checksum.as_deref(), Some("ABC123def"));
    let s = parse_source_spec("https://example.com/a.zip");
    assert_eq!(s.location, "https://example.com/a.zip");
    assert_eq!(s.checksum, None);
    let s = parse_source_spec("./file.txt:");
    assert_eq!(s.location, "./file.txt:");
    assert_eq!(s.checksum, None);
    let s = parse_source_spec("./file.txt:xyz");
    assert_eq!(s.location, "./file.txt:xyz");
}

#[test]
fn build_versions_carry_the_release() {
    assert_eq!(build_version("1.0.0", None, None), "1.0.0-1");
    assert_eq!(build_version("1.0.0", Some(3), Some(2)), "1.0.0-3");
    assert_eq!(build_version("1.0.0", None, Some(2)), "1.0.0-2");
}

#[test]
fn sources_are_shared_then_per_architecture() {
    let shared = vec!["a".to_string()];
    let x = vec!["x".to_string()];
    let arm = vec!["arm".to_string()];
    assert_eq!(sources_for_arch(&shared, &x, &arm, Architecture::X86_64), vec!["a".to_string(), "x".to_string()]);
    assert_eq!(sources_for_arch(&shared, &x, &arm, Architecture::AARCH64), vec!["a".to_string(), "arm".to_string()]);
    assert!(is_remote_source("https://e/x"));
    assert!(is_remote_source("file:///x"));
    assert!(!is_remote_source("./x"));
    assert_eq!(source_file_name("https://e/dir/z.zip").ok().unwrap(), "z.zip");
    assert!(source_file_name("/").is_err());
}

#[test]
fn files_become_install_actions() {
    let files = vec![
        ("bin".to_string(), vec!["bin/example:link".to_string()]),
        ("desktop".to_string(), vec!["example.desktop:copy".to_string()]),
    ];
    let actions = parse_actions(&files).unwrap();
    assert_eq!(actions.len(), 2);
    assert_eq!(actions[0].source, "bin/example");
    assert_eq!(actions[0].target, InstallTarget::Bin);
    assert_eq!(actions[0].kind, InstallActionKind::Link);
    assert_eq!(actions[1].target, InstallTarget::Desktop);
    assert_eq!(actions[1].kind, InstallActionKind::Copy);
}

#[test]
fn bad_file_entries_are_refused() {
    let one = |target: &str, entry: &str| vec![(target.to_string(), vec![entry.to_string()])];
    assert!(matches!(parse_actions(&one("lib", "x:link")), Err(BuildError::UnsupportedTarget(t)) if t == "lib"));
    assert!(matches!(parse_actions(&one("bin", "x")), Err(BuildError::InvalidAction(_))));
    assert!(matches!(parse_actions(&one("bin", "x:move")), Err(BuildError::UnsupportedMode(m)) if m == "move"));
    assert!(matches!(parse_actions(&one("bin", "../x:link")), Err(BuildError::InvalidSource(_))));
    assert!(matches!(parse_actions(&one("bin", "/etc/x:copy")), Err(BuildError::InvalidSource(_))));
}

#[test]
fn builds_check_architecture_and_payload_sources() {
    assert!(supports_architecture(&vec![Architecture::AARCH64, Architecture::X86_64], Architecture::X86_64));
    assert!(!supports_architecture(&vec![Architecture::AARCH64], Architecture::X86_64));
    let actions = vec![
        InstallAction { source: "bin/a".to_string(), target: InstallTarget::Bin, kind: InstallActionKind::Link },
        InstallAction { source: "b.desktop".to_string(), target: InstallTarget::Applications, kind: InstallActionKind::Copy },
    ];
    assert_eq!(action_source_paths("/out", &actions), vec!["/out/bin/a".to_string(), "/out/b.desktop".to_string()]);
    assert_eq!(first_missing_source(&vec![true, false, false]), Some(1));
    assert_eq!(first_missing_source(&vec![true, true]), None);
}
