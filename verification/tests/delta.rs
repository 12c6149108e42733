use parcel::delta::{
    check_delta_ends, compute_delta_changes, delta_file_name, delta_manifest, delta_member, finish_staged_delta, removal_targets,
    DeltaError, DeltaManifest, DeltaMember, EntryFingerprint,
};
use parcel::parcel_manifest::PackageManifest;
use parcel::utils::arch::Architecture;

fn manifest(name: &str, version: &str, arch: Architecture) -> PackageManifest {
    PackageManifest {
        name: name.to_string(),
        version: version.to_string(),
        arch,
        description: "Example".to_string(),
        homepage: None,
        actions: Vec::new(),
    }
}

#[test]
fn delta_lists_removed_and_changed_paths() {
    let from = vec![
        ("bin".to_string(), EntryFingerprint::Directory),
        ("bin/example".to_string(), EntryFingerprint::File("one".to_string())),
        ("bin/old".to_string(), EntryFingerprint::Symlink("example".to_string())),
    ];
    let to = vec![
        ("bin".to_string(), EntryFingerprint::Directory),
        ("bin/example".to_string(), EntryFingerprint::File("two".to_string())),
        ("bin/extra".to_string(), EntryFingerprint::File("new".to_string())),
    ];
    let changes = compute_delta_changes(&from, &to);
    assert_eq!(changes.removed_paths, vec!["bin/old".to_string()]);
    assert_eq!(changes.changed_paths, vec!["bin/example".to_string(), "bin/extra".to_string()]);
}

#[test]
fn identical_payloads_give_an_empty_delta() {
    let listing = vec![("bin/example".to_string(), EntryFingerprint::File("one".to_string()))];
    let same = vec![("bin/example".to_string(), EntryFingerprint::File("one".to_string()))];
    let changes = compute_delta_changes(&listing, &same);
    assert!(changes.removed_paths.is_empty());
    assert!(changes.changed_paths.is_empty());
}

#[test]
fn delta_archives_are_named_after_both_versions() {
    assert_eq!(
        delta_file_name("example", "1.0.0-1", "1.1.0-1", Architecture::X86_64),
        "example-1.0.0-1-1.1.0-1-x86_64.delta.parcel"
    );
}

#[test]
fn delta_needs_matching_names_and_architectures() {
    let a = manifest("example", "1.0.0-1", Architecture::X86_64);
    assert!(check_delta_ends(&a, &manifest("example", "1.1.0-1", Architecture::X86_64)).is_ok());
    assert!(matches!(check_delta_ends(&a, &manifest("other", "1.1.0-1", Architecture::X86_64)), Err(DeltaError::NameMismatch)));
    assert!(matches!(check_delta_ends(&a, &manifest("example", "1.1.0-1", Architecture::AARCH64)), Err(DeltaError::ArchMismatch)));
}

#[test]
fn delta_metadata_comes_from_both_manifests() {
    let from = manifest("example", "1.0.0-1", Architecture::X86_64);
    let to = manifest("example", "1.1.0-1", Architecture::X86_64);
    let changes = compute_delta_changes(
        &vec![("a".to_string(), EntryFingerprint::Directory)],
        &Vec::new(),
    );
    let d = delta_manifest(&from, &to, changes, "base".to_string(), "target".to_string());
    assert_eq!(d.from_version, "1.0.0-1");
    assert_eq!(d.to_version, "1.1.0-1");
    assert_eq!(d.removed_paths, vec!["a".to_string()]);
    assert_eq!(d.base_checksum, "base");
}

#[test]
fn delta_archive_members_and_completeness() {
    assert_eq!(delta_member("delta.yml"), DeltaMember::Metadata);
    assert_eq!(delta_member("manifest.yml"), DeltaMember::Manifest);
    assert_eq!(delta_member("delta-data.tar.zst"), DeltaMember::Overlay);
    assert_eq!(delta_member("readme"), DeltaMember::Other);
    assert!(matches!(finish_staged_delta(None, None, true, "o".to_string()), Err(DeltaError::MissingDeltaMetadata)));
    let d = DeltaManifest {
        name: "example".to_string(),
        from_version: "1".to_string(),
        to_version: "2".to_string(),
        arch: Architecture::X86_64,
        base_checksum: String::new(),
        target_checksum: String::new(),
        removed_paths: Vec::new(),
    };
    assert!(matches!(finish_staged_delta(Some(d), None, true, "o".to_string()), Err(DeltaError::MissingManifest)));
}

#[test]
fn removed_paths_stay_inside_the_output() {
    let targets = removal_targets("/tmp/out", &vec!["bin/old".to_string(), "./share//x".to_string()]).ok().unwrap();
    assert_eq!(targets, vec!["/tmp/out/bin/old".to_string(), "/tmp/out/share/x".to_string()]);
    assert!(matches!(removal_targets("/tmp/out", &vec!["../etc".to_string()]), Err(DeltaError::InvalidRemovedPath(_))));
}
