use parcel::actions::{action_removal, RemovalDecision};
use parcel::fspath::path_extension;
use parcel::models::{ActionType, InstalledPackage, ResolvedAction};
use parcel::repo::{artifact_kind, ArtifactKind};
use parcel::tree::{directory_checksum, sort_tree_entries, TreeEntry, TreeEntryKind};
use parcel::utils::hash::hash_blake2b;

fn entry(path: &str, kind: TreeEntryKind) -> TreeEntry {
    TreeEntry { path: path.to_string(), kind }
}

#[test]
fn tree_entries_are_ordered_component_by_component() {
    let sorted = sort_tree_entries(vec![
        entry("a-b", TreeEntryKind::Directory),
        entry("a/b", TreeEntryKind::Directory),
        entry("a", TreeEntryKind::Directory),
    ]);
    let paths: Vec<&str> = sorted.iter().map(|e| e.path.as_str()).collect();
    assert_eq!(paths, vec!["a", "a/b", "a-b"]);
}

#[test]
fn directory_checksum_reads_names_kinds_and_contents() {
    let checksum = directory_checksum(vec![
        entry("bin/example", TreeEntryKind::File(b"one".to_vec())),
        entry("bin", TreeEntryKind::Directory),
        entry("bin/link", TreeEntryKind::Symlink("example".to_string())),
    ]);
    assert_eq!(checksum, hash_blake2b(b"bindirbin/examplefileonebin/linksymlinkexample"));
    let changed = directory_checksum(vec![
        entry("bin", TreeEntryKind::Directory),
        entry("bin/example", TreeEntryKind::File(b"two".to_vec())),
        entry("bin/link", TreeEntryKind::Symlink("example".to_string())),
    ]);
    assert_ne!(checksum, changed);
}

#[test]
fn extensions_follow_path_rules() {
    assert_eq!(path_extension("/x/y.tar.zst").as_deref(), Some("zst"));
    assert_eq!(path_extension("/x/.json"), None);
    assert_eq!(path_extension("/x/foo.").as_deref(), Some(""));
    assert_eq!(path_extension("/x/noext"), None);
    assert_eq!(artifact_kind("/a/example-1.0.0-1-x86_64.parcel"), Some(ArtifactKind::Package));
    assert_eq!(artifact_kind("/a/example-1-2-x86_64.delta.parcel"), Some(ArtifactKind::Delta));
    assert_eq!(artifact_kind("/a/parcel-index.db"), None);
}

#[test]
fn only_links_that_still_point_into_the_package_are_removed() {
    let package = InstalledPackage {
        name: "example".to_string(),
        version: "1.0.0-1".to_string(),
        arch: "x86_64".to_string(),
        install_path: "/apps/example/1.0.0-1".to_string(),
        source_repo: "local".to_string(),
        installed_at: "2024-01-01T00:00:00Z".to_string(),
        actions: Vec::new(),
        files: Vec::new(),
    };
    let link = ResolvedAction {
        source: "bin/example".to_string(),
        target: "bin".to_string(),
        action_type: ActionType::Link,
        resolved_target: "/home/u/.local/bin/example".to_string(),
    };
    assert_eq!(action_removal(&package, &link, true, Some("/apps/example/1.0.0-1/bin/example")), RemovalDecision::Remove);
    assert_eq!(action_removal(&package, &link, true, Some("/elsewhere")), RemovalDecision::KeepRetargeted);
    assert_eq!(action_removal(&package, &link, true, None), RemovalDecision::KeepNotSymlink);
    assert_eq!(action_removal(&package, &link, false, None), RemovalDecision::Absent);
    let copy = ResolvedAction { action_type: ActionType::Copy, ..link };
    assert_eq!(action_removal(&package, &copy, true, None), RemovalDecision::Remove);
}
