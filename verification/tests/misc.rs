use parcel::artifact::{finish_staged_package, normalize_archive_path, validate_manifest_arch, package_file_name, package_member, payload_entry, PackageMember, PayloadEntry, PayloadError, StageError};
use parcel::keyed::{keyed_contains, keyed_get, keyed_insert, keyed_remove};
use parcel::layout::{path_file_name, Layout};
use parcel::parcel_manifest::{InstallTarget, PackageManifest};
use parcel::paths::Paths;
use parcel::receipt::sort_by_name;
use parcel::repo::RepoConfig;
use parcel::text::decimal_chars;
use parcel::utils::arch::{get_architecture, Architecture};
use parcel::utils::hash::{hash_blake2b, verify_blake2b};

#[test]
fn blake2b_checksums_are_lowercase_hex() {
    assert_eq!(
        hash_blake2b(b"abc"),
        "ba80a53f981c4d0d6a2797b69f12f6e94c212f14685ac4b74b12bb6fdbffa2d17d87c5392aab792dc252d5de4533cc9518d38aa8dbf1925ab92386edd4009923"
    );
    assert_eq!(
        hash_blake2b(b""),
        "786a02f742015903c6c6fd852552d272912f4740e15847618a86e217f71f5419d25e1031afee585313896444934eb04b903a685b1448b755d56f701afe9be2ce"
    );
}

#[test]
fn checksum_verification_ignores_case() {
    let upper = hash_blake2b(b"abc").to_uppercase();
    assert!(verify_blake2b(b"abc", &upper).is_ok());
    let err = verify_blake2b(b"abd", &upper).unwrap_err();
    assert_eq!(err.expected, upper);
    assert_eq!(err.actual, hash_blake2b(b"abd"));
}

#[test]
fn package_archives_are_named_by_name_version_and_arch() {
    assert_eq!(package_file_name("example", "1.0.0-1", Architecture::X86_64), "example-1.0.0-1-x86_64.parcel");
    assert_eq!(Architecture::AARCH64.to_string(), "aarch64");
    assert_eq!(get_architecture("x86_64"), Some(Architecture::X86_64));
    assert_eq!(get_architecture("aarch64"), Some(Architecture::AARCH64));
    assert_eq!(get_architecture("riscv64"), None);
}

#[test]
fn archive_paths_are_normalized() {
    assert_eq!(normalize_archive_path("./bin/./example").unwrap(), "bin/example");
    assert_eq!(normalize_archive_path(".").unwrap(), "");
    assert!(normalize_archive_path("/etc/passwd").is_err());
    assert!(normalize_archive_path("bin/../..").is_err());
}

#[test]
fn normalized_archive_paths_stay_normalized() {
    for path in ["./bin/./example", "share//icons/x.png/", ".", "a/b/c"] {
        let once = normalize_archive_path(path).unwrap();
        assert_eq!(normalize_archive_path(&once).unwrap(), once);
    }
}

#[test]
fn manifests_for_other_architectures_are_refused() {
    let manifest = PackageManifest {
        name: "example".to_string(),
        version: "1.0.0-1".to_string(),
        arch: Architecture::AARCH64,
        description: "Example".to_string(),
        homepage: None,
        actions: Vec::new(),
    };
    assert!(validate_manifest_arch(&manifest, Architecture::AARCH64).is_ok());
    let e = validate_manifest_arch(&manifest, Architecture::X86_64).unwrap_err();
    assert_eq!(e.name, "example");
    assert_eq!(e.version, "1.0.0-1");
    assert_eq!(e.package, Architecture::AARCH64);
    assert_eq!(e.host, Architecture::X86_64);
}

#[test]
fn checksums_have_128_hex_digits() {
    let sum = hash_blake2b(b"payload");
    assert_eq!(sum.len(), 128);
    assert!(verify_blake2b(b"payload", &sum.to_ascii_uppercase()).is_ok());
    assert!(verify_blake2b(b"payload", "").is_err());
}

#[test]
fn payload_entries_are_checked_before_unpacking() {
    assert!(matches!(payload_entry("./", false), Ok(PayloadEntry::Skip)));
    assert!(matches!(payload_entry("bin/example", false), Ok(PayloadEntry::Unpack(p)) if p == "bin/example"));
    assert_eq!(payload_entry("bin/link", true).err(), Some(PayloadError::HardLink));
    assert!(matches!(payload_entry("../x", false), Err(PayloadError::BadPath(_))));
    assert_eq!(package_member("data.tar.zst"), PackageMember::Payload);
    assert!(matches!(finish_staged_package(None, true, "p".to_string()), Err(StageError::MissingManifest)));
}

#[test]
fn layout_places_state_under_xdg_directories() {
    let l = Layout {
        data_home: "/home/u/.local/share".to_string(),
        state_home: "/home/u/.local/state".to_string(),
        cache_home: "/home/u/.cache".to_string(),
        config_home: "/home/u/.config".to_string(),
    };
    assert_eq!(l.repo_config_path("main"), "/home/u/.config/parcel/repos.d/main.toml");
    assert_eq!(l.index_cache_path("main"), "/home/u/.cache/parcel/indexes/main.parcel-index.db");
    assert_eq!(l.receipt_path("example"), "/home/u/.local/state/parcel/receipts/example.json");
    assert_eq!(l.version_install_dir("example", "1.0.0-1"), "/home/u/.local/share/parcel/cellar/example/1.0.0-1");
    assert_eq!(l.target_dir("bin"), "/home/u/.local/bin");
    assert_eq!(l.target_dir(InstallTarget::Desktop.as_str()), "/home/u/.local/share/applications");
    assert_eq!(l.target_dir("fonts"), "/home/u/.local/share/parcel/fonts");
    assert_eq!(path_file_name("/a/b.parcel"), "b.parcel");
}

#[test]
fn paths_live_under_home() {
    let p = Paths::from_home("/home/u".to_string());
    assert_eq!(p.database, "/home/u/.local/share/parcel/parcel.db");
    assert_eq!(p.local_bin(), "/home/u/.local/bin");
    assert_eq!(p.icons(), "/home/u/.local/share/icons");
}

#[test]
fn keyed_lists_behave_as_ordered_maps() {
    let mut m: Vec<(String, u32)> = Vec::new();
    assert_eq!(keyed_insert(&mut m, "b".to_string(), 2), None);
    assert_eq!(keyed_insert(&mut m, "a".to_string(), 1), None);
    assert_eq!(keyed_insert(&mut m, "b".to_string(), 3), Some(2));
    assert_eq!(m, vec![("a".to_string(), 1), ("b".to_string(), 3)]);
    assert_eq!(keyed_get(&m, "b"), Some(&3));
    assert!(keyed_contains(&m, "a"));
    assert_eq!(keyed_remove(&mut m, "a"), Some(1));
    assert!(!keyed_contains(&m, "a"));
    assert_eq!(keyed_remove(&mut m, "a"), None);
}

#[test]
fn configs_are_sorted_by_name_stably() {
    let configs = vec![
        RepoConfig { name: "zeta".to_string(), url: "1".to_string() },
        RepoConfig { name: "alpha".to_string(), url: "2".to_string() },
        RepoConfig { name: "alpha".to_string(), url: "3".to_string() },
    ];
    let sorted = sort_by_name(configs);
    let names: Vec<(&str, &str)> = sorted.iter().map(|c| (c.name.as_str(), c.url.as_str())).collect();
    assert_eq!(names, vec![("alpha", "2"), ("alpha", "3"), ("zeta", "1")]);
}

#[test]
fn decimal_digits() {
    let d: String = decimal_chars(1203).into_iter().collect();
    assert_eq!(d, "1203");
    let z: String = decimal_chars(0).into_iter().collect();
    assert_eq!(z, "0");
}
