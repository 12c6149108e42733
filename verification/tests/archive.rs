use parcel::archive::{finish_parcel_archive, parcel_member, path_to_unix, validate_relative_path, ArchiveError, ParcelMember, PathError};
use parcel::models::{Compression, Manifest};

#[test]
fn archive_paths_must_not_escape_install_root() {
    assert!(validate_relative_path("bin/example").is_ok());
    assert!(validate_relative_path("../example").is_err());
    assert!(validate_relative_path("/tmp/example").is_err());
}

#[test]
fn relative_path_errors_name_the_reason() {
    assert_eq!(validate_relative_path(""), Err(PathError::Empty));
    assert_eq!(validate_relative_path("/tmp/example"), Err(PathError::Absolute));
    assert_eq!(validate_relative_path("bin/../../x"), Err(PathError::EscapesRoot));
    assert!(validate_relative_path("./bin/example").is_ok());
}

#[test]
fn payload_paths_are_written_with_forward_slashes() {
    assert_eq!(path_to_unix("./bin//example").unwrap(), "bin/example");
    assert_eq!(path_to_unix("../x"), Err(PathError::NotRelative));
}

#[test]
fn package_members_are_recognised_as_paths() {
    assert_eq!(parcel_member("manifest.yml"), ParcelMember::Manifest);
    assert_eq!(parcel_member("data.tar.xz"), ParcelMember::Payload(Compression::Xz));
    assert_eq!(parcel_member("data.tar.zst/"), ParcelMember::Payload(Compression::Zstd));
    assert_eq!(parcel_member("other.txt"), ParcelMember::Other);
}

#[test]
fn package_archive_needs_manifest_and_payload() {
    let manifest = Manifest {
        name: "example".to_string(),
        version: "1.0.0-1".to_string(),
        arch: "x86_64".to_string(),
        description: String::new(),
        homepage: String::new(),
        actions: Vec::new(),
    };
    assert!(matches!(finish_parcel_archive(None, None), Err(ArchiveError::MissingManifest)));
    let parsed = finish_parcel_archive(Some(manifest), Some(("/tmp/data.tar.xz".to_string(), Compression::Xz))).ok().unwrap();
    assert_eq!(parsed.compression, Compression::Xz);
    assert_eq!(parsed.data_path, "/tmp/data.tar.xz");
}
