use parcel::paths::Paths;
use parcel::storage::{atomic_write, decode_zstd_json, encode_zstd_json, save_database, save_remotes, write_compressed_database,
    StorageError};

#[test]
fn stored_json_reads_back() {
    let json = b"{\"packages\":{}}".to_vec();
    let stored = encode_zstd_json(&json).unwrap();
    assert_ne!(stored, json);
    assert_eq!(decode_zstd_json(&stored).unwrap(), json);
}

#[test]
fn garbage_is_not_zstd() {
    assert_eq!(decode_zstd_json(&b"not zstd".to_vec()), Err(StorageError::Decompress));
}

#[test]
fn writes_go_through_a_temporary_file_in_the_same_directory() {
    let w = atomic_write("/var/lib/parcel/parcel.db", vec![1, 2, 3], 42).unwrap();
    assert_eq!(w.dir, "/var/lib/parcel");
    assert_eq!(w.temp_path, "/var/lib/parcel/.parcel.db.tmp-42");
    assert_eq!(w.path, "/var/lib/parcel/parcel.db");
    assert_eq!(w.bytes, vec![1, 2, 3]);
    assert!(matches!(atomic_write("/", Vec::new(), 1), Err(StorageError::NoParent)));
    assert!(matches!(atomic_write("/var/..", Vec::new(), 1), Err(StorageError::NoFileName)));
}

#[test]
fn database_and_remotes_have_their_own_files() {
    let paths = Paths::from_home("/home/u".to_string());
    let w = save_database(&paths, &b"{}".to_vec(), 7).unwrap();
    assert_eq!(w.path, "/home/u/.local/share/parcel/parcel.db");
    assert_eq!(w.temp_path, "/home/u/.local/share/parcel/.parcel.db.tmp-7");
    assert_eq!(decode_zstd_json(&w.bytes).unwrap(), b"{}".to_vec());
    let r = save_remotes(&paths, b"{\"remotes\":{}}".to_vec(), 7).unwrap();
    assert_eq!(r.path, "/home/u/.local/share/parcel/remotes.json");
    assert_eq!(r.bytes, b"{\"remotes\":{}}".to_vec());
}

#[test]
fn compressed_database_is_written_as_given() {
    let paths = Paths::from_home("/home/u".to_string());
    let w = write_compressed_database(&paths, vec![9, 8, 7], 3).unwrap();
    assert_eq!(w.path, "/home/u/.local/share/parcel/parcel.db");
    assert_eq!(w.dir, "/home/u/.local/share/parcel");
    assert_eq!(w.temp_path, "/home/u/.local/share/parcel/.parcel.db.tmp-3");
    assert_eq!(w.bytes, vec![9, 8, 7]);
}

#[test]
fn database_paths_without_a_file_name_are_refused() {
    let mut paths = Paths::from_home("/home/u".to_string());
    paths.database = "/".to_string();
    assert!(matches!(save_database(&paths, &b"{}".to_vec(), 1), Err(StorageError::NoParent)));
    paths.database = "/var/..".to_string();
    assert!(matches!(save_database(&paths, &b"{}".to_vec(), 1), Err(StorageError::NoFileName)));
    assert!(encode_zstd_json(&Vec::new()).is_ok());
}
