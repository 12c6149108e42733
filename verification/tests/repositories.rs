use parcel::models::{IndexPackage, RemoteConfig, RepositoryIndex};
use parcel::paths::Paths;
use parcel::repositories::{
    download_candidate, expand_download_template, find_latest_candidate, normalize_remote_index_url, package_matches,
    remote_command, remote_index_path, search_indexes, validate_remote_name, RemoteCommand, RemoteError, RemoteNameError,
    RemoteOutcome,
};
use parcel::utils::hash::hash_blake2b;
use parcel::version::is_newer;

fn index(name: &str, versions: &[&str], homepage: Option<&str>) -> RepositoryIndex {
    RepositoryIndex {
        download_template: "https://dl/{name}/{version}/{arch}".to_string(),
        _delta_template: None,
        packages: vec![(
            name.to_string(),
            IndexPackage {
                description: "A Useful Tool".to_string(),
                homepage: homepage.map(|h| h.to_string()),
                versions: versions.iter().map(|v| (v.to_string(), hash_blake2b(v.as_bytes()))).collect(),
                _delta: Vec::new(),
            },
        )],
    }
}

#[test]
fn remote_index_urls() {
    assert_eq!(normalize_remote_index_url("https://r/parcel-index.db/"), "https://r/parcel-index.db");
    assert_eq!(
        normalize_remote_index_url("https://github.com/o/r"),
        "https://github.com/o/r/releases/download/parcel-index/parcel-index.db"
    );
    assert_eq!(normalize_remote_index_url("https://r/x//"), "https://r/x//");
    assert_eq!(normalize_remote_index_url("https://example.com/repo/"), "https://example.com/repo/");
}

#[test]
fn remote_names_are_plain_ascii() {
    assert_eq!(validate_remote_name("main-1_b"), Ok(()));
    assert_eq!(validate_remote_name(""), Err(RemoteNameError::Empty));
    assert_eq!(validate_remote_name("a/b"), Err(RemoteNameError::InvalidCharacter));
    let paths = Paths::from_home("/h".to_string());
    assert_eq!(remote_index_path(&paths, "main").unwrap(), "/h/.local/share/parcel/indexes/main.db");
}

#[test]
fn templates_and_matching() {
    assert_eq!(expand_download_template("https://dl/{name}/{version}/{arch}", "e", "1", "x86_64"), "https://dl/e/1/x86_64");
    let idx = index("tool", &["1.0.0-1"], Some("https://Tool.example"));
    let (name, package) = &idx.packages[0];
    assert!(package_matches(name, package, "useful"));
    assert!(package_matches(name, package, "tool.example"));
    assert!(!package_matches(name, package, "missing"));
}

#[test]
fn latest_candidate_across_remotes() {
    let indexes = vec![
        ("a".to_string(), index("tool", &["1.0.0-1", "1.2.0-1"], None)),
        ("b".to_string(), index("tool", &["1.1.0-1"], None)),
        ("c".to_string(), index("tool", &["1.2.0-1"], None)),
    ];
    let c = find_latest_candidate(&indexes, "tool", "x86_64").unwrap();
    assert_eq!(c.remote_name, "a");
    assert_eq!(c.version, "1.2.0-1");
    assert_eq!(c.download_url, "https://dl/tool/1.2.0-1/x86_64");
    assert_eq!(c.checksum, hash_blake2b(b"1.2.0-1"));
    assert!(find_latest_candidate(&indexes, "none", "x86_64").is_none());
    assert!(download_candidate(&c, b"1.2.0-1".to_vec()).is_ok());
    assert!(download_candidate(&c, b"tampered".to_vec()).is_err());
}

#[test]
fn latest_candidate_is_greatest_over_all_remotes() {
    let indexes = vec![
        ("a".to_string(), index("tool", &["1.0.0-1", "1.9.0-1"], None)),
        ("b".to_string(), index("tool", &["1.10.0-1", "1.10.0-alpha-3"], None)),
        ("c".to_string(), index("tool", &["1.2.0-4"], None)),
    ];
    let c = find_latest_candidate(&indexes, "tool", "x86_64").unwrap();
    assert_eq!(c.remote_name, "b");
    assert_eq!(c.version, "1.10.0-1");
    for v in ["1.9.0-1", "1.0.0-1", "1.10.0-alpha-3", "1.2.0-4"] {
        assert!(!is_newer(v, &c.version));
    }
}

#[test]
fn search_over_remote_indexes() {
    assert!(search_indexes(&Vec::new(), "x").is_err());
    let indexes = vec![("a".to_string(), index("tool", &["1.0.0-1"], None)), ("b".to_string(), index("other", &[], None))];
    let hits = search_indexes(&indexes, "USEFUL").ok().unwrap();
    assert_eq!(hits.len(), 2);
    assert_eq!(hits[0].remote, "a");
    assert_eq!(hits[0].latest, "1.0.0-1");
    assert_eq!(hits[1].package, "other");
    assert_eq!(hits[1].latest, "unknown");
}

#[test]
fn remote_commands_edit_the_configuration() {
    let mut config = RemoteConfig { remotes: Vec::new() };
    let add = RemoteCommand::Add { name: "main".to_string(), url: "https://github.com/o/r/".to_string() };
    assert!(matches!(remote_command(&mut config, add), Ok(RemoteOutcome::Added)));
    assert_eq!(config.remotes[0].1.index_url, "https://github.com/o/r/releases/download/parcel-index/parcel-index.db");
    let again = RemoteCommand::Add { name: "main".to_string(), url: "x".to_string() };
    assert!(matches!(remote_command(&mut config, again), Err(RemoteError::AlreadyExists)));
    assert!(matches!(remote_command(&mut config, RemoteCommand::List), Ok(RemoteOutcome::Listed)));
    match remote_command(&mut config, RemoteCommand::Remove { name: "main".to_string() }) {
        Ok(RemoteOutcome::Removed(r)) => assert_eq!(r.url, "https://github.com/o/r/"),
        _ => panic!("expected the remote to be removed"),
    }
    assert!(matches!(remote_command(&mut config, RemoteCommand::Remove { name: "main".to_string() }), Err(RemoteError::NotFound)));
}
