use parcel::delta::DeltaManifest;
use parcel::parcel_manifest::PackageManifest;
use parcel::repo::{
    add_delta_artifact, add_package_artifact, load_cached_repos, new_repo_index, normalize_repo_url, parse_repo_config, repo_url_probe_path,
    render_delta_download_url, render_download_url, repo_config_text, search_packages, trim_quoted, ArtifactRecord,
    CachedRepo, RepoConfig, RepoConfigError,
};
use parcel::utils::arch::Architecture;

fn manifest(version: &str) -> PackageManifest {
    PackageManifest {
        name: "example".to_string(),
        version: version.to_string(),
        arch: Architecture::X86_64,
        description: "Example package".to_string(),
        homepage: Some("https://example.com".to_string()),
        actions: Vec::new(),
    }
}

#[test]
fn download_templates_are_filled_in() {
    assert_eq!(
        render_download_url("https://r/{name}-{version}-{arch}.parcel", "example", "1.0.0-1", Architecture::AARCH64),
        "https://r/example-1.0.0-1-aarch64.parcel"
    );
    assert_eq!(
        render_delta_download_url(
            "https://r/{name}-{from_version}-{to_version}-{arch}.delta.parcel",
            "example",
            "1.0.0-1",
            "1.1.0-1",
            Architecture::X86_64,
        ),
        "https://r/example-1.0.0-1-1.1.0-1-x86_64.delta.parcel"
    );
}

#[test]
fn repository_urls_point_at_the_index() {
    assert_eq!(normalize_repo_url("https://r/parcel-index.db", false), "https://r/parcel-index.db");
    assert_eq!(
        normalize_repo_url("https://github.com/owner/repo/", false),
        "https://github.com/owner/repo/releases/download/parcel-index/parcel-index.db"
    );
    assert_eq!(normalize_repo_url("file:///srv/repo", true), "file:///srv/repo/parcel-index.db");
    assert_eq!(normalize_repo_url("file:///srv/index.json", false), "file:///srv/index.json");
    assert_eq!(normalize_repo_url("/srv/repo", true), "/srv/repo/parcel-index.db");
    assert_eq!(normalize_repo_url("https://r/packages/", false), "https://r/packages/parcel-index.db");
    assert_eq!(normalize_repo_url("https://r/index", false), "https://r/index");
}

#[test]
fn repository_urls_normalize_once() {
    for (raw, is_dir) in [
        ("https://github.com/owner/repo/", false),
        ("file:///srv/repo", true),
        ("/srv/repo", true),
        ("https://r/packages/", false),
        ("https://r/index", false),
    ] {
        let once = normalize_repo_url(raw, is_dir);
        let again_dir = repo_url_probe_path(&once) == repo_url_probe_path(raw) && is_dir;
        assert_eq!(normalize_repo_url(&once, again_dir), once);
    }
}

#[test]
fn repository_config_round_trips() {
    let config = RepoConfig { name: "main".to_string(), url: "https://example.com/repo".to_string() };
    let text = repo_config_text(&config);
    assert_eq!(text, "name = \"main\"\nurl = \"https://example.com/repo\"\n");
    let parsed = parse_repo_config(&text).ok().unwrap();
    assert_eq!(parsed.name, "main");
    assert_eq!(parsed.url, "https://example.com/repo");
}

#[test]
fn repository_config_skips_comments_and_needs_both_fields() {
    let parsed = parse_repo_config("# mirror\n\n  name = \"m\"  \r\nurl = x\n").ok().unwrap();
    assert_eq!(parsed.name, "m");
    assert_eq!(parsed.url, "x");
    assert!(matches!(parse_repo_config("url = \"x\"\n"), Err(RepoConfigError::MissingName)));
    assert!(matches!(parse_repo_config("name = \"m\""), Err(RepoConfigError::MissingUrl)));
    assert_eq!(trim_quoted("  \"value\" "), "value");
}

#[test]
fn built_index_serves_packages_by_file_name() {
    let mut index = new_repo_index("file:///srv/artifacts/", "2024-01-01T00:00:00+00:00".to_string());
    assert_eq!(index.schema, "parcel.v1");
    assert_eq!(index.download_template, "file:///srv/artifacts/{name}-{version}-{arch}.parcel");
    add_package_artifact(&mut index, &manifest("1.0.0-1"), ArtifactRecord { checksum: "a".to_string(), size: 10 });
    add_package_artifact(&mut index, &manifest("1.1.0-1"), ArtifactRecord { checksum: "b".to_string(), size: 11 });
    let delta = DeltaManifest {
        name: "example".to_string(),
        from_version: "1.0.0-1".to_string(),
        to_version: "1.1.0-1".to_string(),
        arch: Architecture::X86_64,
        base_checksum: "a".to_string(),
        target_checksum: "b".to_string(),
        removed_paths: Vec::new(),
    };
    add_delta_artifact(&mut index, &delta, &manifest("1.1.0-1"), ArtifactRecord { checksum: "d".to_string(), size: 2 });
    assert_eq!(index.packages.len(), 1);
    let package = &index.packages[0].1;
    assert_eq!(package.architectures.len(), 1);
    let data = &package.architectures[0].1;
    assert_eq!(data.versions.len(), 2);
    assert_eq!(data.versions[1].0, "1.1.0-1");
    assert_eq!(data.deltas[0].0, "1.0.0-1->1.1.0-1");
    assert_eq!(
        render_download_url(&index.download_template, "example", "1.1.0-1", Architecture::X86_64),
        "file:///srv/artifacts/example-1.1.0-1-x86_64.parcel"
    );
    assert_eq!(
        render_delta_download_url(
            index.delta_download_template.as_deref().unwrap(),
            "example",
            "1.0.0-1",
            "1.1.0-1",
            Architecture::X86_64,
        ),
        "file:///srv/artifacts/example-1.0.0-1-1.1.0-1-x86_64.delta.parcel"
    );
}

#[test]
fn search_matches_name_or_description_ignoring_case() {
    let mut index = new_repo_index("https://r", "t".to_string());
    add_package_artifact(&mut index, &manifest("1.0.0-1"), ArtifactRecord { checksum: "a".to_string(), size: 1 });
    add_package_artifact(&mut index, &manifest("1.2.0-1"), ArtifactRecord { checksum: "b".to_string(), size: 1 });
    let repos = load_cached_repos(
        vec![RepoConfig { name: "main".to_string(), url: "u".to_string() }, RepoConfig { name: "gone".to_string(), url: "v".to_string() }],
        vec![Some(index), None],
    );
    assert_eq!(repos.len(), 1);
    let hits = search_packages(&repos, "EXAMPLE pack", Architecture::X86_64);
    assert_eq!(hits.len(), 1);
    assert_eq!(hits[0].name, "example");
    assert_eq!(hits[0].latest, "1.2.0-1");
    assert_eq!(hits[0].repo, "main");
    assert!(search_packages(&repos, "nothing", Architecture::X86_64).is_empty());
    let _unused: Vec<CachedRepo> = Vec::new();
}
