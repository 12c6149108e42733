use parcel::repo::{ArtifactRecord, CachedRepo, RepoArchitecture, RepoConfig, RepoIndex, RepoPackage};
use parcel::resolver::{compare_versions, latest_version, resolve_install_target, resolve_package, resolve_upgrade_plan, ResolveError, UpgradeStep};
use parcel::utils::arch::Architecture;
use std::cmp::Ordering;

fn record(checksum: &str, size: u64) -> ArtifactRecord {
    ArtifactRecord { checksum: checksum.to_string(), size }
}

fn repo(name: &str, versions: Vec<(&str, u64)>, deltas: Vec<(&str, u64)>) -> CachedRepo {
    let arch = RepoArchitecture {
        versions: versions.into_iter().map(|(v, s)| (v.to_string(), record(&format!("sum-{v}"), s))).collect(),
        deltas: deltas.into_iter().map(|(k, s)| (k.to_string(), record(&format!("delta-{k}"), s))).collect(),
    };
    CachedRepo {
        config: RepoConfig { name: name.to_string(), url: format!("file:///srv/{name}") },
        index: RepoIndex {
            schema: "parcel.v1".to_string(),
            generated_at: "2024-01-01T00:00:00+00:00".to_string(),
            download_template: "https://example.com/{name}-{version}-{arch}.parcel".to_string(),
            delta_download_template: Some(
                "https://example.com/{name}-{from_version}-{to_version}-{arch}.delta.parcel".to_string(),
            ),
            packages: vec![(
                "example".to_string(),
                RepoPackage {
                    description: "Example package".to_string(),
                    homepage: Some("https://example.com".to_string()),
                    architectures: vec![(Architecture::X86_64, arch)],
                },
            )],
        },
    }
}

#[test]
fn versions_compare_as_semver_then_by_release() {
    assert_eq!(compare_versions("1.10.0-1", "1.9.0-1"), Ordering::Greater);
    assert_eq!(compare_versions("1.0.0-alpha01-1", "1.0.0-1"), Ordering::Less);
    assert_eq!(compare_versions("1.0.0-1", "1.0.0-alpha01-1"), Ordering::Greater);
    assert_eq!(compare_versions("nightly", "1.0.0-1"), Ordering::Greater);
    assert_eq!(compare_versions("1.0.0-2", "1.0.0-10"), Ordering::Less);
    assert_eq!(compare_versions("1.0.0-1", "1.0.0-1"), Ordering::Equal);
    assert_eq!(compare_versions("1.0-1", "1.0.0-1"), Ordering::Less);
}

#[test]
fn latest_version_takes_the_greatest() {
    let versions = vec!["1.0.0-1".to_string(), "1.2.0-1".to_string(), "1.1.0-1".to_string()];
    assert_eq!(latest_version(&versions).as_deref(), Some("1.2.0-1"));
}

#[test]
fn resolve_package_prefers_the_repository_with_the_newest_version() {
    let repos = vec![repo("old", vec![("1.0.0-1", 10)], vec![]), repo("new", vec![("1.1.0-1", 10)], vec![])];
    let selection = resolve_package(repos, "example", Architecture::X86_64).unwrap();
    assert_eq!(selection.repo.config.name, "new");
    assert!(resolve_package(Vec::new(), "example", Architecture::X86_64).is_none());
}

#[test]
fn install_target_is_the_latest_full_package() {
    let repos = vec![repo("main", vec![("1.0.0-1", 10), ("1.1.0-1", 12)], vec![])];
    let artifact = resolve_install_target(repos, "example", None, Architecture::X86_64).ok().unwrap().unwrap();
    assert_eq!(artifact.version, "1.1.0-1");
    assert_eq!(artifact.url, "https://example.com/example-1.1.0-1-x86_64.parcel");
    assert_eq!(artifact.checksum, "sum-1.1.0-1");
    assert_eq!(artifact.size, 12);
    assert_eq!(artifact.repo_name, "main");
}

#[test]
fn install_target_refuses_unknown_versions() {
    let repos = vec![repo("main", vec![("1.0.0-1", 10)], vec![])];
    assert!(matches!(
        resolve_install_target(repos, "example", Some("9.9.9-1"), Architecture::X86_64),
        Err(ResolveError::VersionNotFound)
    ));
    let repos = vec![repo("main", vec![("1.0.0-1", 10)], vec![])];
    assert!(matches!(resolve_install_target(repos, "missing", None, Architecture::X86_64), Ok(None)));
}

#[test]
fn upgrade_plan_uses_a_cheaper_delta_chain() {
    let repos = vec![repo(
        "main",
        vec![("1.0.0-1", 100), ("1.1.0-1", 100), ("1.2.0-1", 100)],
        vec![("1.0.0-1->1.1.0-1", 10), ("1.1.0-1->1.2.0-1", 20)],
    )];
    let plan = resolve_upgrade_plan(repos, "example", "1.0.0-1", Architecture::X86_64).ok().unwrap().unwrap();
    assert_eq!(plan.target_version, "1.2.0-1");
    assert_eq!(plan.total_size, 30);
    assert_eq!(plan.steps.len(), 2);
    match &plan.steps[1] {
        UpgradeStep::Delta(d) => {
            assert_eq!(d.from_version, "1.1.0-1");
            assert_eq!(d.to_version, "1.2.0-1");
            assert_eq!(d.url, "https://example.com/example-1.1.0-1-1.2.0-1-x86_64.delta.parcel");
        },
        UpgradeStep::Full(_) => panic!("expected a delta step"),
    }
}

#[test]
fn equally_cheap_chains_go_to_the_first_delta() {
    let repos = vec![repo(
        "main",
        vec![("1.0.0-1", 100), ("1.1.0-1", 100), ("1.2.0-1", 100)],
        vec![("1.0.0-1->1.2.0-1", 30), ("1.0.0-1->1.1.0-1", 10), ("1.1.0-1->1.2.0-1", 20)],
    )];
    let plan = resolve_upgrade_plan(repos, "example", "1.0.0-1", Architecture::X86_64).ok().unwrap().unwrap();
    assert_eq!(plan.total_size, 30);
    assert_eq!(plan.steps.len(), 1);
    match &plan.steps[0] {
        UpgradeStep::Delta(d) => assert_eq!(d.to_version, "1.2.0-1"),
        UpgradeStep::Full(_) => panic!("expected a delta step"),
    }
}

#[test]
fn latest_version_is_greatest_among_well_formed_versions() {
    let versions: Vec<String> =
        ["1.2.0-1", "1.10.0-1", "1.0.0-alpha01-1", "1.10.0-2", "1.9.0-7"].iter().map(|v| v.to_string()).collect();
    let latest = latest_version(&versions).unwrap();
    assert_eq!(latest, "1.10.0-2");
    for v in &versions {
        assert_ne!(compare_versions(v, &latest), Ordering::Greater);
    }
}

#[test]
fn upgrade_plan_falls_back_to_the_full_package() {
    let repos = vec![repo(
        "main",
        vec![("1.0.0-1", 100), ("1.2.0-1", 50)],
        vec![("1.0.0-1->1.2.0-1", 60)],
    )];
    let plan = resolve_upgrade_plan(repos, "example", "1.0.0-1", Architecture::X86_64).ok().unwrap().unwrap();
    assert_eq!(plan.total_size, 50);
    assert!(matches!(&plan.steps[0], UpgradeStep::Full(a) if a.version == "1.2.0-1"));
}

#[test]
fn no_upgrade_when_current_is_latest() {
    let repos = vec![repo("main", vec![("1.0.0-1", 100)], vec![])];
    assert!(matches!(resolve_upgrade_plan(repos, "example", "1.0.0-1", Architecture::X86_64), Ok(None)));
}
