use parcel::delta::DeltaManifest;
use parcel::install::{artifact_download_path, check_applied_delta, delta_step, ensure_indexes_exist, single_full_step, step_dir, DeltaProgress, UpgradeError};
use parcel::layout::Layout;
use parcel::receipt::{InstallSource, Receipt};
use parcel::resolver::{ResolvedDeltaArtifact, ResolvedPackageArtifact, UpgradePlan, UpgradeStep};
use parcel::utils::arch::Architecture;

fn layout() -> Layout {
    Layout {
        data_home: "/home/u/.local/share".to_string(),
        state_home: "/home/u/.local/state".to_string(),
        cache_home: "/home/u/.cache".to_string(),
        config_home: "/home/u/.config".to_string(),
    }
}

fn receipt(checksum: Option<&str>) -> Receipt {
    Receipt {
        name: "example".to_string(),
        version: "1.0.0-1".to_string(),
        arch: "x86_64".to_string(),
        source: InstallSource::LocalFile { path: "/tmp/example.parcel".to_string() },
        package_checksum: checksum.map(|c| c.to_string()),
        installed_at: "2024-01-01T00:00:00Z".to_string(),
        install_dir: "/d".to_string(),
        opt_link: "/o".to_string(),
        exposed_paths: Vec::new(),
    }
}

fn delta(from: &str, to: &str) -> ResolvedDeltaArtifact {
    ResolvedDeltaArtifact {
        from_version: from.to_string(),
        to_version: to.to_string(),
        checksum: "c".to_string(),
        size: 1,
        url: format!("https://r/example-{from}-{to}-x86_64.delta.parcel"),
        repo_name: "main".to_string(),
    }
}

fn applied(from: &str, base: &str, target: &str) -> DeltaManifest {
    DeltaManifest {
        name: "example".to_string(),
        from_version: from.to_string(),
        to_version: "x".to_string(),
        arch: Architecture::X86_64,
        base_checksum: base.to_string(),
        target_checksum: target.to_string(),
        removed_paths: Vec::new(),
    }
}

#[test]
fn downloads_go_to_the_cache_under_the_url_file_name() {
    assert_eq!(
        artifact_download_path(&layout(), "https://r/example-1.0.0-1-x86_64.parcel"),
        "/home/u/.cache/parcel/downloads/example-1.0.0-1-x86_64.parcel"
    );
    assert_eq!(artifact_download_path(&layout(), "/"), "/home/u/.cache/parcel/downloads/artifact");
}

#[test]
fn plan_with_one_full_step_is_installed_directly() {
    let full = ResolvedPackageArtifact {
        version: "1.1.0-1".to_string(),
        checksum: "c".to_string(),
        size: 5,
        url: "u".to_string(),
        repo_name: "main".to_string(),
    };
    let plan = UpgradePlan { target_version: "1.1.0-1".to_string(), steps: vec![UpgradeStep::Full(full)], total_size: 5 };
    assert_eq!(single_full_step(&plan).unwrap().version, "1.1.0-1");
    let deltas = UpgradePlan {
        target_version: "1.2.0-1".to_string(),
        steps: vec![UpgradeStep::Delta(delta("1.0.0-1", "1.1.0-1"))],
        total_size: 1,
    };
    assert!(single_full_step(&deltas).is_none());
    assert_eq!(delta_step(&deltas, 0).ok().unwrap().to_version, "1.1.0-1");
}

#[test]
fn mixed_plans_are_refused() {
    let full = ResolvedPackageArtifact {
        version: "1.2.0-1".to_string(),
        checksum: "c".to_string(),
        size: 5,
        url: "u".to_string(),
        repo_name: "main".to_string(),
    };
    let plan = UpgradePlan {
        target_version: "1.2.0-1".to_string(),
        steps: vec![UpgradeStep::Delta(delta("1.0.0-1", "1.1.0-1")), UpgradeStep::Full(full)],
        total_size: 6,
    };
    assert!(matches!(delta_step(&plan, 1), Err(UpgradeError::MixedPlan)));
}

#[test]
fn applied_deltas_must_match_plan_and_install() {
    let r = receipt(Some("base"));
    let d = delta("1.0.0-1", "1.1.0-1");
    assert!(check_applied_delta(&r, 0, &d, &applied("1.0.0-1", "base", "t")).is_ok());
    match check_applied_delta(&r, 0, &d, &applied("0.9.0-1", "base", "t")) {
        Err(UpgradeError::FromVersionMismatch { expected, found }) => {
            assert_eq!(expected, "1.0.0-1");
            assert_eq!(found, "0.9.0-1");
        },
        _ => panic!("expected a version mismatch"),
    }
    assert!(matches!(check_applied_delta(&r, 0, &d, &applied("1.0.0-1", "other", "t")), Err(UpgradeError::BaseChecksumMismatch)));
    assert!(check_applied_delta(&r, 1, &d, &applied("1.0.0-1", "other", "t")).is_ok());
    let later = delta("1.1.0-1", "1.2.0-1");
    assert!(check_applied_delta(&r, 1, &later, &applied("1.1.0-1", "x", "t")).is_ok());
    assert!(matches!(
        check_applied_delta(&r, 0, &later, &applied("1.1.0-1", "base", "t")),
        Err(UpgradeError::BaseVersionMismatch { .. })
    ));
    assert!(check_applied_delta(&receipt(None), 0, &d, &applied("1.0.0-1", "any", "t")).is_ok());
}

#[test]
fn delta_steps_unpack_into_numbered_directories() {
    assert_eq!(step_dir("/tmp/upgrade", 0, "1.1.0-1"), "/tmp/upgrade/0-1.1.0-1");
    assert_eq!(step_dir("/tmp/upgrade", 12, "2"), "/tmp/upgrade/12-2");
}

#[test]
fn delta_progress_ends_with_the_last_delta() {
    let r = receipt(Some("base"));
    let empty = DeltaProgress::start(&r);
    assert!(matches!(empty.finish(), Err(UpgradeError::NoManifest)));
    let mut p = DeltaProgress::start(&r);
    p.record(&delta("1.0.0-1", "1.1.0-1"), &applied("1.0.0-1", "base", "mid"));
    p.record(&delta("1.1.0-1", "1.2.0-1"), &applied("1.1.0-1", "mid", "end"));
    assert_eq!(p.steps_applied, 2);
    let (checksum, repo, url) = p.finish().ok().unwrap();
    assert_eq!(checksum.as_deref(), Some("end"));
    assert_eq!(repo, "main");
    assert_eq!(url, "https://r/example-1.1.0-1-1.2.0-1-x86_64.delta.parcel");
}

#[test]
fn installing_from_repositories_needs_a_cached_index() {
    assert!(ensure_indexes_exist(&Vec::new()).is_err());
}
