use parcel::installer::{
    ensure_exposures_free, ensure_exposures_owned, exposed_destination, exposure_plan, new_receipt, opt_temp_link,
    should_remove_exposure, validate_actions, InstallError,
};
use parcel::layout::Layout;
use parcel::parcel_manifest::{InstallAction, InstallActionKind, InstallTarget, PackageManifest};
use parcel::receipt::{ExposedPath, ExposureKind, InstallSource, Receipt};
use parcel::utils::arch::Architecture;

fn layout() -> Layout {
    Layout {
        data_home: "/home/u/.local/share".to_string(),
        state_home: "/home/u/.local/state".to_string(),
        cache_home: "/home/u/.cache".to_string(),
        config_home: "/home/u/.config".to_string(),
    }
}

fn manifest(actions: Vec<InstallAction>) -> PackageManifest {
    PackageManifest {
        name: "example".to_string(),
        version: "1.0.0-1".to_string(),
        arch: Architecture::X86_64,
        description: "Example".to_string(),
        homepage: None,
        actions,
    }
}

fn act(source: &str, target: InstallTarget, kind: InstallActionKind) -> InstallAction {
    InstallAction { source: source.to_string(), target, kind }
}

#[test]
fn binaries_are_exposed_next_to_the_data_directory() {
    let a = act("bin/example", InstallTarget::Bin, InstallActionKind::Link);
    assert_eq!(exposed_destination(&layout(), &a, "bin/example").unwrap(), "/home/u/.local/bin/example");
    let icon = act("share/icons/hicolor/48x48/apps/e.png", InstallTarget::Icons, InstallActionKind::Copy);
    assert_eq!(
        exposed_destination(&layout(), &icon, "share/icons/hicolor/48x48/apps/e.png").unwrap(),
        "/home/u/.local/share/icons/hicolor/48x48/apps/e.png"
    );
    let desktop = act("example.desktop", InstallTarget::Desktop, InstallActionKind::Copy);
    assert_eq!(
        exposed_destination(&layout(), &desktop, "example.desktop").unwrap(),
        "/home/u/.local/share/applications/example.desktop"
    );
}

#[test]
fn exposure_plan_lists_each_action() {
    let m = manifest(vec![
        act("./bin/example", InstallTarget::Bin, InstallActionKind::Link),
        act("share/man/man1/example.1", InstallTarget::Man, InstallActionKind::Copy),
    ]);
    let plan = exposure_plan(&layout(), &m, "/cellar/example/1.0.0-1").ok().unwrap();
    assert_eq!(plan.len(), 2);
    assert_eq!(plan[0].target, "/home/u/.local/bin/example");
    assert_eq!(plan[0].source, "/cellar/example/1.0.0-1/bin/example");
    assert_eq!(plan[0].kind, ExposureKind::Link);
    assert_eq!(plan[1].target, "/home/u/.local/share/man/man1/example.1");
    assert_eq!(plan[1].kind, ExposureKind::Copy);
}

#[test]
fn action_sources_must_be_present_and_inside_the_payload() {
    let m = manifest(vec![act("bin/example", InstallTarget::Bin, InstallActionKind::Link)]);
    assert!(validate_actions(&m, "/stage", &vec![true]).is_ok());
    match validate_actions(&m, "/stage", &vec![false]) {
        Err(InstallError::MissingSource(p)) => assert_eq!(p, "/stage/bin/example"),
        _ => panic!("expected a missing source"),
    }
    let bad = manifest(vec![act("/etc/passwd", InstallTarget::Bin, InstallActionKind::Link)]);
    assert!(matches!(validate_actions(&bad, "/stage", &vec![true]), Err(InstallError::InvalidSource(_))));
}

#[test]
fn fresh_installs_do_not_overwrite() {
    let m = manifest(vec![act("bin/example", InstallTarget::Bin, InstallActionKind::Link)]);
    assert!(ensure_exposures_free(&layout(), &m, &vec![false]).is_ok());
    match ensure_exposures_free(&layout(), &m, &vec![true]) {
        Err(InstallError::DestinationExists(d)) => assert_eq!(d, "/home/u/.local/bin/example"),
        _ => panic!("expected an occupied destination"),
    }
}

fn previous(kind: ExposureKind) -> Receipt {
    Receipt {
        name: "example".to_string(),
        version: "0.9.0-1".to_string(),
        arch: "x86_64".to_string(),
        source: InstallSource::Repository { repo: "main".to_string(), url: "u".to_string() },
        package_checksum: None,
        installed_at: "2024-01-01T00:00:00Z".to_string(),
        install_dir: "/cellar/example/0.9.0-1".to_string(),
        opt_link: "/opt/example".to_string(),
        exposed_paths: vec![ExposedPath {
            target: "/home/u/.local//bin/example".to_string(),
            kind,
            source: "/cellar/example/0.9.0-1/bin/example".to_string(),
        }],
    }
}

#[test]
fn upgrades_may_replace_their_own_files_only() {
    let m = manifest(vec![act("bin/example", InstallTarget::Bin, InstallActionKind::Link)]);
    assert!(ensure_exposures_owned(&layout(), &previous(ExposureKind::Link), &m, &vec![true], &vec![true]).is_ok());
    assert!(matches!(
        ensure_exposures_owned(&layout(), &previous(ExposureKind::Link), &m, &vec![false], &vec![true]),
        Err(InstallError::NotOwned(_))
    ));
    assert!(matches!(
        ensure_exposures_owned(&layout(), &previous(ExposureKind::Copy), &m, &vec![false], &vec![true]),
        Err(InstallError::Modified(_))
    ));
    let other = manifest(vec![act("bin/tool", InstallTarget::Bin, InstallActionKind::Link)]);
    assert!(matches!(
        ensure_exposures_owned(&layout(), &previous(ExposureKind::Link), &other, &vec![true], &vec![true]),
        Err(InstallError::DestinationExists(_))
    ));
}

#[test]
fn removal_keeps_files_that_are_no_longer_ours() {
    let link = ExposedPath { target: "t".to_string(), kind: ExposureKind::Link, source: "s".to_string() };
    assert!(should_remove_exposure(&link, true, true, false));
    assert!(!should_remove_exposure(&link, true, false, true));
    assert!(!should_remove_exposure(&link, false, true, true));
    let copy = ExposedPath { target: "t".to_string(), kind: ExposureKind::Copy, source: "s".to_string() };
    assert!(should_remove_exposure(&copy, true, false, true));
    assert!(!should_remove_exposure(&copy, true, true, false));
}

#[test]
fn receipts_record_the_activated_install() {
    let m = manifest(Vec::new());
    let r = new_receipt(
        &layout(),
        &m,
        "/cellar/example/1.0.0-1".to_string(),
        InstallSource::LocalFile { path: "/tmp/e.parcel".to_string() },
        Some("sum".to_string()),
        "2024-01-01T00:00:00Z".to_string(),
        Vec::new(),
    );
    assert_eq!(r.arch, "x86_64");
    assert_eq!(r.opt_link, "/home/u/.local/share/parcel/opt/example");
    assert_eq!(opt_temp_link(&layout(), "example"), "/home/u/.local/share/parcel/opt/example.tmp");
}
