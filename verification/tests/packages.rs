use parcel::models::{IndexPackage, InstalledPackage, Manifest, PackageDatabase, RepositoryIndex};
use parcel::packages::{
    check_installable, confirmed, install_command, installed_package, package_install_path, plan_upgrades, record_install,
    take_installed, InstallRoute, PackageError, UpgradeSelection,
};
use parcel::paths::Paths;

fn manifest(name: &str, version: &str, arch: &str) -> Manifest {
    Manifest {
        name: name.to_string(),
        version: version.to_string(),
        arch: arch.to_string(),
        description: String::new(),
        homepage: String::new(),
        actions: Vec::new(),
    }
}

fn installed(name: &str, version: &str) -> InstalledPackage {
    installed_package(&manifest(name, version, "x86_64"), format!("/apps/{name}/{version}"), "local", "2024-01-01T00:00:00Z".to_string(), Vec::new(), Vec::new())
}

fn index(name: &str, versions: &[&str]) -> RepositoryIndex {
    RepositoryIndex {
        download_template: "https://r/{name}-{version}-{arch}.parcel".to_string(),
        _delta_template: None,
        packages: vec![(
            name.to_string(),
            IndexPackage {
                description: "d".to_string(),
                homepage: None,
                versions: versions.iter().map(|v| (v.to_string(), format!("sum-{v}"))).collect(),
                _delta: Vec::new(),
            },
        )],
    }
}

#[test]
fn install_argument_is_a_file_or_a_name() {
    assert!(matches!(install_command("example", true), Ok(InstallRoute::LocalFile)));
    assert!(matches!(install_command("example", false), Ok(InstallRoute::Remote)));
    assert!(matches!(install_command("./example.parcel", false), Err(PackageError::MissingFile(_))));
    assert!(matches!(install_command("example.parcel", false), Err(PackageError::MissingFile(_))));
}

#[test]
fn install_checks_architecture_and_duplicates() {
    let mut db = PackageDatabase { packages: Vec::new() };
    assert!(check_installable(&db, &manifest("example", "1.0.0-1", "x86_64"), "x86_64").is_ok());
    match check_installable(&db, &manifest("example", "1.0.0-1", "aarch64"), "x86_64") {
        Err(PackageError::ForeignArchitecture(e)) => {
            assert_eq!(e.package, "aarch64");
            assert_eq!(e.current, "x86_64");
        }
        other => panic!("unexpected {other:?}"),
    }
    record_install(&mut db, installed("example", "1.0.0-1"));
    assert!(matches!(
        check_installable(&db, &manifest("example", "1.0.0-1", "x86_64"), "x86_64"),
        Err(PackageError::AlreadyInstalled(_))
    ));
}

#[test]
fn packages_are_unpacked_per_version() {
    let paths = Paths::from_home("/home/u".to_string());
    assert_eq!(
        package_install_path(&paths, &manifest("example", "1.0.0-1", "x86_64")),
        "/home/u/.local/share/parcel/apps/example/1.0.0-1"
    );
}

#[test]
fn removing_takes_the_package_out_of_the_database() {
    let mut db = PackageDatabase { packages: Vec::new() };
    record_install(&mut db, installed("zeta", "1.0.0-1"));
    record_install(&mut db, installed("alpha", "1.0.0-1"));
    assert_eq!(db.packages[0].0, "alpha");
    let removed = take_installed(&mut db, "zeta").ok().unwrap();
    assert_eq!(removed.version, "1.0.0-1");
    assert_eq!(db.packages.len(), 1);
    assert!(matches!(take_installed(&mut db, "zeta"), Err(PackageError::NotInstalled(_))));
}

#[test]
fn upgrades_are_planned_for_newer_versions_only() {
    let mut db = PackageDatabase { packages: Vec::new() };
    assert!(matches!(plan_upgrades(&db, &Vec::new(), None, "x86_64"), Ok(UpgradeSelection::NothingInstalled)));
    record_install(&mut db, installed("example", "1.0.0-1"));
    record_install(&mut db, installed("tool", "2.0.0-1"));
    let indexes = vec![
        ("main".to_string(), index("example", &["1.0.0-1", "1.1.0-1"])),
        ("other".to_string(), index("tool", &["2.0.0-1"])),
    ];
    match plan_upgrades(&db, &indexes, None, "x86_64") {
        Ok(UpgradeSelection::Planned(plans)) => {
            assert_eq!(plans.len(), 1);
            assert_eq!(plans[0].installed, 0);
            assert_eq!(plans[0].candidate.version, "1.1.0-1");
            assert_eq!(plans[0].candidate.download_url, "https://r/example-1.1.0-1-x86_64.parcel");
        },
        _ => panic!("expected a plan"),
    }
    match plan_upgrades(&db, &indexes, Some("tool"), "x86_64") {
        Ok(UpgradeSelection::Planned(plans)) => assert!(plans.is_empty()),
        _ => panic!("expected an empty plan"),
    }
    assert!(matches!(plan_upgrades(&db, &indexes, Some("missing"), "x86_64"), Err(PackageError::NotInstalled(_))));
}

#[test]
fn prompt_answers() {
    assert!(confirmed("y\n"));
    assert!(confirmed(" Yes "));
    assert!(!confirmed("yES"));
    assert!(!confirmed(""));
}
