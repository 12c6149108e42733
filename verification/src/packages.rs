//! The package lifecycle against the package database: what installing,
//! removing and upgrading decide.

use vstd::prelude::*;

use crate::fspath::{self, path_join};
use crate::keyed;
use crate::models::{InstalledPackage, Manifest, PackageDatabase, RepositoryIndex, ResolvedAction};
use crate::paths::Paths;
use crate::repositories::{self, candidate_index, index_latest, is_latest_candidate, PackageCandidate};
use crate::text;
use crate::version;

verus! {

/// Why a package operation was refused.
#[derive(Debug)]
pub enum PackageError {
    /// A path-like package argument names no file.
    MissingFile(String),
    /// The package is built for another architecture.
    ForeignArchitecture(version::ArchMismatch),
    /// A package of that name is already installed.
    AlreadyInstalled(String),
    /// No package of that name is installed.
    NotInstalled(String),
}

/// Where `parcel install <package>` takes the package from.
#[derive(Debug, PartialEq, Eq, Structural)]
pub enum InstallRoute {
    /// The argument is an existing archive file.
    LocalFile,
    /// The argument is a package name to look up in the cached indexes.
    Remote,
}

/// Decides how to install `package`: from the file when one exists there
/// (`exists`); a missing file when the argument looks like a path (it
/// holds `/` or ends in `.parcel`); otherwise by name from the remotes.
pub fn install_command(package: &str, exists: bool) -> (r: Result<InstallRoute, PackageError>)
    ensures
        exists ==> r matches Ok(InstallRoute::LocalFile),
        !exists && (text::has_char(package@, '/') || text::has_suffix(package@, ".parcel"@)) ==> (r matches Err(
            PackageError::MissingFile(p),
        ) && p@ == package@),
        !exists && !text::has_char(package@, '/') && !text::has_suffix(package@, ".parcel"@) ==> r matches Ok(
            InstallRoute::Remote,
        ),
{
    if exists {
        return Ok(InstallRoute::LocalFile);
    }
    let v = text::chars_of(package);
    let ext = text::chars_of(".parcel");
    if text::has_char_exec(&v, '/') || text::ends_with_exec(&v, &ext) {
        return Err(PackageError::MissingFile(text::string_of(&v)));
    }
    Ok(InstallRoute::Remote)
}

/// Checks that a package may be installed: built for the host
/// architecture `current_arch`, and not installed yet.
pub fn check_installable(db: &PackageDatabase, manifest: &Manifest, current_arch: &str) -> (r: Result<
    (),
    PackageError,
>)
    ensures
        manifest.arch@ != current_arch@ ==> (r matches Err(PackageError::ForeignArchitecture(e)) && e.package@
            == manifest.arch@ && e.current@ == current_arch@),
        manifest.arch@ == current_arch@ && keyed::as_map(db.packages@).contains_key(manifest.name@) ==> (
        r matches Err(PackageError::AlreadyInstalled(n)) && n@ == manifest.name@),
        r is Ok <==> manifest.arch@ == current_arch@ && !keyed::as_map(db.packages@).contains_key(
            manifest.name@,
        ),
{
    match version::validate_package_arch(manifest.arch.as_str(), current_arch) {
        Err(e) => return Err(PackageError::ForeignArchitecture(e)),
        Ok(()) => {},
    }
    if keyed::keyed_contains(&db.packages, manifest.name.as_str()) {
        return Err(PackageError::AlreadyInstalled(manifest.name.clone()));
    }
    Ok(())
}

/// Where a package version is unpacked: `<apps>/<name>/<version>`.
pub fn package_install_path(paths: &Paths, manifest: &Manifest) -> (r: String)
    ensures
        r@ == path_join(path_join(paths.apps_dir@, manifest.name@), manifest.version@),
{
    let dir = fspath::join(paths.apps_dir.as_str(), manifest.name.as_str());
    fspath::join(dir.as_str(), manifest.version.as_str())
}

/// The database record of a freshly installed package.
pub fn installed_package(
    manifest: &Manifest,
    install_path: String,
    source_repo: &str,
    installed_at: String,
    actions: Vec<ResolvedAction>,
    files: Vec<String>,
) -> (r: InstalledPackage)
    ensures
        r.name@ == manifest.name@,
        r.version@ == manifest.version@,
        r.arch@ == manifest.arch@,
        r.install_path == install_path,
        r.source_repo@ == source_repo@,
        r.installed_at == installed_at,
        r.actions == actions,
        r.files == files,
{
    InstalledPackage {
        name: manifest.name.clone(),
        version: manifest.version.clone(),
        arch: manifest.arch.clone(),
        install_path,
        source_repo: text::string_of(&text::chars_of(source_repo)),
        installed_at,
        actions,
        files,
    }
}

/// Records an installed package under its name.
pub fn record_install(db: &mut PackageDatabase, package: InstalledPackage)
    requires
        keyed::sorted_keys(old(db).packages@),
    ensures
        keyed::sorted_keys(final(db).packages@),
        keyed::as_map(final(db).packages@) == keyed::as_map(old(db).packages@).insert(package.name@, package),
{
    let key = package.name.clone();
    let _ = keyed::keyed_insert(&mut db.packages, key, package);
}

/// Takes a package out of the database; refused when it is not installed.
pub fn take_installed(db: &mut PackageDatabase, name: &str) -> (r: Result<InstalledPackage, PackageError>)
    requires
        keyed::sorted_keys(old(db).packages@),
    ensures
        keyed::sorted_keys(final(db).packages@),
        keyed::as_map(final(db).packages@) == keyed::as_map(old(db).packages@).remove(name@),
        r is Ok <==> keyed::as_map(old(db).packages@).contains_key(name@),
        r matches Ok(p) ==> p == keyed::as_map(old(db).packages@)[name@],
        r matches Err(e) ==> e matches PackageError::NotInstalled(n) && n@ == name@,
{
    match keyed::keyed_remove(&mut db.packages, name) {
        Some(p) => Ok(p),
        None => Err(PackageError::NotInstalled(text::string_of(&text::chars_of(name)))),
    }
}

/// Whether installed package `i` is upgraded: it is the requested one when
/// a name was given, and some index offers a version newer than the
/// installed one.
pub open spec fn upgrade_wanted(
    pkgs: Seq<(String, InstalledPackage)>,
    indexes: Seq<(String, RepositoryIndex)>,
    requested: Option<Seq<char>>,
    i: int,
) -> bool {
    let p = pkgs[i].1;
    let b = candidate_index(indexes, p.name@);
    &&& (requested matches Some(n) ==> n == p.name@)
    &&& b >= 0
    &&& version::parcel_order(index_latest(indexes, b, p.name@).unwrap(), p.version@) > 0
}

/// The positions of the installed packages that are upgraded, in database
/// order.
pub open spec fn wanted_upgrades(
    pkgs: Seq<(String, InstalledPackage)>,
    indexes: Seq<(String, RepositoryIndex)>,
    requested: Option<Seq<char>>,
    n: int,
) -> Seq<int>
    decreases n,
{
    if n <= 0 {
        Seq::empty()
    } else {
        let r = wanted_upgrades(pkgs, indexes, requested, n - 1);
        if upgrade_wanted(pkgs, indexes, requested, n - 1) {
            r.push(n - 1)
        } else {
            r
        }
    }
}

/// One upgrade to carry out: the position of the installed package in the
/// database, and the newer version found for it.
pub struct PlannedUpgrade {
    pub installed: usize,
    pub candidate: PackageCandidate,
}

/// What `parcel upgrade` found to do.
pub enum UpgradeSelection {
    /// No package is installed at all.
    NothingInstalled,
    /// The upgrades to carry out, possibly none.
    Planned(Vec<PlannedUpgrade>),
}

/// Whether `u` is the planned upgrade of installed package `i`.
pub open spec fn planned_for(
    pkgs: Seq<(String, InstalledPackage)>,
    indexes: Seq<(String, RepositoryIndex)>,
    arch: Seq<char>,
    i: int,
    u: PlannedUpgrade,
) -> bool {
    &&& u.installed == i
    &&& is_latest_candidate(indexes, pkgs[i].1.name@, arch, u.candidate)
}

/// Selects the upgrades: every installed package (or only the requested
/// one) for which the cached indexes offer a newer version. Refused when a
/// requested package is not installed; nothing to select when no package
/// is installed at all.
pub fn plan_upgrades(
    db: &PackageDatabase,
    indexes: &Vec<(String, RepositoryIndex)>,
    requested: Option<&str>,
    arch: &str,
) -> (r: Result<UpgradeSelection, PackageError>)
    ensures
        db.packages@.len() == 0 ==> r matches Ok(UpgradeSelection::NothingInstalled),
        db.packages@.len() > 0 && (requested matches Some(n) && !keyed::as_map(db.packages@).contains_key(
            n@,
        )) ==> (r matches Err(PackageError::NotInstalled(m)) && m@ == requested.unwrap()@),
        db.packages@.len() > 0 && (requested matches Some(n) ==> keyed::as_map(db.packages@).contains_key(
            n@,
        )) ==> r matches Ok(UpgradeSelection::Planned(_)),
        r matches Ok(UpgradeSelection::Planned(v)) ==> {
            let want = wanted_upgrades(
                db.packages@,
                indexes@,
                match requested {
                    Some(n) => Some(n@),
                    None => None,
                },
                db.packages@.len() as int,
            );
            &&& v@.len() == want.len()
            &&& forall|k: int| 0 <= k < v@.len() ==> planned_for(db.packages@, indexes@, arch@, want[k], #[trigger] v@[k])
        },
{
    if db.packages.len() == 0 {
        return Ok(UpgradeSelection::NothingInstalled);
    }
    let ghost req = match requested {
        Some(n) => Some(n@),
        None => None::<Seq<char>>,
    };
    let mut plans: Vec<PlannedUpgrade> = Vec::new();
    let mut i: usize = 0;
    while i < db.packages.len()
        invariant
            i <= db.packages@.len(),
            req == match requested {
                Some(n) => Some(n@),
                None => None::<Seq<char>>,
            },
            plans@.len() == wanted_upgrades(db.packages@, indexes@, req, i as int).len(),
            forall|k: int|
                0 <= k < plans@.len() ==> planned_for(
                    db.packages@,
                    indexes@,
                    arch@,
                    wanted_upgrades(db.packages@, indexes@, req, i as int)[k],
                    #[trigger] plans@[k],
                ),
        decreases db.packages@.len() - i,
    {
        let package = &db.packages[i].1;
        let ghost before = plans@;
        let ghost prev = wanted_upgrades(db.packages@, indexes@, req, i as int);
        let matches_request = match requested {
            Some(n) => text::str_eq(n, package.name.as_str()),
            None => true,
        };
        if matches_request {
            match repositories::find_latest_candidate(indexes, package.name.as_str(), arch) {
                None => {},
                Some(candidate) => {
                    if version::is_newer(candidate.version.as_str(), package.version.as_str()) {
                        plans.push(PlannedUpgrade { installed: i, candidate });
                        proof {
                            assert forall|k: int| 0 <= k < plans@.len() implies planned_for(
                                db.packages@,
                                indexes@,
                                arch@,
                                prev.push(i as int)[k],
                                #[trigger] plans@[k],
                            ) by {
                                if k < before.len() {
                                    assert(plans@[k] == before[k]);
                                }
                            }
                        }
                    }
                },
            }
        }
        i = i + 1;
    }
    match requested {
        Some(n) => {
            if !keyed::keyed_contains(&db.packages, n) {
                return Err(PackageError::NotInstalled(text::string_of(&text::chars_of(n))));
            }
        },
        None => {},
    }
    Ok(UpgradeSelection::Planned(plans))
}

/// Whether an answer to the upgrade prompt agrees: `y` or `yes` in one of
/// the accepted spellings, surrounding whitespace ignored.
pub open spec fn agrees(answer: Seq<char>) -> bool {
    let t = text::trim_ws(answer);
    t == "y"@ || t == "Y"@ || t == "yes"@ || t == "YES"@ || t == "Yes"@
}

/// Reads an answer to the upgrade prompt.
pub fn confirmed(answer: &str) -> (r: bool)
    ensures
        r == agrees(answer@),
{
    let v = text::chars_of(answer);
    let t = text::trim_ws_range(&v, 0, v.len());
    assert(v@.subrange(0, v@.len() as int) =~= v@);
    let s = text::string_of(&t);
    text::str_eq(s.as_str(), "y") || text::str_eq(s.as_str(), "Y") || text::str_eq(s.as_str(), "yes")
        || text::str_eq(s.as_str(), "YES") || text::str_eq(s.as_str(), "Yes")
}

} // verus!
