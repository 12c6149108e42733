//! Where installed package files are exposed.

use vstd::prelude::*;

use crate::archive::PathError;
use crate::fspath::{self, path_join};
use crate::layout::{target_dir_of, Layout};
use crate::parcel_manifest::{
    canonical_target, target_name, InstallAction, InstallActionKind, InstallTarget, PackageManifest,
};
use crate::receipt::{ExposedPath, ExposureKind, InstallSource, Receipt};
use crate::scan::{first_where, lemma_first_where, lemma_first_where_at};
use crate::text;

verus! {

/// An action source with no file name to expose it under.
#[derive(Debug, PartialEq, Eq, Structural)]
pub struct MissingBasename {
    pub target: InstallTarget,
}

/// The destination of an exposed file: the target directory joined with
/// the source's file name, or for icons and man pages the path below
/// `share/icons` and `share/man` when the source lies there. `None` when a
/// file name is needed and the source has none.
pub open spec fn exposed_destination_of(
    data_home: Seq<char>,
    target: InstallTarget,
    source: Seq<char>,
) -> Option<Seq<char>> {
    let t = canonical_target(target);
    let base = target_dir_of(data_home, target_name(t));
    let kept = if t == InstallTarget::Icons {
        fspath::strip_prefix_of(source, "share/icons"@)
    } else if t == InstallTarget::Man {
        fspath::strip_prefix_of(source, "share/man"@)
    } else {
        None
    };
    match kept {
        Some(rest) => Some(path_join(base, fspath::render_parts(rest))),
        None => match fspath::file_name_of(source) {
            Some(n) => Some(path_join(base, n)),
            None => None,
        },
    }
}

/// Where an install action exposes its (normalized, relative) source.
pub fn exposed_destination(layout: &Layout, action: &InstallAction, source_relative: &str) -> (r:
    Result<String, MissingBasename>)
    ensures
        r is Ok <==> exposed_destination_of(layout.data_home@, action.target, source_relative@) is Some,
        r matches Ok(d) ==> exposed_destination_of(layout.data_home@, action.target, source_relative@)
            == Some(d@),
        r matches Err(e) ==> e.target == canonical_target(action.target),
{
    let target = action.target.canonical();
    let base = layout.target_dir(target.as_str());
    let s = text::chars_of(source_relative);
    let kept = match target {
        InstallTarget::Icons => {
            let prefix = text::chars_of("share/icons");
            fspath::strip_prefix(&s, &prefix)
        },
        InstallTarget::Man => {
            let prefix = text::chars_of("share/man");
            fspath::strip_prefix(&s, &prefix)
        },
        _ => None,
    };
    match kept {
        Some(rest) => {
            let tail = fspath::render(&rest);
            let b = text::chars_of(base.as_str());
            Ok(text::string_of(&fspath::join_chars(&b, &tail)))
        },
        None => match fspath::file_name(&s) {
            Some(n) => {
                let b = text::chars_of(base.as_str());
                Ok(text::string_of(&fspath::join_chars(&b, &n)))
            },
            None => Err(MissingBasename { target }),
        },
    }
}

/// Why a package could not be installed or exposed.
#[derive(Debug)]
pub enum InstallError {
    /// An action's source path is absolute or leaves the payload.
    InvalidSource(PathError),
    /// An action's source is missing from the unpacked payload.
    MissingSource(String),
    /// An action's source has no file name to expose it under.
    MissingBasename(InstallTarget),
    /// Something not installed by Parcel already occupies a destination.
    DestinationExists(String),
    /// A link Parcel made no longer points into the package.
    NotOwned(String),
    /// A file Parcel copied has been changed since.
    Modified(String),
}

/// An action source with `.` components dropped, joined with `/`.
pub open spec fn source_relative_of(source: Seq<char>) -> Seq<char> {
    fspath::join_slash(fspath::normal_names(fspath::components(source)))
}

/// Whether an action can be exposed: its source stays inside the payload
/// and it has a destination.
pub open spec fn exposable(layout: Layout, a: InstallAction) -> bool {
    &&& !fspath::escapes(fspath::components(a.source@))
    &&& exposed_destination_of(layout.data_home@, a.target, source_relative_of(a.source@)) is Some
}

/// Where an exposable action's file goes.
pub open spec fn destination_of(layout: Layout, a: InstallAction) -> Seq<char> {
    exposed_destination_of(layout.data_home@, a.target, source_relative_of(a.source@)).unwrap()
}

/// The error for an action that cannot be exposed.
pub open spec fn exposure_error_is(e: InstallError, layout: Layout, a: InstallAction) -> bool {
    if fspath::escapes(fspath::components(a.source@)) {
        e is InvalidSource
    } else {
        e matches InstallError::MissingBasename(t) && t == canonical_target(a.target)
    }
}

/// An action's source path relative to the payload, and its destination.
fn exposure_target(layout: &Layout, action: &InstallAction) -> (r: Result<(String, String), InstallError>)
    ensures
        r is Ok <==> exposable(*layout, *action),
        r matches Ok((rel, d)) ==> rel@ == source_relative_of(action.source@) && d@ == destination_of(
            *layout,
            *action,
        ),
        r matches Err(e) ==> exposure_error_is(e, *layout, *action),
{
    let rel = match crate::artifact::normalize_archive_path(action.source.as_str()) {
        Ok(p) => p,
        Err(e) => return Err(InstallError::InvalidSource(e)),
    };
    match exposed_destination(layout, action, rel.as_str()) {
        Ok(d) => Ok((rel, d)),
        Err(e) => Err(InstallError::MissingBasename(e.target)),
    }
}

/// Where an action's source lies in the install directory, when its path
/// stays inside the payload.
pub fn action_source(install_dir: &str, action: &InstallAction) -> (r: Result<String, PathError>)
    ensures
        r is Ok <==> !fspath::escapes(fspath::components(action.source@)),
        r matches Ok(p) ==> p@ == path_join(install_dir@, source_relative_of(action.source@)),
{
    let rel = crate::artifact::normalize_archive_path(action.source.as_str())?;
    Ok(fspath::join(install_dir, rel.as_str()))
}

/// Whether action `i`'s source is unusable: outside the payload, or not
/// among the files present (`present[i]`).
pub open spec fn source_unusable(actions: Seq<InstallAction>, present: Seq<bool>, i: int) -> bool {
    fspath::escapes(fspath::components(actions[i].source@)) || !present[i]
}

/// Checks that every action's source is a path inside the payload and is
/// present in it. `present[i]` tells whether action `i`'s source (see
/// `action_source`) exists. The first failing action gives the error.
pub fn validate_actions(manifest: &PackageManifest, install_dir: &str, present: &Vec<bool>) -> (r: Result<
    (),
    InstallError,
>)
    requires
        present@.len() == manifest.actions@.len(),
    ensures
        ({
            let acts = manifest.actions@;
            let k = first_where(acts.len() as int, |i: int| source_unusable(acts, present@, i));
            &&& r is Ok <==> k < 0
            &&& r matches Err(e) ==> if fspath::escapes(fspath::components(acts[k].source@)) {
                e is InvalidSource
            } else {
                e matches InstallError::MissingSource(p) && p@ == path_join(
                    install_dir@,
                    source_relative_of(acts[k].source@),
                )
            }
        }),
{
    let ghost acts = manifest.actions@;
    let ghost p = |i: int| source_unusable(acts, present@, i);
    let mut i: usize = 0;
    while i < manifest.actions.len()
        invariant
            i <= acts.len(),
            acts == manifest.actions@,
            present@.len() == acts.len(),
            p == (|i: int| source_unusable(acts, present@, i)),
            first_where(i as int, p) < 0,
        decreases acts.len() - i,
    {
        match action_source(install_dir, &manifest.actions[i]) {
            Err(e) => {
                proof {
                    lemma_first_where_at(i as int, acts.len() as int, p);
                }
                return Err(InstallError::InvalidSource(e));
            },
            Ok(path) => {
                if !present[i] {
                    proof {
                        lemma_first_where_at(i as int, acts.len() as int, p);
                    }
                    return Err(InstallError::MissingSource(path));
                }
            },
        }
        proof {
            assert(!p(i as int));
            assert(first_where(i + 1, p) < 0);
        }
        i = i + 1;
    }
    Ok(())
}

/// How an action kind exposes a file.
pub open spec fn exposure_kind_of(k: InstallActionKind) -> ExposureKind {
    match k {
        InstallActionKind::Link => ExposureKind::Link,
        InstallActionKind::Copy => ExposureKind::Copy,
    }
}

/// Whether `e` is the exposure planned for action `a` of a package
/// installed in `install_dir`.
pub open spec fn planned_exposure(layout: Layout, install_dir: Seq<char>, a: InstallAction, e: ExposedPath) -> bool {
    &&& e.target@ == destination_of(layout, a)
    &&& e.kind == exposure_kind_of(a.kind)
    &&& e.source@ == path_join(install_dir, source_relative_of(a.source@))
}

/// The files to expose for a package installed in `install_dir`: for each
/// action, its destination, how it is exposed, and its source in the
/// install directory. Refused at the first action that cannot be exposed.
pub fn exposure_plan(layout: &Layout, manifest: &PackageManifest, install_dir: &str) -> (r: Result<
    Vec<ExposedPath>,
    InstallError,
>)
    ensures
        ({
            let acts = manifest.actions@;
            let k = first_where(acts.len() as int, |i: int| !exposable(*layout, acts[i]));
            &&& r is Ok <==> k < 0
            &&& r matches Err(e) ==> exposure_error_is(e, *layout, acts[k])
            &&& r matches Ok(v) ==> v@.len() == acts.len() && forall|i: int|
                0 <= i < acts.len() ==> planned_exposure(*layout, install_dir@, acts[i], #[trigger] v@[i])
        }),
{
    let ghost acts = manifest.actions@;
    let ghost p = |i: int| !exposable(*layout, acts[i]);
    let mut v: Vec<ExposedPath> = Vec::new();
    let mut i: usize = 0;
    while i < manifest.actions.len()
        invariant
            i <= acts.len(),
            acts == manifest.actions@,
            p == (|i: int| !exposable(*layout, acts[i])),
            first_where(i as int, p) < 0,
            v@.len() == i,
            forall|k: int| 0 <= k < i ==> planned_exposure(*layout, install_dir@, acts[k], #[trigger] v@[k]),
        decreases acts.len() - i,
    {
        let action = &manifest.actions[i];
        let ghost before = v@;
        let (rel, target) = match exposure_target(layout, action) {
            Err(e) => {
                proof {
                    lemma_first_where_at(i as int, acts.len() as int, p);
                }
                return Err(e);
            },
            Ok(pair) => pair,
        };
        let kind = match action.kind {
            InstallActionKind::Link => ExposureKind::Link,
            InstallActionKind::Copy => ExposureKind::Copy,
        };
        let source = fspath::join(install_dir, rel.as_str());
        v.push(ExposedPath { target, kind, source });
        proof {
            assert forall|k: int| 0 <= k < i + 1 implies planned_exposure(*layout, install_dir@, acts[k], #[trigger] v@[k]) by {
                if k < i {
                    assert(v@[k] == before[k]);
                }
            }
            assert(!p(i as int));
            assert(first_where(i + 1, p) < 0);
        }
        i = i + 1;
    }
    Ok(v)
}

/// Whether action `i` cannot be exposed on a system without an earlier
/// install: it has no destination, or its destination is taken
/// (`taken[i]`).
pub open spec fn blocked_fresh(layout: Layout, acts: Seq<InstallAction>, taken: Seq<bool>, i: int) -> bool {
    !exposable(layout, acts[i]) || taken[i]
}

/// Checks, for a package with no earlier install, that no destination is
/// occupied. `taken[i]` tells whether action `i`'s destination exists.
pub fn ensure_exposures_free(layout: &Layout, manifest: &PackageManifest, taken: &Vec<bool>) -> (r: Result<
    (),
    InstallError,
>)
    requires
        taken@.len() == manifest.actions@.len(),
    ensures
        ({
            let acts = manifest.actions@;
            let k = first_where(acts.len() as int, |i: int| blocked_fresh(*layout, acts, taken@, i));
            &&& r is Ok <==> k < 0
            &&& r matches Err(e) ==> if !exposable(*layout, acts[k]) {
                exposure_error_is(e, *layout, acts[k])
            } else {
                e matches InstallError::DestinationExists(d) && d@ == destination_of(*layout, acts[k])
            }
        }),
{
    let ghost acts = manifest.actions@;
    let ghost p = |i: int| blocked_fresh(*layout, acts, taken@, i);
    let mut i: usize = 0;
    while i < manifest.actions.len()
        invariant
            i <= acts.len(),
            acts == manifest.actions@,
            taken@.len() == acts.len(),
            p == (|i: int| blocked_fresh(*layout, acts, taken@, i)),
            first_where(i as int, p) < 0,
        decreases acts.len() - i,
    {
        match exposure_target(layout, &manifest.actions[i]) {
            Err(e) => {
                proof {
                    lemma_first_where_at(i as int, acts.len() as int, p);
                }
                return Err(e);
            },
            Ok((_, target)) => {
                if taken[i] {
                    proof {
                        lemma_first_where_at(i as int, acts.len() as int, p);
                    }
                    return Err(InstallError::DestinationExists(target));
                }
            },
        }
        proof {
            assert(!p(i as int));
            assert(first_where(i + 1, p) < 0);
        }
        i = i + 1;
    }
    Ok(())
}

/// Index of the first exposure of `exposed` whose target is the same path
/// as `d`, or -1.
pub open spec fn exposure_at(exposed: Seq<ExposedPath>, d: Seq<char>) -> int {
    first_where(
        exposed.len() as int,
        |j: int| fspath::components(exposed[j].target@) == fspath::components(d),
    )
}

/// The exposure of `exposed` at the same path as `d`, if any.
fn find_exposure(exposed: &Vec<ExposedPath>, d: &str) -> (r: Option<usize>)
    ensures
        r is None <==> exposure_at(exposed@, d@) < 0,
        r matches Some(j) ==> j == exposure_at(exposed@, d@),
{
    let ghost p = |j: int| fspath::components(exposed@[j].target@) == fspath::components(d@);
    let mut j: usize = 0;
    while j < exposed.len()
        invariant
            j <= exposed@.len(),
            p == (|j: int| fspath::components(exposed@[j].target@) == fspath::components(d@)),
            first_where(j as int, p) < 0,
        decreases exposed.len() - j,
    {
        if fspath::same_path(exposed[j].target.as_str(), d) {
            proof {
                lemma_first_where_at(j as int, exposed@.len() as int, p);
            }
            return Some(j);
        }
        proof {
            assert(first_where(j + 1, p) < 0);
        }
        j = j + 1;
    }
    None
}

/// Whether action `i` cannot replace an earlier install: it has no
/// destination; or its destination was exposed by the earlier install and
/// is no longer Parcel's (`owned[j]` false for that exposure `j`); or its
/// destination is new and taken (`taken[i]`).
pub open spec fn blocked_upgrade(
    layout: Layout,
    acts: Seq<InstallAction>,
    previous: Seq<ExposedPath>,
    owned: Seq<bool>,
    taken: Seq<bool>,
    i: int,
) -> bool {
    if !exposable(layout, acts[i]) {
        true
    } else {
        let j = exposure_at(previous, destination_of(layout, acts[i]));
        if j >= 0 {
            !owned[j]
        } else {
            taken[i]
        }
    }
}

/// Checks, for a package replacing an earlier install, that each
/// destination is either the earlier install's own and untouched, or
/// free. `owned[j]` tells whether exposure `j` of the earlier receipt is
/// still as Parcel left it: for a link, that it still points at its
/// source; for a copy, that it does not differ from its source where both
/// exist. `taken[i]` tells whether action `i`'s destination exists.
pub fn ensure_exposures_owned(
    layout: &Layout,
    previous: &Receipt,
    manifest: &PackageManifest,
    owned: &Vec<bool>,
    taken: &Vec<bool>,
) -> (r: Result<(), InstallError>)
    requires
        owned@.len() == previous.exposed_paths@.len(),
        taken@.len() == manifest.actions@.len(),
    ensures
        ({
            let acts = manifest.actions@;
            let prev = previous.exposed_paths@;
            let k = first_where(
                acts.len() as int,
                |i: int| blocked_upgrade(*layout, acts, prev, owned@, taken@, i),
            );
            &&& r is Ok <==> k < 0
            &&& r matches Err(e) ==> if !exposable(*layout, acts[k]) {
                exposure_error_is(e, *layout, acts[k])
            } else {
                let j = exposure_at(prev, destination_of(*layout, acts[k]));
                if j >= 0 {
                    match prev[j].kind {
                        ExposureKind::Link => e matches InstallError::NotOwned(t) && t@
                            == prev[j].target@,
                        ExposureKind::Copy => e matches InstallError::Modified(t) && t@
                            == prev[j].target@,
                    }
                } else {
                    e matches InstallError::DestinationExists(d) && d@ == destination_of(
                        *layout,
                        acts[k],
                    )
                }
            }
        }),
{
    let ghost acts = manifest.actions@;
    let ghost prev = previous.exposed_paths@;
    let ghost p = |i: int| blocked_upgrade(*layout, acts, prev, owned@, taken@, i);
    proof {
        lemma_first_where(0, p);
    }
    let mut i: usize = 0;
    while i < manifest.actions.len()
        invariant
            i <= acts.len(),
            acts == manifest.actions@,
            prev == previous.exposed_paths@,
            owned@.len() == prev.len(),
            taken@.len() == acts.len(),
            p == (|i: int| blocked_upgrade(*layout, acts, prev, owned@, taken@, i)),
            first_where(i as int, p) < 0,
        decreases acts.len() - i,
    {
        match exposure_target(layout, &manifest.actions[i]) {
            Err(e) => {
                proof {
                    lemma_first_where_at(i as int, acts.len() as int, p);
                }
                return Err(e);
            },
            Ok((_, target)) => {
                match find_exposure(&previous.exposed_paths, target.as_str()) {
                    Some(j) => {
                        proof {
                            lemma_first_where(prev.len() as int, |j: int| fspath::components(prev[j].target@) == fspath::components(target@));
                        }
                        if !owned[j] {
                            proof {
                                lemma_first_where_at(i as int, acts.len() as int, p);
                            }
                            let existing = &previous.exposed_paths[j];
                            return match existing.kind {
                                ExposureKind::Link => Err(InstallError::NotOwned(existing.target.clone())),
                                ExposureKind::Copy => Err(InstallError::Modified(existing.target.clone())),
                            };
                        }
                    },
                    None => {
                        if taken[i] {
                            proof {
                                lemma_first_where_at(i as int, acts.len() as int, p);
                            }
                            return Err(InstallError::DestinationExists(target));
                        }
                    },
                }
            },
        }
        proof {
            assert(!p(i as int));
            assert(first_where(i + 1, p) < 0);
        }
        i = i + 1;
    }
    Ok(())
}

/// Whether removing a package deletes an exposed file: only when it still
/// exists (`present`) and is still Parcel's: a link that points at its
/// source (`points_back`), or a copy whose source exists with the same
/// contents (`unchanged`).
pub fn should_remove_exposure(e: &ExposedPath, present: bool, points_back: bool, unchanged: bool) -> (r:
    bool)
    ensures
        r == (present && match e.kind {
            ExposureKind::Link => points_back,
            ExposureKind::Copy => unchanged,
        }),
{
    if !present {
        return false;
    }
    match e.kind {
        ExposureKind::Link => points_back,
        ExposureKind::Copy => unchanged,
    }
}

/// The temporary link through which the active version is switched:
/// `<data>/parcel/opt/<name>.tmp`.
pub fn opt_temp_link(layout: &Layout, name: &str) -> (r: String)
    ensures
        r@ == path_join(path_join(path_join(layout.data_home@, "parcel"@), "opt"@), name@ + ".tmp"@),
{
    let file = fspath::concat(name, ".tmp");
    fspath::join(layout.opt_dir().as_str(), file.as_str())
}

/// The receipt of a package activated in `install_dir`.
pub fn new_receipt(
    layout: &Layout,
    manifest: &PackageManifest,
    install_dir: String,
    source: InstallSource,
    package_checksum: Option<String>,
    installed_at: String,
    exposed_paths: Vec<ExposedPath>,
) -> (r: Receipt)
    ensures
        r.name@ == manifest.name@,
        r.version@ == manifest.version@,
        r.arch@ == crate::utils::arch::arch_name(manifest.arch),
        r.source == source,
        r.package_checksum == package_checksum,
        r.installed_at == installed_at,
        r.install_dir == install_dir,
        r.opt_link@ == path_join(path_join(path_join(layout.data_home@, "parcel"@), "opt"@), manifest.name@),
        r.exposed_paths == exposed_paths,
{
    Receipt {
        name: manifest.name.clone(),
        version: manifest.version.clone(),
        arch: manifest.arch.to_string(),
        source,
        package_checksum,
        installed_at,
        install_dir,
        opt_link: layout.opt_link_path(manifest.name.as_str()),
        exposed_paths,
    }
}

} // verus!
