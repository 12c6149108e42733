//! Overlay deltas between two package payloads.

use vstd::prelude::*;

use crate::archive::PathError;
use crate::fspath;
use crate::parcel_manifest::PackageManifest;
use crate::repo::{key_index, lemma_key_index};
use crate::text;
use crate::utils::arch::{self, Architecture};

verus! {

/// What a payload entry is, as far as deltas care.
pub enum EntryFingerprint {
    Directory,
    /// A regular file and the checksum of its contents.
    File(String),
    /// A symbolic link and its target.
    Symlink(String),
}

/// The mathematical value of a fingerprint.
pub enum FingerprintView {
    Directory,
    File(Seq<char>),
    Symlink(Seq<char>),
}

impl View for EntryFingerprint {
    type V = FingerprintView;

    open spec fn view(&self) -> FingerprintView {
        match self {
            EntryFingerprint::Directory => FingerprintView::Directory,
            EntryFingerprint::File(h) => FingerprintView::File(h@),
            EntryFingerprint::Symlink(t) => FingerprintView::Symlink(t@),
        }
    }
}

/// Whether two fingerprints describe the same entry.
pub fn same_fingerprint(a: &EntryFingerprint, b: &EntryFingerprint) -> (r: bool)
    ensures
        r == (a@ == b@),
{
    match (a, b) {
        (EntryFingerprint::Directory, EntryFingerprint::Directory) => true,
        (EntryFingerprint::File(x), EntryFingerprint::File(y)) => text::str_eq(x.as_str(), y.as_str()),
        (EntryFingerprint::Symlink(x), EntryFingerprint::Symlink(y)) => text::str_eq(
            x.as_str(),
            y.as_str(),
        ),
        _ => false,
    }
}

/// A payload listing, keyed by relative path: the entries of a directory
/// tree, each path once.
pub open spec fn unique_keys<V>(s: Seq<(String, V)>) -> bool {
    forall|i: int, j: int| 0 <= i < j < s.len() ==> s[i].0@ != s[j].0@
}

/// The listing as a map from path to fingerprint.
pub open spec fn entry_map(s: Seq<(String, EntryFingerprint)>) -> Map<Seq<char>, FingerprintView> {
    Map::new(|k: Seq<char>| key_index(s, k) >= 0, |k: Seq<char>| s[key_index(s, k)].1@)
}

/// Paths of `from` that `to` no longer has, in `from`'s order.
pub open spec fn removed_of(
    from: Seq<(String, EntryFingerprint)>,
    to: Seq<(String, EntryFingerprint)>,
) -> Seq<Seq<char>>
    decreases from.len(),
{
    if from.len() == 0 {
        Seq::empty()
    } else {
        let rest = removed_of(from.drop_last(), to);
        if key_index(to, from.last().0@) < 0 {
            rest.push(from.last().0@)
        } else {
            rest
        }
    }
}

/// Paths of `to` that are new or differ from `from`, in `to`'s order.
pub open spec fn changed_of(
    from: Seq<(String, EntryFingerprint)>,
    to: Seq<(String, EntryFingerprint)>,
) -> Seq<Seq<char>>
    decreases to.len(),
{
    if to.len() == 0 {
        Seq::empty()
    } else {
        let rest = changed_of(from, to.drop_last());
        let k = to.last().0@;
        let i = key_index(from, k);
        if i < 0 || from[i].1@ != to.last().1@ {
            rest.push(k)
        } else {
            rest
        }
    }
}

/// What a delta from one payload to another holds: the paths to delete and
/// the paths whose new content the overlay carries.
pub struct DeltaChanges {
    pub removed_paths: Vec<String>,
    pub changed_paths: Vec<String>,
}

/// Compares two payload listings: paths that `to` no longer has are
/// removed; paths that are new in `to`, or whose fingerprint changed, go
/// into the overlay.
pub fn compute_delta_changes(
    from: &Vec<(String, EntryFingerprint)>,
    to: &Vec<(String, EntryFingerprint)>,
) -> (r: DeltaChanges)
    ensures
        crate::resolver::views_of(r.removed_paths@) == removed_of(from@, to@),
        crate::resolver::views_of(r.changed_paths@) == changed_of(from@, to@),
{
    let mut removed: Vec<String> = Vec::new();
    let mut i: usize = 0;
    while i < from.len()
        invariant
            i <= from.len(),
            crate::resolver::views_of(removed@) == removed_of(from@.subrange(0, i as int), to@),
        decreases from.len() - i,
    {
        let key = text::chars_of(from[i].0.as_str());
        proof {
            assert(from@.subrange(0, i + 1).drop_last() =~= from@.subrange(0, i as int));
        }
        if crate::repo::find_key(to, &key).is_none() {
            removed.push(from[i].0.clone());
            proof {
                assert(crate::resolver::views_of(removed@) =~= crate::resolver::views_of(
                    removed@.drop_last(),
                ).push(from@[i as int].0@));
            }
        }
        i = i + 1;
    }
    assert(from@.subrange(0, i as int) =~= from@);
    let mut changed: Vec<String> = Vec::new();
    let mut j: usize = 0;
    while j < to.len()
        invariant
            j <= to.len(),
            crate::resolver::views_of(changed@) == changed_of(from@, to@.subrange(0, j as int)),
        decreases to.len() - j,
    {
        let key = text::chars_of(to[j].0.as_str());
        proof {
            assert(to@.subrange(0, j + 1).drop_last() =~= to@.subrange(0, j as int));
        }
        let differs = match crate::repo::find_key(from, &key) {
            None => true,
            Some(k) => {
                proof {
                    lemma_key_index(from@, key@);
                }
                !same_fingerprint(&from[k].1, &to[j].1)
            },
        };
        if differs {
            changed.push(to[j].0.clone());
            proof {
                assert(crate::resolver::views_of(changed@) =~= crate::resolver::views_of(
                    changed@.drop_last(),
                ).push(to@[j as int].0@));
            }
        }
        j = j + 1;
    }
    assert(to@.subrange(0, j as int) =~= to@);
    DeltaChanges { removed_paths: removed, changed_paths: changed }
}

/// The payload that results from deleting `removed` from `base` and then
/// writing the `overlay` entries over it.
pub open spec fn apply_overlay(
    base: Map<Seq<char>, FingerprintView>,
    removed: Seq<Seq<char>>,
    overlay: Map<Seq<char>, FingerprintView>,
) -> Map<Seq<char>, FingerprintView> {
    base.remove_keys(removed.to_set()).union_prefer_right(overlay)
}

pub proof fn lemma_removed_of(
    from: Seq<(String, EntryFingerprint)>,
    to: Seq<(String, EntryFingerprint)>,
    k: Seq<char>,
)
    ensures
        removed_of(from, to).contains(k) <==> key_index(from, k) >= 0 && key_index(to, k) < 0,
    decreases from.len(),
{
    if from.len() > 0 {
        let p = from.drop_last();
        lemma_removed_of(p, to, k);
        lemma_key_index(from, k);
        lemma_key_index(p, k);
        if key_index(from, k) >= 0 && key_index(p, k) < 0 {
            assert(from.last().0@ == k);
        }
        if removed_of(p, to).contains(k) {
            let w = choose|w: int| 0 <= w < removed_of(p, to).len() && removed_of(p, to)[w] == k;
            if key_index(to, from.last().0@) < 0 {
                assert(removed_of(from, to)[w] == k);
            }
        }
        if key_index(to, from.last().0@) < 0 {
            assert(removed_of(from, to).last() == from.last().0@);
        }
    }
}

pub proof fn lemma_changed_of(
    from: Seq<(String, EntryFingerprint)>,
    to: Seq<(String, EntryFingerprint)>,
    k: Seq<char>,
)
    requires
        unique_keys(to),
    ensures
        changed_of(from, to).contains(k) <==> key_index(to, k) >= 0 && (key_index(from, k) < 0
            || from[key_index(from, k)].1@ != to[key_index(to, k)].1@),
    decreases to.len(),
{
    if to.len() > 0 {
        let p = to.drop_last();
        assert(unique_keys(p));
        lemma_changed_of(from, p, k);
        lemma_key_index(to, k);
        lemma_key_index(p, k);
        let rest = changed_of(from, p);
        if key_index(p, k) >= 0 {
            assert(to[key_index(p, k)].0@ == k);
            assert(to.last().0@ != k);
            assert(key_index(to, k) == key_index(p, k));
            assert(to[key_index(to, k)] == p[key_index(p, k)]);
        }
        if rest.contains(k) {
            let w = choose|w: int| 0 <= w < rest.len() && rest[w] == k;
            assert(changed_of(from, to)[w] == k);
        }
        let lk = to.last().0@;
        let i = key_index(from, lk);
        if i < 0 || from[i].1@ != to.last().1@ {
            assert(changed_of(from, to).last() == lk);
        }
    }
}

/// Deleting the removed paths from the old payload and laying the changed
/// entries of the new payload over it gives exactly the new payload.
pub proof fn law_delta_reconstructs_target(
    from: Seq<(String, EntryFingerprint)>,
    to: Seq<(String, EntryFingerprint)>,
)
    requires
        unique_keys(to),
    ensures
        apply_overlay(
            entry_map(from),
            removed_of(from, to),
            entry_map(to).restrict(changed_of(from, to).to_set()),
        ) == entry_map(to),
{
    let result = apply_overlay(
        entry_map(from),
        removed_of(from, to),
        entry_map(to).restrict(changed_of(from, to).to_set()),
    );
    assert forall|k: Seq<char>| #[trigger] result.contains_key(k) == entry_map(to).contains_key(k) by {
        lemma_removed_of(from, to, k);
        lemma_changed_of(from, to, k);
        lemma_key_index(from, k);
        lemma_key_index(to, k);
    }
    assert forall|k: Seq<char>| #[trigger] result.contains_key(k) implies result[k] == entry_map(to)[k] by {
        lemma_removed_of(from, to, k);
        lemma_changed_of(from, to, k);
        lemma_key_index(from, k);
        lemma_key_index(to, k);
    }
    assert(result =~= entry_map(to));
}

/// The metadata of a delta archive: which package it upgrades, between
/// which versions, the checksums of both package archives, and the paths
/// the upgrade deletes.
pub struct DeltaManifest {
    pub name: String,
    pub from_version: String,
    pub to_version: String,
    pub arch: Architecture,
    pub base_checksum: String,
    pub target_checksum: String,
    pub removed_paths: Vec<String>,
}

/// A staged delta archive: its metadata, the manifest of the package it
/// produces, and where its overlay payload was copied.
pub struct DeltaFile {
    pub delta: DeltaManifest,
    pub manifest: PackageManifest,
    pub overlay_path: String,
}

/// Why a delta could not be built or applied.
#[derive(Debug)]
pub enum DeltaError {
    /// The two packages have different names.
    NameMismatch,
    /// The two packages target different architectures.
    ArchMismatch,
    /// The archive has no `delta.yml`.
    MissingDeltaMetadata,
    /// The archive has no `manifest.yml`.
    MissingManifest,
    /// The archive has no `delta-data.tar.zst`.
    MissingOverlay,
    /// A removed path is absolute or leaves the payload.
    InvalidRemovedPath(PathError),
}

/// `<name>-<from>-<to>-<arch>.delta.parcel`.
pub open spec fn delta_file_name_of(
    name: Seq<char>,
    from_version: Seq<char>,
    to_version: Seq<char>,
    a: Architecture,
) -> Seq<char> {
    name + seq!['-'] + from_version + seq!['-'] + to_version + seq!['-'] + arch::arch_name(a)
        + ".delta.parcel"@
}

/// The file name of the delta archive between two versions of a package.
pub fn delta_file_name(name: &str, from_version: &str, to_version: &str, a: Architecture) -> (r:
    String)
    ensures
        r@ == delta_file_name_of(name@, from_version@, to_version@, a),
{
    let mut r = String::new();
    text::push_str(&mut r, name);
    text::push_char(&mut r, '-');
    text::push_str(&mut r, from_version);
    text::push_char(&mut r, '-');
    text::push_str(&mut r, to_version);
    text::push_char(&mut r, '-');
    let n = a.name_chars();
    text::push_chars(&mut r, &n);
    text::push_str(&mut r, ".delta.parcel");
    assert(r@ =~= delta_file_name_of(name@, from_version@, to_version@, a));
    r
}

/// A delta joins two builds of one package for one architecture.
pub fn check_delta_ends(from: &PackageManifest, to: &PackageManifest) -> (r: Result<(), DeltaError>)
    ensures
        from.name@ != to.name@ ==> r matches Err(DeltaError::NameMismatch),
        from.name@ == to.name@ && from.arch != to.arch ==> r matches Err(DeltaError::ArchMismatch),
        r is Ok <==> from.name@ == to.name@ && from.arch == to.arch,
{
    if !text::str_eq(from.name.as_str(), to.name.as_str()) {
        return Err(DeltaError::NameMismatch);
    }
    if from.arch != to.arch {
        return Err(DeltaError::ArchMismatch);
    }
    Ok(())
}

/// The metadata of the delta from `from` to `to`: named after the target
/// package, for its architecture, deleting the paths `changes` removes.
pub fn delta_manifest(
    from: &PackageManifest,
    to: &PackageManifest,
    changes: DeltaChanges,
    base_checksum: String,
    target_checksum: String,
) -> (r: DeltaManifest)
    ensures
        r.name@ == to.name@,
        r.from_version@ == from.version@,
        r.to_version@ == to.version@,
        r.arch == to.arch,
        r.base_checksum == base_checksum,
        r.target_checksum == target_checksum,
        r.removed_paths == changes.removed_paths,
{
    DeltaManifest {
        name: to.name.clone(),
        from_version: from.version.clone(),
        to_version: to.version.clone(),
        arch: to.arch,
        base_checksum,
        target_checksum,
        removed_paths: changes.removed_paths,
    }
}

/// The part a member of a delta archive plays.
#[derive(Debug, PartialEq, Eq, Structural)]
pub enum DeltaMember {
    /// `delta.yml`.
    Metadata,
    /// `manifest.yml`.
    Manifest,
    /// `delta-data.tar.zst`.
    Overlay,
    /// Anything else, which is skipped.
    Other,
}

/// Which part a member of a delta archive plays, by its path.
pub fn delta_member(path: &str) -> (r: DeltaMember)
    ensures
        r == (if path@ == "delta.yml"@ {
            DeltaMember::Metadata
        } else if path@ == "manifest.yml"@ {
            DeltaMember::Manifest
        } else if path@ == "delta-data.tar.zst"@ {
            DeltaMember::Overlay
        } else {
            DeltaMember::Other
        }),
{
    if text::str_eq(path, "delta.yml") {
        DeltaMember::Metadata
    } else if text::str_eq(path, "manifest.yml") {
        DeltaMember::Manifest
    } else if text::str_eq(path, "delta-data.tar.zst") {
        DeltaMember::Overlay
    } else {
        DeltaMember::Other
    }
}

/// Assembles a staged delta from what was found in its archive: refused
/// without metadata, then without a manifest, then without an overlay.
pub fn finish_staged_delta(
    delta: Option<DeltaManifest>,
    manifest: Option<PackageManifest>,
    overlay_written: bool,
    overlay_path: String,
) -> (r: Result<DeltaFile, DeltaError>)
    ensures
        delta is None ==> r matches Err(DeltaError::MissingDeltaMetadata),
        delta is Some && manifest is None ==> r matches Err(DeltaError::MissingManifest),
        delta is Some && manifest is Some && !overlay_written ==> r matches Err(
            DeltaError::MissingOverlay,
        ),
        r is Ok <==> delta is Some && manifest is Some && overlay_written,
        r matches Ok(f) ==> Some(f.delta) == delta && Some(f.manifest) == manifest && f.overlay_path
            == overlay_path,
{
    let delta = match delta {
        Some(d) => d,
        None => return Err(DeltaError::MissingDeltaMetadata),
    };
    let manifest = match manifest {
        Some(m) => m,
        None => return Err(DeltaError::MissingManifest),
    };
    if !overlay_written {
        return Err(DeltaError::MissingOverlay);
    }
    Ok(DeltaFile { delta, manifest, overlay_path })
}

/// Where a removed path lies under the output directory.
pub open spec fn removal_target_of(output_dir: Seq<char>, removed: Seq<char>) -> Seq<char> {
    fspath::path_join(
        output_dir,
        fspath::join_slash(fspath::normal_names(fspath::components(removed))),
    )
}

/// Index of the first removed path that is absolute or leaves the
/// payload, or -1.
pub open spec fn first_bad_removal(removed: Seq<String>) -> int
    decreases removed.len(),
{
    if removed.len() == 0 {
        -1
    } else {
        let k = first_bad_removal(removed.drop_last());
        if k >= 0 {
            k
        } else if fspath::escapes(fspath::components(removed.last()@)) {
            removed.len() - 1
        } else {
            -1
        }
    }
}

pub proof fn lemma_first_bad_removal(removed: Seq<String>)
    ensures
        -1 <= first_bad_removal(removed) < removed.len(),
        first_bad_removal(removed) >= 0 ==> fspath::escapes(
            fspath::components(removed[first_bad_removal(removed)]@),
        ),
        first_bad_removal(removed) < 0 ==> forall|i: int|
            0 <= i < removed.len() ==> !fspath::escapes(fspath::components(#[trigger] removed[i]@)),
    decreases removed.len(),
{
    if removed.len() > 0 {
        lemma_first_bad_removal(removed.drop_last());
        assert forall|i: int| 0 <= i < removed.len() - 1 implies removed.drop_last()[i] == removed[i] by {}
    }
}

/// The paths under `output_dir` that applying a delta deletes, one per
/// removed path; refused at the first removed path that is absolute or
/// leaves the payload.
pub fn removal_targets(output_dir: &str, removed: &Vec<String>) -> (r: Result<Vec<String>, DeltaError>)
    ensures
        r is Ok <==> first_bad_removal(removed@) < 0,
        r matches Ok(v) ==> v@.len() == removed@.len() && forall|i: int|
            0 <= i < v@.len() ==> #[trigger] v@[i]@ == removal_target_of(output_dir@, removed@[i]@),
        r matches Err(e) ==> e matches DeltaError::InvalidRemovedPath(pe) && (pe == PathError::Absolute
            <==> fspath::is_absolute(removed@[first_bad_removal(removed@)]@)),
{
    let mut v: Vec<String> = Vec::new();
    let mut i: usize = 0;
    while i < removed.len()
        invariant
            i <= removed.len(),
            first_bad_removal(removed@.subrange(0, i as int)) < 0,
            v@.len() == i,
            forall|k: int| 0 <= k < i ==> #[trigger] v@[k]@ == removal_target_of(output_dir@, removed@[k]@),
        decreases removed.len() - i,
    {
        proof {
            assert(removed@.subrange(0, i + 1).drop_last() =~= removed@.subrange(0, i as int));
        }
        match crate::artifact::normalize_archive_path(removed[i].as_str()) {
            Ok(rel) => {
                v.push(fspath::join(output_dir, rel.as_str()));
            },
            Err(e) => {
                proof {
                    lemma_first_bad_prefix(removed@, i + 1);
                }
                return Err(DeltaError::InvalidRemovedPath(e));
            },
        }
        i = i + 1;
    }
    assert(removed@.subrange(0, i as int) =~= removed@);
    Ok(v)
}

/// The first bad path of a prefix is the first bad path of the whole.
pub proof fn lemma_first_bad_prefix(removed: Seq<String>, n: int)
    requires
        0 <= n <= removed.len(),
        first_bad_removal(removed.subrange(0, n)) >= 0,
    ensures
        first_bad_removal(removed) == first_bad_removal(removed.subrange(0, n)),
    decreases removed.len() - n,
{
    if n < removed.len() {
        assert(removed.subrange(0, n + 1).drop_last() =~= removed.subrange(0, n));
        lemma_first_bad_prefix(removed, n + 1);
    } else {
        assert(removed.subrange(0, n) =~= removed);
    }
}

} // verus!
