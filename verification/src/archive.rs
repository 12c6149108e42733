//! Checks on the paths found in `.parcel` payloads.

use vstd::prelude::*;

use crate::fspath::{self, PartView};
use crate::text;

verus! {

/// Why a path was refused.
#[derive(Debug, PartialEq, Eq, Structural)]
pub enum PathError {
    /// The path is empty.
    Empty,
    /// The path starts at the root.
    Absolute,
    /// The path contains `..`.
    EscapesRoot,
    /// The path is absolute or contains `..`.
    NotRelative,
}

/// What `validate_relative_path` decides for a path.
pub open spec fn relative_path_check(s: Seq<char>) -> Result<(), PathError> {
    if s.len() == 0 {
        Err(PathError::Empty)
    } else if fspath::is_absolute(s) {
        Err(PathError::Absolute)
    } else if fspath::escapes(fspath::components(s)) {
        Err(PathError::EscapesRoot)
    } else {
        Ok(())
    }
}

/// A root component can only come first, and only in an absolute path.
pub proof fn lemma_root_first(s: Seq<char>, i: int)
    requires
        0 <= i < fspath::components(s).len(),
        fspath::components(s)[i] is RootDir,
    ensures
        i == 0,
        fspath::is_absolute(s),
{
    let pieces = text::split_on(s, '/');
    lemma_body_no_root(pieces);
    let lead = if fspath::is_absolute(s) {
        seq![PartView::RootDir]
    } else if pieces[0] == fspath::dot() {
        seq![PartView::CurDir]
    } else {
        Seq::empty()
    };
    if i >= lead.len() {
        assert(fspath::body_parts(pieces)[i - lead.len()] is RootDir);
    }
}

pub proof fn lemma_body_no_root(pieces: Seq<Seq<char>>)
    ensures
        forall|k: int| 0 <= k < fspath::body_parts(pieces).len() ==> !(#[trigger] fspath::body_parts(pieces)[k] is RootDir),
    decreases pieces.len(),
{
    if pieces.len() > 0 {
        lemma_body_no_root(pieces.drop_last());
    }
}

/// The first component that escapes is the root exactly when the path is
/// absolute.
pub proof fn lemma_first_escape_pub(s: Seq<char>, e: PartView)
    requires
        exists|i: int| 0 <= i < fspath::components(s).len() && fspath::components(s)[i] == e && (e is RootDir
            || e is ParentDir) && !fspath::escapes(fspath::components(s).subrange(0, i)),
    ensures
        e is RootDir <==> fspath::is_absolute(s),
{
    lemma_first_escape(s, e);
}

proof fn lemma_first_escape(s: Seq<char>, e: PartView)
    requires
        exists|i: int| 0 <= i < fspath::components(s).len() && fspath::components(s)[i] == e && (e is RootDir
            || e is ParentDir) && !fspath::escapes(fspath::components(s).subrange(0, i)),
    ensures
        e is RootDir <==> fspath::is_absolute(s),
{
    let c = fspath::components(s);
    let i = choose|i: int| 0 <= i < c.len() && c[i] == e && (e is RootDir || e is ParentDir) && !fspath::escapes(c.subrange(0, i));
    if e is RootDir {
        lemma_root_first(s, i);
    }
    if fspath::is_absolute(s) {
        lemma_split_nonempty_root(s);
        if i > 0 {
            assert(c.subrange(0, i)[0] is RootDir);
        }
    }
}

proof fn lemma_split_nonempty_root(s: Seq<char>)
    requires
        fspath::is_absolute(s),
    ensures
        fspath::components(s).len() > 0,
        fspath::components(s)[0] is RootDir,
{
    fspath::lemma_split_on_nonempty(s, '/');
}

/// Accepts a non-empty relative path without `..` components; refuses an
/// empty path, an absolute one, or one that contains `..`.
pub fn validate_relative_path(path: &str) -> (r: Result<(), PathError>)
    ensures
        r == relative_path_check(path@),
{
    let p = text::chars_of(path);
    if p.len() == 0 {
        return Err(PathError::Empty);
    }
    let parts = fspath::path_components(&p);
    match fspath::join_normal_parts(&parts) {
        Ok(_) => {
            proof {
                if fspath::is_absolute(path@) {
                    lemma_split_nonempty_root(path@);
                    assert(fspath::escapes(fspath::components(path@)));
                }
            }
            Ok(())
        },
        Err(e) => {
            proof {
                lemma_first_escape(path@, e);
            }
            match e {
                PartView::RootDir => Err(PathError::Absolute),
                _ => Err(PathError::EscapesRoot),
            }
        },
    }
}

/// The normal components of a relative path joined with `/` (a leading
/// `.` and repeated separators vanish); refused when the path is absolute
/// or contains `..`.
pub fn path_to_unix(path: &str) -> (r: Result<String, PathError>)
    ensures
        r is Err <==> fspath::escapes(fspath::components(path@)),
        r matches Err(e) ==> e == PathError::NotRelative,
        r matches Ok(s) ==> s@ == fspath::join_slash(fspath::normal_names(fspath::components(path@))),
{
    let p = text::chars_of(path);
    let parts = fspath::path_components(&p);
    match fspath::join_normal_parts(&parts) {
        Ok(v) => Ok(text::string_of(&v)),
        Err(_) => Err(PathError::NotRelative),
    }
}

/// Metadata and payload location of a package archive read from disk.
pub struct ParsedParcelArchive {
    pub manifest: crate::models::Manifest,
    pub data_path: String,
    pub compression: crate::models::Compression,
}

/// The part a member of a package archive plays.
#[derive(Debug, PartialEq, Eq, Structural)]
pub enum ParcelMember {
    /// `manifest.yml`.
    Manifest,
    /// The payload, `data.tar.zst` or `data.tar.xz`.
    Payload(crate::models::Compression),
    /// Anything else, which is skipped.
    Other,
}

/// Which part a member of a package archive plays; paths are compared as
/// paths, component by component.
pub fn parcel_member(path: &str) -> (r: ParcelMember)
    ensures
        r == (if fspath::components(path@) == fspath::components("manifest.yml"@) {
            ParcelMember::Manifest
        } else if fspath::components(path@) == fspath::components("data.tar.zst"@) {
            ParcelMember::Payload(crate::models::Compression::Zstd)
        } else if fspath::components(path@) == fspath::components("data.tar.xz"@) {
            ParcelMember::Payload(crate::models::Compression::Xz)
        } else {
            ParcelMember::Other
        }),
{
    if fspath::same_path(path, "manifest.yml") {
        ParcelMember::Manifest
    } else if fspath::same_path(path, "data.tar.zst") {
        ParcelMember::Payload(crate::models::Compression::Zstd)
    } else if fspath::same_path(path, "data.tar.xz") {
        ParcelMember::Payload(crate::models::Compression::Xz)
    } else {
        ParcelMember::Other
    }
}

/// Where a payload of the given compression is copied in the temporary
/// directory: `data.tar.zst` or `data.tar.xz` under it.
pub fn payload_copy_path(temp_dir: &str, compression: crate::models::Compression) -> (r: String)
    ensures
        r@ == fspath::path_join(
            temp_dir@,
            match compression {
                crate::models::Compression::Zstd => "data.tar.zst"@,
                crate::models::Compression::Xz => "data.tar.xz"@,
            },
        ),
{
    match compression {
        crate::models::Compression::Zstd => fspath::join(temp_dir, "data.tar.zst"),
        crate::models::Compression::Xz => fspath::join(temp_dir, "data.tar.xz"),
    }
}

/// A package archive that lacks a part.
#[derive(Debug, PartialEq, Eq, Structural)]
pub enum ArchiveError {
    /// No `manifest.yml`.
    MissingManifest,
    /// Neither `data.tar.zst` nor `data.tar.xz`.
    MissingPayload,
}

/// Assembles what was read from a package archive: its manifest and the
/// last payload copied, with its compression. Refused without a manifest,
/// then without a payload.
pub fn finish_parcel_archive(
    manifest: Option<crate::models::Manifest>,
    payload: Option<(String, crate::models::Compression)>,
) -> (r: Result<ParsedParcelArchive, ArchiveError>)
    ensures
        manifest is None ==> r == Err::<ParsedParcelArchive, ArchiveError>(ArchiveError::MissingManifest),
        manifest is Some && payload is None ==> r == Err::<ParsedParcelArchive, ArchiveError>(
            ArchiveError::MissingPayload,
        ),
        r matches Ok(a) ==> Some(a.manifest) == manifest && payload == Some((a.data_path, a.compression)),
        r is Ok <==> manifest is Some && payload is Some,
{
    let manifest = match manifest {
        Some(m) => m,
        None => return Err(ArchiveError::MissingManifest),
    };
    match payload {
        Some((data_path, compression)) => Ok(ParsedParcelArchive { manifest, data_path, compression }),
        None => Err(ArchiveError::MissingPayload),
    }
}

} // verus!
