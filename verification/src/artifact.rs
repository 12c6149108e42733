//! Package archive naming and manifest checks.

use vstd::prelude::*;

use crate::archive::PathError;
use crate::fspath::{self, PartView};
use crate::parcel_manifest::PackageManifest;
use crate::text;
use crate::utils::arch::{self, Architecture};

verus! {

/// A package staged from an archive: its manifest and where its payload
/// was copied.
pub struct PackageFile {
    pub manifest: PackageManifest,
    pub payload_path: String,
}

/// The normal components of an archive path joined with `/`; refused when
/// the path is absolute or contains `..`. An empty path gives an empty
/// result.
pub fn normalize_archive_path(path: &str) -> (r: Result<String, PathError>)
    ensures
        r matches Err(e) ==> (e == PathError::Absolute <==> fspath::is_absolute(path@)),
        r matches Err(e) ==> (e == PathError::Absolute || e == PathError::EscapesRoot),
        r is Err <==> fspath::escapes(fspath::components(path@)),
        r matches Ok(s) ==> s@ == fspath::join_slash(fspath::normal_names(fspath::components(path@))),
{
    let p = text::chars_of(path);
    let parts = fspath::path_components(&p);
    match fspath::join_normal_parts(&parts) {
        Ok(v) => Ok(text::string_of(&v)),
        Err(e) => {
            proof {
                crate::archive::lemma_first_escape_pub(path@, e);
            }
            match e {
                PartView::RootDir => Err(PathError::Absolute),
                _ => Err(PathError::EscapesRoot),
            }
        },
    }
}

/// Normalizing an archive path that was already normalized gives it back:
/// when `path` is accepted with result `q`, `q` is accepted too, with
/// result `q`.
pub proof fn law_normalize_archive_path_idempotent(path: Seq<char>)
    requires
        !fspath::escapes(fspath::components(path)),
    ensures
        ({
            let q = fspath::join_slash(fspath::normal_names(fspath::components(path)));
            &&& !fspath::escapes(fspath::components(q))
            &&& fspath::join_slash(fspath::normal_names(fspath::components(q))) == q
        }),
{
    fspath::lemma_normal_join_stable(path);
}

/// A package built for another architecture than the host's: which
/// package, the architecture it targets, and the host's.
#[derive(Debug)]
pub struct ForeignArchitecture {
    pub name: String,
    pub version: String,
    pub package: Architecture,
    pub host: Architecture,
}

/// Accepts a manifest only when it targets the host architecture `host`.
pub fn validate_manifest_arch(manifest: &PackageManifest, host: Architecture) -> (r: Result<(), ForeignArchitecture>)
    ensures
        r is Ok <==> manifest.arch == host,
        r matches Err(e) ==> e.name@ == manifest.name@ && e.version@ == manifest.version@ && e.package == manifest.arch
            && e.host == host,
{
    if manifest.arch != host {
        return Err(
            ForeignArchitecture {
                name: text::string_of(&text::chars_of(manifest.name.as_str())),
                version: text::string_of(&text::chars_of(manifest.version.as_str())),
                package: manifest.arch,
                host,
            },
        );
    }
    Ok(())
}

/// `<name>-<version>-<arch>.parcel`.
pub open spec fn package_file_name_of(name: Seq<char>, version: Seq<char>, a: Architecture) -> Seq<char> {
    name + seq!['-'] + version + seq!['-'] + arch::arch_name(a) + seq!['.', 'p', 'a', 'r', 'c', 'e', 'l']
}

/// The file name of a package archive.
pub fn package_file_name(name: &str, version: &str, arch: Architecture) -> (r: String)
    ensures
        r@ == package_file_name_of(name@, version@, arch),
{
    let mut r = String::new();
    text::push_str(&mut r, name);
    text::push_char(&mut r, '-');
    text::push_str(&mut r, version);
    text::push_char(&mut r, '-');
    let a = arch.name_chars();
    text::push_chars(&mut r, &a);
    let ext: Vec<char> = vec!['.', 'p', 'a', 'r', 'c', 'e', 'l'];
    text::push_chars(&mut r, &ext);
    assert(r@ =~= package_file_name_of(name@, version@, arch));
    r
}

/// The part a member of a package archive plays when it is staged.
#[derive(Debug, PartialEq, Eq, Structural)]
pub enum PackageMember {
    /// `manifest.yml`.
    Manifest,
    /// `data.tar.zst`.
    Payload,
    /// Anything else, which is skipped.
    Other,
}

/// Which part a member plays, by its path text.
pub fn package_member(path: &str) -> (r: PackageMember)
    ensures
        r == (if path@ == "manifest.yml"@ {
            PackageMember::Manifest
        } else if path@ == "data.tar.zst"@ {
            PackageMember::Payload
        } else {
            PackageMember::Other
        }),
{
    if text::str_eq(path, "manifest.yml") {
        PackageMember::Manifest
    } else if text::str_eq(path, "data.tar.zst") {
        PackageMember::Payload
    } else {
        PackageMember::Other
    }
}

/// A package archive that lacks a part.
#[derive(Debug, PartialEq, Eq, Structural)]
pub enum StageError {
    /// No `manifest.yml`.
    MissingManifest,
    /// No `data.tar.zst`.
    MissingPayload,
}

/// Assembles a staged package from what was found in its archive: refused
/// without a manifest, then without a payload.
pub fn finish_staged_package(manifest: Option<PackageManifest>, payload_written: bool, payload_path: String) -> (r:
    Result<PackageFile, StageError>)
    ensures
        manifest is None ==> r == Err::<PackageFile, StageError>(StageError::MissingManifest),
        manifest is Some && !payload_written ==> r == Err::<PackageFile, StageError>(StageError::MissingPayload),
        r is Ok <==> manifest is Some && payload_written,
        r matches Ok(f) ==> Some(f.manifest) == manifest && f.payload_path == payload_path,
{
    let manifest = match manifest {
        Some(m) => m,
        None => return Err(StageError::MissingManifest),
    };
    if !payload_written {
        return Err(StageError::MissingPayload);
    }
    Ok(PackageFile { manifest, payload_path })
}

/// What to do with one entry of a payload being unpacked.
#[derive(Debug)]
pub enum PayloadEntry {
    /// The entry names the payload root itself; it is skipped.
    Skip,
    /// Unpack it at this relative path.
    Unpack(String),
}

/// Why a payload entry was refused.
#[derive(Debug, PartialEq, Eq, Structural)]
pub enum PayloadError {
    /// The entry's path is absolute or leaves the payload.
    BadPath(PathError),
    /// The entry is a hard link.
    HardLink,
}

/// Decides what to do with a payload entry: its path must stay inside the
/// payload; an entry for the root itself is skipped; hard links are
/// refused.
pub fn payload_entry(path: &str, hard_link: bool) -> (r: Result<PayloadEntry, PayloadError>)
    ensures
        fspath::escapes(fspath::components(path@)) ==> r matches Err(PayloadError::BadPath(_)),
        !fspath::escapes(fspath::components(path@)) ==> {
            let rel = fspath::join_slash(fspath::normal_names(fspath::components(path@)));
            if rel.len() == 0 {
                r matches Ok(PayloadEntry::Skip)
            } else if hard_link {
                r == Err::<PayloadEntry, PayloadError>(PayloadError::HardLink)
            } else {
                r matches Ok(PayloadEntry::Unpack(p)) && p@ == rel
            }
        },
{
    let rel = match normalize_archive_path(path) {
        Ok(p) => p,
        Err(e) => return Err(PayloadError::BadPath(e)),
    };
    if rel.as_str().unicode_len() == 0 {
        return Ok(PayloadEntry::Skip);
    }
    if hard_link {
        return Err(PayloadError::HardLink);
    }
    Ok(PayloadEntry::Unpack(rel))
}

} // verus!
