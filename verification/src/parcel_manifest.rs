//! The manifest stored inside a `.parcel` archive.

use vstd::prelude::*;

use crate::utils::arch::Architecture;

verus! {

/// Metadata of a package archive.
pub struct PackageManifest {
    pub name: String,
    pub version: String,
    pub arch: Architecture,
    pub description: String,
    pub homepage: Option<String>,
    pub actions: Vec<InstallAction>,
}

/// One payload file to expose after installation.
pub struct InstallAction {
    pub source: String,
    pub target: InstallTarget,
    pub kind: InstallActionKind,
}

/// How a payload file is exposed.
#[derive(Debug, Clone, Copy, PartialEq, Eq, Structural)]
pub enum InstallActionKind {
    Link,
    Copy,
}

/// Where a payload file is exposed.
#[derive(Debug, Clone, Copy, PartialEq, Eq, Structural)]
pub enum InstallTarget {
    Bin,
    Applications,
    Desktop,
    Icons,
    Man,
}

/// `desktop` is another name for `applications`.
pub open spec fn canonical_target(t: InstallTarget) -> InstallTarget {
    match t {
        InstallTarget::Desktop => InstallTarget::Applications,
        other => other,
    }
}

/// The category name of a target.
pub open spec fn target_name(t: InstallTarget) -> Seq<char> {
    match canonical_target(t) {
        InstallTarget::Bin => "bin"@,
        InstallTarget::Icons => "icons"@,
        InstallTarget::Man => "man"@,
        _ => "applications"@,
    }
}

impl InstallTarget {
    /// The target with `Desktop` folded into `Applications`.
    pub fn canonical(self) -> (r: Self)
        ensures
            r == canonical_target(self),
            r != InstallTarget::Desktop,
    {
        match self {
            InstallTarget::Desktop => InstallTarget::Applications,
            other => other,
        }
    }

    /// The category name: `bin`, `applications` (also for `desktop`),
    /// `icons` or `man`.
    pub fn as_str(self) -> (r: &'static str)
        ensures
            r@ == target_name(self),
    {
        match self.canonical() {
            InstallTarget::Bin => "bin",
            InstallTarget::Applications => "applications",
            InstallTarget::Desktop => "applications",
            InstallTarget::Icons => "icons",
            InstallTarget::Man => "man",
        }
    }
}

/// Folding `Desktop` into `Applications` twice changes nothing more.
pub proof fn law_canonical_idempotent(t: InstallTarget)
    ensures
        canonical_target(canonical_target(t)) == canonical_target(t),
        target_name(canonical_target(t)) == target_name(t),
{
}

} // verus!
