//! Data models for package metadata, local state and repositories.
//! Keyed collections are lists of `(key, value)` pairs with unique keys in
//! ascending key order.

use vstd::prelude::*;

verus! {

/// Metadata stored in a `.parcel` archive.
pub struct Manifest {
    pub name: String,
    pub version: String,
    pub arch: String,
    pub description: String,
    pub homepage: String,
    pub actions: Vec<Action>,
}

/// A file action requested by package metadata.
pub struct Action {
    pub source: String,
    pub target: String,
    pub action_type: ActionType,
}

/// Supported desktop integration action kinds.
#[derive(Debug, Clone, Copy, PartialEq, Eq, Structural)]
pub enum ActionType {
    Link,
    Copy,
}

/// The package database: installed packages keyed by name.
pub struct PackageDatabase {
    pub packages: Vec<(String, InstalledPackage)>,
}

/// A package entry persisted in the local database.
pub struct InstalledPackage {
    pub name: String,
    pub version: String,
    pub arch: String,
    pub install_path: String,
    pub source_repo: String,
    pub installed_at: String,
    pub actions: Vec<ResolvedAction>,
    pub files: Vec<String>,
}

/// An action with its absolute destination path resolved at install time.
pub struct ResolvedAction {
    pub source: String,
    pub target: String,
    pub action_type: ActionType,
    pub resolved_target: String,
}

/// Remote configuration: remotes keyed by name.
pub struct RemoteConfig {
    pub remotes: Vec<(String, Remote)>,
}

/// A configured remote and the URL of its index.
pub struct Remote {
    pub url: String,
    pub index_url: String,
}

/// Decoded package index of a remote.
pub struct RepositoryIndex {
    pub download_template: String,
    pub _delta_template: Option<String>,
    pub packages: Vec<(String, IndexPackage)>,
}

/// A package entry of a remote index: versions keyed by version text,
/// each with the checksum of its archive.
pub struct IndexPackage {
    pub description: String,
    pub homepage: Option<String>,
    pub versions: Vec<(String, String)>,
    pub _delta: Vec<(String, String)>,
}

/// Supported payload compression algorithms.
#[derive(Debug, Clone, Copy, PartialEq, Eq, Structural)]
pub enum Compression {
    Zstd,
    Xz,
}

} // verus!
