//! The commands Parcel accepts, as plain data.

use vstd::prelude::*;

verus! {

/// A parsed command line.
pub struct Cli {
    pub command: Command,
}

/// Parcel's subcommands.
pub enum Command {
    /// Manage configured package repositories.
    Repo { command: RepoCommand },
    /// Download and cache repository indexes.
    Update,
    /// Search cached repositories for packages.
    Search(SearchArgs),
    /// Show package details from cached repositories.
    Info(InfoArgs),
    /// Install a package by name or from a local .parcel file.
    Install(InstallArgs),
    /// Upgrade one package or every installed package.
    Upgrade(UpgradeArgs),
    /// List installed packages.
    List,
    /// Remove a package from the system.
    Remove(RemoveArgs),
    /// Build a .parcel archive from a package build manifest.
    Build(BuildArgs),
    /// Build a .delta.parcel overlay between two .parcel archives.
    BuildDelta(BuildDeltaArgs),
}

/// `parcel repo` subcommands.
pub enum RepoCommand {
    /// Add a repository.
    Add(RepoAddArgs),
    /// Remove a repository.
    Remove(RepoRemoveArgs),
    /// Generate a repository index from built artifacts.
    Index(RepoIndexArgs),
}

pub struct RepoAddArgs {
    pub name: String,
    pub url: String,
}

pub struct RepoRemoveArgs {
    pub name: String,
}

pub struct SearchArgs {
    pub query: String,
}

pub struct InfoArgs {
    pub package: String,
}

pub struct InstallArgs {
    /// Package name or path to a .parcel archive file.
    pub package: String,
    /// Exact version to install when resolving from repositories.
    pub version: Option<String>,
}

pub struct UpgradeArgs {
    /// Upgrade only the named package; every installed package when absent.
    pub package: Option<String>,
}

pub struct RemoveArgs {
    pub package: String,
}

pub struct BuildArgs {
    /// Path to a package directory or build manifest YAML file.
    pub manifest: String,
    /// Package release number appended to the manifest version.
    pub release: Option<u64>,
    /// Directory where Parcel creates its temporary build workspace.
    pub build_dir: String,
    /// Delete the build directory before building.
    pub clear: bool,
}

pub struct BuildDeltaArgs {
    pub from: String,
    pub to: String,
    pub output_dir: Option<String>,
}

pub struct RepoIndexArgs {
    pub artifacts_dir: String,
    pub base_url: String,
    pub output: Option<String>,
}

} // verus!
