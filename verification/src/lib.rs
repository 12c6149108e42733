//! Parcel: verified core logic of a user-space Linux package manager.

pub mod text;
pub mod resolver;
pub mod utils;
pub mod repo;
pub mod version;
pub mod delta;
pub mod fspath;
pub mod parcel_manifest;
pub mod archive;
pub mod artifact;
pub mod models;
pub mod layout;
pub mod paths;
pub mod actions;
pub mod installer;
pub mod keyed;
pub mod repositories;
pub mod receipt;
pub mod install;
pub mod scan;
pub mod packages;
pub mod storage;
pub mod cli;
pub mod build_manifest;
pub mod tree;
