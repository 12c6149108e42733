//! Filesystem locations under a home directory.

use vstd::prelude::*;

use crate::fspath::{join, path_join};

verus! {

/// Filesystem locations required by Parcel.
pub struct Paths {
    pub home: String,
    pub apps_dir: String,
    pub database: String,
    pub remotes: String,
    pub indexes_dir: String,
}

impl Paths {
    /// The locations for a given home directory: everything lives under
    /// `<home>/.local/share/parcel`.
    pub fn from_home(home: String) -> (r: Self)
        ensures
            r.home@ == home@,
            r.apps_dir@ == path_join(path_join(home@, ".local/share/parcel"@), "apps"@),
            r.database@ == path_join(path_join(home@, ".local/share/parcel"@), "parcel.db"@),
            r.remotes@ == path_join(path_join(home@, ".local/share/parcel"@), "remotes.json"@),
            r.indexes_dir@ == path_join(path_join(home@, ".local/share/parcel"@), "indexes"@),
    {
        let parcel_dir = join(home.as_str(), ".local/share/parcel");
        Paths {
            apps_dir: join(parcel_dir.as_str(), "apps"),
            database: join(parcel_dir.as_str(), "parcel.db"),
            remotes: join(parcel_dir.as_str(), "remotes.json"),
            indexes_dir: join(parcel_dir.as_str(), "indexes"),
            home,
        }
    }

    /// `<home>/.local/bin`.
    pub fn local_bin(&self) -> (r: String)
        ensures
            r@ == path_join(self.home@, ".local/bin"@),
    {
        join(self.home.as_str(), ".local/bin")
    }

    /// `<home>/.local/share/applications`.
    pub fn applications(&self) -> (r: String)
        ensures
            r@ == path_join(self.home@, ".local/share/applications"@),
    {
        join(self.home.as_str(), ".local/share/applications")
    }

    /// `<home>/.local/share/icons`.
    pub fn icons(&self) -> (r: String)
        ensures
            r@ == path_join(self.home@, ".local/share/icons"@),
    {
        join(self.home.as_str(), ".local/share/icons")
    }

    /// `<home>/.local/share/man`.
    pub fn man(&self) -> (r: String)
        ensures
            r@ == path_join(self.home@, ".local/share/man"@),
    {
        join(self.home.as_str(), ".local/share/man")
    }
}

impl Paths {
    /// The locations for the home directory `HOME` names; refused when it
    /// is not set.
    pub fn discover(home: Option<String>) -> (r: Result<Paths, crate::layout::NoHome>)
        ensures
            home is None ==> r is Err,
            home matches Some(h) ==> r matches Ok(p) && p.home@ == h@ && p.apps_dir@ == path_join(
                path_join(h@, ".local/share/parcel"@),
                "apps"@,
            ) && p.database@ == path_join(path_join(h@, ".local/share/parcel"@), "parcel.db"@)
                && p.remotes@ == path_join(path_join(h@, ".local/share/parcel"@), "remotes.json"@)
                && p.indexes_dir@ == path_join(path_join(h@, ".local/share/parcel"@), "indexes"@),
    {
        match home {
            Some(h) => Ok(Paths::from_home(h)),
            None => Err(crate::layout::NoHome),
        }
    }
}

} // verus!
