//! Where Parcel keeps its files under the XDG base directories.

use vstd::prelude::*;

use crate::fspath::{self, concat, join, path_join};
use crate::text;

verus! {

/// The XDG base directories Parcel works under.
pub struct Layout {
    pub data_home: String,
    pub state_home: String,
    pub cache_home: String,
    pub config_home: String,
}

impl Layout {
    /// `<data>/parcel`.
    pub fn parcel_data_dir(&self) -> (r: String)
        ensures
            r@ == path_join(self.data_home@, "parcel"@),
    {
        join(self.data_home.as_str(), "parcel")
    }

    /// `<data>/parcel/cellar`: installed versions.
    pub fn cellar_dir(&self) -> (r: String)
        ensures
            r@ == path_join(path_join(self.data_home@, "parcel"@), "cellar"@),
    {
        join(self.parcel_data_dir().as_str(), "cellar")
    }

    /// `<data>/parcel/opt`: links to the active versions.
    pub fn opt_dir(&self) -> (r: String)
        ensures
            r@ == path_join(path_join(self.data_home@, "parcel"@), "opt"@),
    {
        join(self.parcel_data_dir().as_str(), "opt")
    }

    /// `<state>/parcel/receipts`.
    pub fn receipts_dir(&self) -> (r: String)
        ensures
            r@ == path_join(path_join(self.state_home@, "parcel"@), "receipts"@),
    {
        join(join(self.state_home.as_str(), "parcel").as_str(), "receipts")
    }

    /// `<cache>/parcel/indexes`.
    pub fn indexes_dir(&self) -> (r: String)
        ensures
            r@ == path_join(path_join(self.cache_home@, "parcel"@), "indexes"@),
    {
        join(join(self.cache_home.as_str(), "parcel").as_str(), "indexes")
    }

    /// `<cache>/parcel/downloads`.
    pub fn downloads_dir(&self) -> (r: String)
        ensures
            r@ == path_join(path_join(self.cache_home@, "parcel"@), "downloads"@),
    {
        join(join(self.cache_home.as_str(), "parcel").as_str(), "downloads")
    }

    /// `<config>/parcel/repos.d`.
    pub fn repos_dir(&self) -> (r: String)
        ensures
            r@ == path_join(path_join(self.config_home@, "parcel"@), "repos.d"@),
    {
        join(join(self.config_home.as_str(), "parcel").as_str(), "repos.d")
    }

    /// `<config>/parcel/repos.d/<name>.toml`.
    pub fn repo_config_path(&self, name: &str) -> (r: String)
        ensures
            r@ == path_join(path_join(path_join(self.config_home@, "parcel"@), "repos.d"@), name@ + ".toml"@),
    {
        join(self.repos_dir().as_str(), concat(name, ".toml").as_str())
    }

    /// `<cache>/parcel/indexes/<name>.parcel-index.db`.
    pub fn index_cache_path(&self, name: &str) -> (r: String)
        ensures
            r@ == path_join(
                path_join(path_join(self.cache_home@, "parcel"@), "indexes"@),
                name@ + ".parcel-index.db"@,
            ),
    {
        join(self.indexes_dir().as_str(), concat(name, ".parcel-index.db").as_str())
    }

    /// `<cache>/parcel/downloads/<file_name>`.
    pub fn download_path(&self, file_name: &str) -> (r: String)
        ensures
            r@ == path_join(path_join(path_join(self.cache_home@, "parcel"@), "downloads"@), file_name@),
    {
        join(self.downloads_dir().as_str(), file_name)
    }

    /// `<state>/parcel/receipts/<name>.json`.
    pub fn receipt_path(&self, name: &str) -> (r: String)
        ensures
            r@ == path_join(path_join(path_join(self.state_home@, "parcel"@), "receipts"@), name@ + ".json"@),
    {
        join(self.receipts_dir().as_str(), concat(name, ".json").as_str())
    }

    /// `<data>/parcel/cellar/<name>`.
    pub fn cellar_package_dir(&self, name: &str) -> (r: String)
        ensures
            r@ == path_join(path_join(path_join(self.data_home@, "parcel"@), "cellar"@), name@),
    {
        join(self.cellar_dir().as_str(), name)
    }

    /// `<data>/parcel/cellar/<name>/<version>`.
    pub fn version_install_dir(&self, name: &str, version: &str) -> (r: String)
        ensures
            r@ == path_join(
                path_join(path_join(path_join(self.data_home@, "parcel"@), "cellar"@), name@),
                version@,
            ),
    {
        join(self.cellar_package_dir(name).as_str(), version)
    }

    /// `<data>/parcel/opt/<name>`.
    pub fn opt_link_path(&self, name: &str) -> (r: String)
        ensures
            r@ == path_join(path_join(path_join(self.data_home@, "parcel"@), "opt"@), name@),
    {
        join(self.opt_dir().as_str(), name)
    }

    /// The directory a target category exposes files into: `bin` next to
    /// the data directory (`~/.local/bin` for `~/.local/share`), the
    /// `applications`, `icons` and `man` directories under the data
    /// directory, and `<data>/parcel/<target>` for anything else.
    pub fn target_dir(&self, target: &str) -> (r: String)
        ensures
            r@ == target_dir_of(self.data_home@, target@),
    {
        if text::str_eq(target, "bin") {
            match fspath::path_parent(self.data_home.as_str()) {
                Some(parent) => join(parent.as_str(), "bin"),
                None => join(self.data_home.as_str(), "bin"),
            }
        } else if text::str_eq(target, "applications") {
            join(self.data_home.as_str(), "applications")
        } else if text::str_eq(target, "icons") {
            join(self.data_home.as_str(), "icons")
        } else if text::str_eq(target, "man") {
            join(self.data_home.as_str(), "man")
        } else {
            join(self.parcel_data_dir().as_str(), target)
        }
    }
}

/// What `Layout::target_dir` gives for a data directory and a target.
pub open spec fn target_dir_of(data_home: Seq<char>, target: Seq<char>) -> Seq<char> {
    if target == "bin"@ {
        match fspath::parent_of(data_home) {
            Some(p) => path_join(p, "bin"@),
            None => path_join(data_home, "bin"@),
        }
    } else if target == "applications"@ || target == "icons"@ || target == "man"@ {
        path_join(data_home, target)
    } else {
        path_join(path_join(data_home, "parcel"@), target)
    }
}

/// The file name of a path, or `artifact` when it has none.
pub fn path_file_name(path: &str) -> (r: String)
    ensures
        r@ == match fspath::file_name_of(path@) {
            Some(n) => n,
            None => "artifact"@,
        },
{
    let p = text::chars_of(path);
    match fspath::file_name(&p) {
        Some(n) => text::string_of(&n),
        None => text::string_of(&text::chars_of("artifact")),
    }
}

/// `HOME` is not set, so Parcel's directories cannot be placed.
#[derive(Debug, PartialEq, Eq, Structural)]
pub struct NoHome;

/// A directory from the environment, or the default under the home
/// directory.
pub open spec fn dir_or(set: Option<String>, home: Seq<char>, default: Seq<char>) -> Seq<char> {
    match set {
        Some(d) => d@,
        None => path_join(home, default),
    }
}

fn choose_dir(set: Option<String>, home: &str, default: &str) -> (r: String)
    ensures
        r@ == dir_or(set, home@, default@),
{
    match set {
        Some(d) => d,
        None => join(home, default),
    }
}

impl Layout {
    /// The directories Parcel uses, from `HOME` and the XDG variables:
    /// each XDG directory that is set, else its default below the home
    /// directory. Refused when `HOME` is not set.
    pub fn detect(
        home: Option<String>,
        data_home: Option<String>,
        state_home: Option<String>,
        cache_home: Option<String>,
        config_home: Option<String>,
    ) -> (r: Result<Layout, NoHome>)
        ensures
            home is None ==> r == Err::<Layout, NoHome>(NoHome),
            home matches Some(h) ==> r matches Ok(l) && l.data_home@ == dir_or(data_home, h@, ".local/share"@)
                && l.state_home@ == dir_or(state_home, h@, ".local/state"@) && l.cache_home@ == dir_or(
                cache_home,
                h@,
                ".cache"@,
            ) && l.config_home@ == dir_or(config_home, h@, ".config"@),
    {
        let home = match home {
            Some(h) => h,
            None => return Err(NoHome),
        };
        Ok(Layout {
            data_home: choose_dir(data_home, home.as_str(), ".local/share"),
            state_home: choose_dir(state_home, home.as_str(), ".local/state"),
            cache_home: choose_dir(cache_home, home.as_str(), ".cache"),
            config_home: choose_dir(config_home, home.as_str(), ".config"),
        })
    }

    /// The directories `ensure_all` creates, in order.
    pub fn all_dirs(&self) -> (r: Vec<String>)
        ensures
            r@.len() == 7,
            r@[0]@ == path_join(self.data_home@, "parcel"@),
            r@[1]@ == path_join(path_join(self.data_home@, "parcel"@), "cellar"@),
            r@[2]@ == path_join(path_join(self.data_home@, "parcel"@), "opt"@),
            r@[3]@ == path_join(path_join(self.state_home@, "parcel"@), "receipts"@),
            r@[4]@ == path_join(path_join(self.cache_home@, "parcel"@), "indexes"@),
            r@[5]@ == path_join(path_join(self.cache_home@, "parcel"@), "downloads"@),
            r@[6]@ == path_join(path_join(self.config_home@, "parcel"@), "repos.d"@),
    {
        let mut r: Vec<String> = Vec::new();
        r.push(self.parcel_data_dir());
        r.push(self.cellar_dir());
        r.push(self.opt_dir());
        r.push(self.receipts_dir());
        r.push(self.indexes_dir());
        r.push(self.downloads_dir());
        r.push(self.repos_dir());
        r
    }

    /// A fresh temporary path: `parcel-<prefix>-<nanos><suffix>` in the
    /// temporary directory, `nanos` being the time in nanoseconds.
    pub fn temp_path(&self, temp_dir: &str, prefix: &str, nanos: u128, suffix: &str) -> (r: String)
        ensures
            r@ == path_join(temp_dir@, "parcel-"@ + prefix@ + seq!['-'] + text::decimal_of(nanos as nat) + suffix@),
    {
        let mut name = text::string_of(&text::chars_of("parcel-"));
        text::push_str(&mut name, prefix);
        text::push_char(&mut name, '-');
        text::push_chars(&mut name, &text::decimal_chars_wide(nanos));
        text::push_str(&mut name, suffix);
        assert(name@ =~= "parcel-"@ + prefix@ + seq!['-'] + text::decimal_of(nanos as nat) + suffix@);
        join(temp_dir, name.as_str())
    }
}

} // verus!
