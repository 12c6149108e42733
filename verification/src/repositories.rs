//! Remote repositories and their cached indexes.

use vstd::prelude::*;

use crate::fspath::{self, path_join};
use crate::keyed;
use crate::models::{IndexPackage, Remote, RemoteConfig, RepositoryIndex};
use crate::paths::Paths;
use crate::repo::{self, key_index};
use crate::text;
use crate::version;

verus! {

/// A concrete remote package version selected from cached indexes.
pub struct PackageCandidate {
    pub remote_name: String,
    pub name: String,
    pub version: String,
    pub checksum: String,
    pub download_url: String,
    pub description: String,
    pub homepage: Option<String>,
}

pub open spec fn index_file_name() -> Seq<char> {
    seq!['p', 'a', 'r', 'c', 'e', 'l', '-', 'i', 'n', 'd', 'e', 'x', '.', 'd', 'b']
}

pub open spec fn github_marker() -> Seq<char> {
    seq!['g', 'i', 't', 'h', 'u', 'b', '.', 'c', 'o', 'm', '/']
}

/// `/releases/download/parcel-index/parcel-index.db`.
pub open spec fn github_index_suffix() -> Seq<char> {
    seq![
        '/', 'r', 'e', 'l', 'e', 'a', 's', 'e', 's', '/', 'd', 'o', 'w', 'n', 'l', 'o', 'a', 'd', '/',
        'p', 'a', 'r', 'c', 'e', 'l', '-', 'i', 'n', 'd', 'e', 'x', '/',
    ] + index_file_name()
}

fn index_file_name_chars() -> (r: Vec<char>)
    ensures
        r@ == index_file_name(),
{
    vec!['p', 'a', 'r', 'c', 'e', 'l', '-', 'i', 'n', 'd', 'e', 'x', '.', 'd', 'b']
}

fn github_marker_chars() -> (r: Vec<char>)
    ensures
        r@ == github_marker(),
{
    vec!['g', 'i', 't', 'h', 'u', 'b', '.', 'c', 'o', 'm', '/']
}

fn github_index_suffix_chars() -> (r: Vec<char>)
    ensures
        r@ == github_index_suffix(),
{
    let mut r: Vec<char> = vec![
        '/', 'r', 'e', 'l', 'e', 'a', 's', 'e', 's', '/', 'd', 'o', 'w', 'n', 'l', 'o', 'a', 'd', '/',
        'p', 'a', 'r', 'c', 'e', 'l', '-', 'i', 'n', 'd', 'e', 'x', '/',
    ];
    let mut tail = index_file_name_chars();
    r.append(&mut tail);
    r
}

/// The index URL of a remote. A URL that, without trailing `/`, ends with
/// `parcel-index.db` is that URL without trailing `/`; a GitHub URL gets
/// `/releases/download/parcel-index/parcel-index.db` appended after its
/// trailing `/` are dropped; any other URL is used as given.
pub open spec fn remote_index_url_of(url: Seq<char>) -> Seq<char> {
    let t = text::trim_end_char(url, '/');
    if text::has_suffix(t, index_file_name()) {
        t
    } else if text::contains_seq(t, github_marker()) {
        t + github_index_suffix()
    } else {
        url
    }
}

/// Works out where a remote's index lives.
pub fn normalize_remote_index_url(url: &str) -> (r: String)
    ensures
        r@ == remote_index_url_of(url@),
{
    let u = text::chars_of(url);
    let trimmed = text::trim_end_chars(&u, '/');
    if text::ends_with_exec(&trimmed, &index_file_name_chars()) {
        return text::string_of(&trimmed);
    }
    if text::contains_exec(&trimmed, &github_marker_chars()) {
        let mut r = text::string_of(&trimmed);
        text::push_chars(&mut r, &github_index_suffix_chars());
        return r;
    }
    text::string_of(&u)
}

proof fn lemma_suffix_of_concat(a: Seq<char>, b: Seq<char>, p: Seq<char>)
    requires
        text::has_suffix(b, p),
    ensures
        text::has_suffix(a + b, p),
{
    let ab = a + b;
    assert(ab.subrange(ab.len() - p.len(), ab.len() as int) =~= b.subrange(b.len() - p.len(), b.len() as int));
}

/// Normalizing an index URL a second time changes nothing.
pub proof fn law_remote_index_url_idempotent(url: Seq<char>)
    ensures
        remote_index_url_of(remote_index_url_of(url)) == remote_index_url_of(url),
{
    let t = text::trim_end_char(url, '/');
    text::lemma_trim_end_char(url, '/');
    let r = remote_index_url_of(url);
    if !text::has_suffix(t, index_file_name()) && text::contains_seq(t, github_marker()) {
        let g = github_index_suffix();
        assert(text::has_suffix(g, index_file_name())) by {
            assert(g.subrange(g.len() - 15, g.len() as int) =~= index_file_name());
        }
        lemma_suffix_of_concat(t, g, index_file_name());
        assert(r.last() == 'b');
        assert(text::trim_end_char(r, '/') == r);
    }
}

/// Why a remote name was refused.
#[derive(Debug, PartialEq, Eq, Structural)]
pub enum RemoteNameError {
    Empty,
    InvalidCharacter,
}

/// ASCII letters, digits, `-` and `_`.
pub open spec fn remote_name_char(c: char) -> bool {
    let u = c as u32;
    (48 <= u <= 57) || (65 <= u <= 90) || (97 <= u <= 122) || c == '-' || c == '_'
}

/// Accepts a non-empty name made of ASCII letters, digits, `-` and `_`.
pub fn validate_remote_name(name: &str) -> (r: Result<(), RemoteNameError>)
    ensures
        name@.len() == 0 ==> r == Err::<(), RemoteNameError>(RemoteNameError::Empty),
        name@.len() > 0 ==> (r is Ok <==> forall|i: int| 0 <= i < name@.len() ==> remote_name_char(#[trigger] name@[i])),
        name@.len() > 0 && r is Err ==> r == Err::<(), RemoteNameError>(RemoteNameError::InvalidCharacter),
{
    let n = text::chars_of(name);
    if n.len() == 0 {
        return Err(RemoteNameError::Empty);
    }
    let mut i: usize = 0;
    while i < n.len()
        invariant
            i <= n.len(),
            n@ == name@,
            forall|j: int| 0 <= j < i ==> remote_name_char(#[trigger] n@[j]),
        decreases n.len() - i,
    {
        let c = n[i];
        let u = c as u32;
        if !((48 <= u && u <= 57) || (65 <= u && u <= 90) || (97 <= u && u <= 122) || c == '-' || c
            == '_') {
            assert(!remote_name_char(name@[i as int]));
            return Err(RemoteNameError::InvalidCharacter);
        }
        i = i + 1;
    }
    Ok(())
}

/// Where a remote's cached index is kept: `<indexes>/<name>.db`.
pub fn remote_index_path(paths: &Paths, name: &str) -> (r: Result<String, RemoteNameError>)
    ensures
        r is Ok <==> validate_remote_name_ok(name@),
        r matches Ok(p) ==> p@ == path_join(paths.indexes_dir@, name@ + ".db"@),
{
    validate_remote_name(name)?;
    Ok(fspath::join(paths.indexes_dir.as_str(), fspath::concat(name, ".db").as_str()))
}

/// Whether `validate_remote_name` accepts a name.
pub open spec fn validate_remote_name_ok(name: Seq<char>) -> bool {
    name.len() > 0 && forall|i: int| 0 <= i < name.len() ==> remote_name_char(#[trigger] name[i])
}

/// A download URL with `{name}`, `{version}` and `{arch}` filled in.
pub open spec fn expanded_url(t: Seq<char>, name: Seq<char>, version: Seq<char>, arch: Seq<char>) -> Seq<char> {
    text::replace_all(
        text::replace_all(text::replace_all(t, repo::name_placeholder(), name), repo::version_placeholder(), version),
        repo::arch_placeholder(),
        arch,
    )
}

/// Fills a download URL template.
pub fn expand_download_template(template: &str, name: &str, version: &str, arch: &str) -> (r: String)
    ensures
        r@ == expanded_url(template@, name@, version@, arch@),
{
    let t = text::chars_of(template);
    let p1: Vec<char> = vec!['{', 'n', 'a', 'm', 'e', '}'];
    let p2: Vec<char> = vec!['{', 'v', 'e', 'r', 's', 'i', 'o', 'n', '}'];
    let p3: Vec<char> = vec!['{', 'a', 'r', 'c', 'h', '}'];
    let s1 = text::replace_exec(&t, &p1, &text::chars_of(name));
    let s2 = text::replace_exec(&s1, &p2, &text::chars_of(version));
    let s3 = text::replace_exec(&s2, &p3, &text::chars_of(arch));
    text::string_of(&s3)
}

/// Whether a package matches a lower-case query: by name, description or
/// homepage, compared in lower case.
pub open spec fn package_matches_of(name: Seq<char>, package: IndexPackage, query: Seq<char>) -> bool {
    let homepage = match package.homepage {
        Some(h) => h@,
        None => Seq::empty(),
    };
    text::contains_seq(text::lowercase(name), query) || text::contains_seq(
        text::lowercase(package.description@),
        query,
    ) || text::contains_seq(text::lowercase(homepage), query)
}

/// Whether a package matches a lower-case query.
pub fn package_matches(name: &str, package: &IndexPackage, query: &str) -> (r: bool)
    ensures
        r == package_matches_of(name@, *package, query@),
{
    let q = text::chars_of(query);
    let description = text::chars_of(text::to_lowercase(package.description.as_str()).as_str());
    let homepage = match &package.homepage {
        Some(h) => text::chars_of(text::to_lowercase(h.as_str()).as_str()),
        None => text::chars_of(text::to_lowercase("").as_str()),
    };
    proof {
        if package.homepage is None {
            assert(""@ =~= Seq::<char>::empty()) by {
                reveal_strlit("");
            }
        }
    }
    let n = text::chars_of(text::to_lowercase(name).as_str());
    text::contains_exec(&n, &q) || text::contains_exec(&description, &q) || text::contains_exec(&homepage, &q)
}

/// The versions a package offers, in key order.
pub open spec fn version_keys(p: IndexPackage) -> Seq<Seq<char>> {
    repo::key_views(p.versions@)
}

/// The latest version `name` has in index `i`, when it has one.
pub open spec fn index_latest(indexes: Seq<(String, RepositoryIndex)>, i: int, name: Seq<char>) -> Option<Seq<char>> {
    let pi = key_index(indexes[i].1.packages@, name);
    if pi < 0 {
        None
    } else {
        version::latest_parcel(version_keys(indexes[i].1.packages@[pi].1))
    }
}

/// Which index `find_latest_candidate` takes the package from: the first
/// one with the greatest latest version. -1 when none has a version.
pub open spec fn candidate_index(indexes: Seq<(String, RepositoryIndex)>, name: Seq<char>) -> int
    decreases indexes.len(),
{
    if indexes.len() == 0 {
        -1
    } else {
        let prev = candidate_index(indexes.drop_last(), name);
        let last = indexes.len() - 1;
        match index_latest(indexes, last, name) {
            None => prev,
            Some(v) => if prev < 0 {
                last
            } else if version::parcel_order(v, index_latest(indexes, prev, name).unwrap()) > 0 {
                last
            } else {
                prev
            },
        }
    }
}

pub proof fn lemma_candidate_index(indexes: Seq<(String, RepositoryIndex)>, name: Seq<char>)
    ensures
        -1 <= candidate_index(indexes, name) < indexes.len(),
        candidate_index(indexes, name) >= 0 ==> index_latest(indexes, candidate_index(indexes, name), name) is Some,
    decreases indexes.len(),
{
    if indexes.len() > 0 {
        lemma_candidate_index(indexes.drop_last(), name);
        let p = indexes.drop_last();
        assert forall|i: int| 0 <= i < p.len() implies index_latest(p, i, name) == index_latest(indexes, i, name) by {
            assert(p[i] == indexes[i]);
        }
    }
}

pub proof fn lemma_index_latest_prefix(indexes: Seq<(String, RepositoryIndex)>, n: int, i: int, name: Seq<char>)
    requires
        0 <= i < n <= indexes.len(),
    ensures
        index_latest(indexes.subrange(0, n), i, name) == index_latest(indexes, i, name),
{
    assert(indexes.subrange(0, n)[i] == indexes[i]);
}

/// Whether `c` describes the latest version of `name` taken from the
/// index `candidate_index` picks: its remote, version, checksum, the
/// download URL for `arch`, description and homepage.
pub open spec fn is_latest_candidate(
    indexes: Seq<(String, RepositoryIndex)>,
    name: Seq<char>,
    arch: Seq<char>,
    c: PackageCandidate,
) -> bool {
    let b = candidate_index(indexes, name);
    let index = indexes[b].1;
    let package = index.packages@[key_index(index.packages@, name)].1;
    let v = index_latest(indexes, b, name).unwrap();
    &&& c.remote_name@ == indexes[b].0@
    &&& c.name@ == name
    &&& c.version@ == v
    &&& c.checksum@ == package.versions@[key_index(package.versions@, v)].1@
    &&& c.download_url@ == expanded_url(index.download_template@, name, v, arch)
    &&& c.description@ == package.description@
    &&& c.homepage == package.homepage
}

/// The versions `name` has in index `i`; none when the index lacks it.
pub open spec fn name_versions(indexes: Seq<(String, RepositoryIndex)>, i: int, name: Seq<char>) -> Seq<Seq<char>> {
    let pi = key_index(indexes[i].1.packages@, name);
    if pi < 0 {
        Seq::empty()
    } else {
        version_keys(indexes[i].1.packages@[pi].1)
    }
}

/// Whether every version of `name` in every index has the
/// `<semver>-<release>` form.
pub open spec fn name_versions_valid(indexes: Seq<(String, RepositoryIndex)>, name: Seq<char>) -> bool {
    forall|i: int| 0 <= i < indexes.len() ==> version::all_parcel_valid(#[trigger] name_versions(indexes, i, name))
}

/// Whether no version of `name` in any index is greater than `v`.
pub open spec fn greatest_everywhere(indexes: Seq<(String, RepositoryIndex)>, name: Seq<char>, v: Seq<char>, n: int) -> bool {
    forall|i: int, j: int|
        0 <= i < n && 0 <= j < name_versions(indexes, i, name).len() ==> #[trigger] name_versions(indexes, i, name)[j]
            == v || version::parcel_order(name_versions(indexes, i, name)[j], v) <= 0
}

/// The candidate with the latest version of `name` across the cached
/// indexes (ties go to the first index), with its checksum and download
/// URL for `arch`. When every version of `name` has the
/// `<semver>-<release>` form, no version in any index is greater than the
/// candidate's.
pub fn find_latest_candidate(indexes: &Vec<(String, RepositoryIndex)>, name: &str, arch: &str) -> (r:
    Option<PackageCandidate>)
    ensures
        r is None <==> candidate_index(indexes@, name@) < 0,
        r matches Some(c) ==> is_latest_candidate(indexes@, name@, arch@, c),
        r matches Some(c) ==> (name_versions_valid(indexes@, name@) ==> greatest_everywhere(
            indexes@,
            name@,
            c.version@,
            indexes@.len() as int,
        )),
{
    let key = text::chars_of(name);
    let mut best: Option<usize> = None;
    let mut best_version: String = String::new();
    let mut i: usize = 0;
    while i < indexes.len()
        invariant
            i <= indexes.len(),
            key@ == name@,
            candidate_index(indexes@.subrange(0, i as int), name@) == match best {
                Some(b) => b as int,
                None => -1,
            },
            best matches Some(b) ==> b < i && index_latest(indexes@, b as int, name@) == Some(best_version@),
            best is None ==> forall|k: int| 0 <= k < i ==> (#[trigger] name_versions(indexes@, k, name@)).len() == 0,
            name_versions_valid(indexes@, name@) && best is Some ==> version::parcel_valid(best_version@),
            name_versions_valid(indexes@, name@) && best is Some ==> greatest_everywhere(
                indexes@,
                name@,
                best_version@,
                i as int,
            ),
        decreases indexes.len() - i,
    {
        proof {
            let s = indexes@.subrange(0, i + 1);
            assert(s.drop_last() =~= indexes@.subrange(0, i as int));
            lemma_index_latest_prefix(indexes@, i + 1, i as int, name@);
            if let Some(b) = best {
                lemma_index_latest_prefix(indexes@, i + 1, b as int, name@);
            }
        }
        let index = &indexes[i].1;
        let ghost valid = name_versions_valid(indexes@, name@);
        let ghost nv = name_versions(indexes@, i as int, name@);
        match crate::repo::find_key(&index.packages, &key) {
            None => {
                proof {
                    assert(nv.len() == 0);
                }
            },
            Some(pi) => {
                proof {
                    repo::lemma_key_index(index.packages@, key@);
                }
                let keys = version_key_list(&index.packages[pi].1);
                proof {
                    assert(crate::resolver::views_of(keys@) == nv);
                    if valid {
                        assert(version::all_parcel_valid(name_versions(indexes@, i as int, name@)));
                    }
                }
                match version::latest_version(&keys) {
                    None => {
                        proof {
                            assert(nv.len() == 0);
                        }
                    },
                    Some(v) => {
                        proof {
                            if valid {
                                let k = choose|k: int| 0 <= k < nv.len() && nv[k] == v@;
                                assert(version::parcel_valid(nv[k]));
                                assert forall|j: int| 0 <= j < nv.len() implies nv[j] == v@
                                    || version::parcel_order(nv[j], v@) <= 0 by {
                                    assert(nv[j] == crate::resolver::views_of(keys@)[j]);
                                    assert(keys@[j]@ == nv[j]);
                                }
                            }
                        }
                        let ghost old_best = best_version@;
                        let take = match best {
                            None => true,
                            Some(_) => version::is_newer(v.as_str(), best_version.as_str()),
                        };
                        proof {
                            if valid && best is Some {
                                if take {
                                    assert forall|k: int, j: int|
                                        0 <= k < i && 0 <= j < name_versions(indexes@, k, name@).len() implies
                                        #[trigger] name_versions(indexes@, k, name@)[j] == v@ || version::parcel_order(
                                            name_versions(indexes@, k, name@)[j],
                                            v@,
                                        ) <= 0 by {
                                        let w = name_versions(indexes@, k, name@)[j];
                                        assert(version::all_parcel_valid(name_versions(indexes@, k, name@)));
                                        assert(version::parcel_valid(w));
                                        if w != old_best {
                                            assert(version::parcel_order(w, old_best) <= 0);
                                        }
                                    }
                                } else {
                                    assert forall|j: int| 0 <= j < nv.len() implies #[trigger] nv[j] == old_best
                                        || version::parcel_order(nv[j], old_best) <= 0 by {
                                        assert(version::parcel_valid(nv[j]));
                                        if nv[j] != v@ {
                                            assert(version::parcel_order(nv[j], v@) <= 0);
                                        }
                                    }
                                }
                            }
                        }
                        if take {
                            best = Some(i);
                            best_version = v;
                        }
                    },
                }
            },
        }
        proof {
            assert forall|k: int| 0 <= k < i + 1 && k != i implies name_versions(indexes@, k, name@)
                == #[trigger] name_versions(indexes@, k, name@) by {}
        }
        i = i + 1;
    }
    assert(indexes@.subrange(0, i as int) =~= indexes@);
    match best {
        None => None,
        Some(b) => {
            let index = &indexes[b].1;
            let pi = match crate::repo::find_key(&index.packages, &key) {
                Some(pi) => pi,
                None => return None,
            };
            proof {
                repo::lemma_key_index(index.packages@, key@);
            }
            let package = &index.packages[pi].1;
            let vkey = text::chars_of(best_version.as_str());
            let checksum = match crate::repo::find_key(&package.versions, &vkey) {
                Some(k) => {
                    proof {
                        repo::lemma_key_index(package.versions@, vkey@);
                    }
                    package.versions[k].1.clone()
                },
                None => {
                    proof {
                        lemma_latest_is_key(version_keys(*package));
                        repo::lemma_key_index(package.versions@, vkey@);
                        let j = choose|j: int| 0 <= j < version_keys(*package).len() && version_keys(*package)[j] == vkey@;
                        assert(package.versions@[j].0@ == vkey@);
                    }
                    return None;
                },
            };
            let homepage = match &package.homepage {
                Some(h) => Some(h.clone()),
                None => None,
            };
            Some(PackageCandidate {
                remote_name: indexes[b].0.clone(),
                name: text::string_of(&key),
                download_url: expand_download_template(index.download_template.as_str(), name, best_version.as_str(), arch),
                version: best_version,
                checksum,
                description: package.description.clone(),
                homepage,
            })
        },
    }
}

/// The latest version is one of the candidates.
pub proof fn lemma_latest_is_key(s: Seq<Seq<char>>)
    requires
        s.len() > 0,
    ensures
        s.contains(version::latest_parcel(s).unwrap()),
        version::latest_parcel(s) is Some,
    decreases s.len(),
{
    if s.len() == 1 {
        assert(s[0] == s[0]);
    } else {
        lemma_latest_is_key(s.drop_last());
        let b = version::latest_parcel(s.drop_last()).unwrap();
        let j = choose|j: int| 0 <= j < s.drop_last().len() && s.drop_last()[j] == b;
        assert(s[j] == b);
        assert(s[s.len() - 1] == s.last());
    }
}

/// The version keys of a package, copied.
fn version_key_list(p: &IndexPackage) -> (r: Vec<String>)
    ensures
        crate::resolver::views_of(r@) == version_keys(*p),
{
    let mut r: Vec<String> = Vec::new();
    let mut i: usize = 0;
    while i < p.versions.len()
        invariant
            i <= p.versions.len(),
            crate::resolver::views_of(r@) == repo::key_views(p.versions@.subrange(0, i as int)),
        decreases p.versions.len() - i,
    {
        r.push(p.versions[i].0.clone());
        proof {
            assert(repo::key_views(p.versions@.subrange(0, i + 1)) =~= repo::key_views(p.versions@.subrange(0, i as int)).push(p.versions@[i as int].0@));
            assert(crate::resolver::views_of(r@) =~= crate::resolver::views_of(r@.drop_last()).push(r@.last()@));
        }
        i = i + 1;
    }
    assert(p.versions@.subrange(0, i as int) =~= p.versions@);
    r
}

/// Why a remote could not be added or removed.
#[derive(Debug, PartialEq, Eq, Structural)]
pub enum RemoteError {
    InvalidName(RemoteNameError),
    AlreadyExists,
    NotFound,
}

/// Adds a remote under a valid, unused name, with its index URL worked out
/// from `url`; refuses an invalid name or one already in use.
pub fn add_remote_entry(config: &mut RemoteConfig, name: &str, url: &str) -> (r: Result<(), RemoteError>)
    requires
        keyed::sorted_keys(old(config).remotes@),
    ensures
        keyed::sorted_keys(final(config).remotes@),
        !validate_remote_name_ok(name@) ==> r matches Err(RemoteError::InvalidName(_)),
        validate_remote_name_ok(name@) && keyed::as_map(old(config).remotes@).contains_key(name@) ==> r
            == Err::<(), RemoteError>(RemoteError::AlreadyExists),
        r is Err ==> final(config).remotes@ == old(config).remotes@,
        r is Ok <==> validate_remote_name_ok(name@) && !keyed::as_map(old(config).remotes@).contains_key(name@),
        r is Ok ==> keyed::as_map(final(config).remotes@).dom() == keyed::as_map(old(config).remotes@).dom().insert(name@),
        r is Ok ==> forall|k: Seq<char>| k != name@ && #[trigger] keyed::as_map(old(config).remotes@).contains_key(k)
            ==> keyed::as_map(final(config).remotes@)[k] == keyed::as_map(old(config).remotes@)[k],
        r is Ok ==> keyed::as_map(final(config).remotes@)[name@].url@ == url@,
        r is Ok ==> keyed::as_map(final(config).remotes@)[name@].index_url@ == remote_index_url_of(url@),
{
    match validate_remote_name(name) {
        Err(e) => return Err(RemoteError::InvalidName(e)),
        Ok(()) => {},
    }
    if keyed::keyed_contains(&config.remotes, name) {
        return Err(RemoteError::AlreadyExists);
    }
    let remote = Remote {
        url: text::string_of(&text::chars_of(url)),
        index_url: normalize_remote_index_url(url),
    };
    let _ = keyed::keyed_insert(&mut config.remotes, text::string_of(&text::chars_of(name)), remote);
    proof {
        assert(keyed::as_map(config.remotes@).dom() =~= keyed::as_map(old(config).remotes@).dom().insert(name@));
    }
    Ok(())
}

/// Removes a remote; refuses a name that is not configured.
pub fn remove_remote_entry(config: &mut RemoteConfig, name: &str) -> (r: Result<Remote, RemoteError>)
    requires
        keyed::sorted_keys(old(config).remotes@),
    ensures
        keyed::sorted_keys(final(config).remotes@),
        r is Ok <==> keyed::as_map(old(config).remotes@).contains_key(name@),
        r is Err ==> r == Err::<Remote, RemoteError>(RemoteError::NotFound),
        keyed::as_map(final(config).remotes@) == keyed::as_map(old(config).remotes@).remove(name@),
{
    match keyed::keyed_remove(&mut config.remotes, name) {
        Some(remote) => Ok(remote),
        None => Err(RemoteError::NotFound),
    }
}

/// A `parcel remote` subcommand.
pub enum RemoteCommand {
    Add { name: String, url: String },
    Remove { name: String },
    List,
}

/// What a remote subcommand did to the configuration.
pub enum RemoteOutcome {
    /// A remote was added; the configuration is to be saved.
    Added,
    /// A remote was removed; the configuration is to be saved and the
    /// remote's cached index deleted.
    Removed(Remote),
    /// The configuration is to be listed; nothing changed.
    Listed,
}

/// Carries out a remote subcommand on the remote configuration.
pub fn remote_command(config: &mut RemoteConfig, command: RemoteCommand) -> (r: Result<RemoteOutcome, RemoteError>)
    requires
        keyed::sorted_keys(old(config).remotes@),
    ensures
        keyed::sorted_keys(final(config).remotes@),
        match command {
            RemoteCommand::Add { name, url } => {
                &&& (r is Ok <==> validate_remote_name_ok(name@) && !keyed::as_map(old(config).remotes@).contains_key(name@))
                &&& r is Ok ==> (r matches Ok(RemoteOutcome::Added)) && keyed::as_map(final(config).remotes@) == keyed::as_map(
                    old(config).remotes@,
                ).insert(name@, keyed::as_map(final(config).remotes@)[name@])
                    && keyed::as_map(final(config).remotes@)[name@].url@ == url@
                    && keyed::as_map(final(config).remotes@)[name@].index_url@ == remote_index_url_of(url@)
                &&& !validate_remote_name_ok(name@) ==> (r matches Err(RemoteError::InvalidName(_)))
                &&& validate_remote_name_ok(name@) && keyed::as_map(old(config).remotes@).contains_key(name@)
                    ==> (r matches Err(RemoteError::AlreadyExists))
                &&& r is Err ==> final(config).remotes@ == old(config).remotes@
            },
            RemoteCommand::Remove { name } => {
                &&& (r is Ok <==> keyed::as_map(old(config).remotes@).contains_key(name@))
                &&& (r matches Ok(o) ==> (o matches RemoteOutcome::Removed(x) && x == keyed::as_map(old(config).remotes@)[name@]))
                &&& r is Err ==> (r matches Err(RemoteError::NotFound))
                &&& keyed::as_map(final(config).remotes@) == keyed::as_map(old(config).remotes@).remove(name@)
            },
            RemoteCommand::List => (r matches Ok(RemoteOutcome::Listed)) && final(config).remotes@
                == old(config).remotes@,
        },
{
    match command {
        RemoteCommand::Add { name, url } => {
            match add_remote_entry(config, name.as_str(), url.as_str()) {
                Err(e) => return Err(e),
                Ok(()) => {},
            }
            proof {
                assert(keyed::as_map(config.remotes@) =~= keyed::as_map(old(config).remotes@).insert(
                    name@,
                    keyed::as_map(config.remotes@)[name@],
                ));
            }
            Ok(RemoteOutcome::Added)
        },
        RemoteCommand::Remove { name } => {
            let removed = keyed::keyed_remove(&mut config.remotes, name.as_str());
            match removed {
                Some(remote) => Ok(RemoteOutcome::Removed(remote)),
                None => Err(RemoteError::NotFound),
            }
        },
        RemoteCommand::List => Ok(RemoteOutcome::Listed),
    }
}

/// Checks a downloaded package against the candidate's checksum; the
/// bytes are handed back when they match.
pub fn download_candidate(candidate: &PackageCandidate, bytes: Vec<u8>) -> (r: Result<
    Vec<u8>,
    crate::utils::hash::ChecksumMismatch,
>)
    ensures
        r is Ok <==> crate::utils::hash::eq_ignore_ascii_case(
            crate::utils::hash::hex_lower(crate::utils::hash::blake2b512(bytes@)),
            candidate.checksum@,
        ),
        r matches Ok(b) ==> b == bytes,
        r matches Err(e) ==> e.expected@ == candidate.checksum@ && e.actual@ == crate::utils::hash::hex_lower(
            crate::utils::hash::blake2b512(bytes@),
        ),
{
    match crate::utils::hash::verify_blake2b(bytes.as_slice(), candidate.checksum.as_str()) {
        Err(e) => Err(e),
        Ok(()) => Ok(bytes),
    }
}

/// One search result over the remote indexes: the remote, the package,
/// its latest version (or `unknown`) and its description.
pub struct IndexHit {
    pub remote: String,
    pub package: String,
    pub latest: String,
    pub description: String,
}

/// No index has been downloaded yet.
#[derive(Debug, PartialEq, Eq, Structural)]
pub struct NoCachedIndexes;

/// The latest version a package offers, or `unknown`.
pub open spec fn latest_or_unknown(p: IndexPackage) -> Seq<char> {
    match version::latest_parcel(version_keys(p)) {
        Some(v) => v,
        None => "unknown"@,
    }
}

/// The results the packages of one remote give for a lower-case query.
pub open spec fn index_hits(
    remote: Seq<char>,
    packages: Seq<(String, IndexPackage)>,
    query: Seq<char>,
) -> Seq<(Seq<char>, Seq<char>, Seq<char>, Seq<char>)>
    decreases packages.len(),
{
    if packages.len() == 0 {
        Seq::empty()
    } else {
        let rest = index_hits(remote, packages.drop_last(), query);
        let (n, p) = packages.last();
        if package_matches_of(n@, p, query) {
            rest.push((remote, n@, latest_or_unknown(p), p.description@))
        } else {
            rest
        }
    }
}

/// The results over all remotes, remote by remote.
pub open spec fn all_index_hits(
    indexes: Seq<(String, RepositoryIndex)>,
    query: Seq<char>,
) -> Seq<(Seq<char>, Seq<char>, Seq<char>, Seq<char>)>
    decreases indexes.len(),
{
    if indexes.len() == 0 {
        Seq::empty()
    } else {
        let (r, idx) = indexes.last();
        all_index_hits(indexes.drop_last(), query) + index_hits(r@, idx.packages@, query)
    }
}

pub open spec fn index_hit_views(v: Seq<IndexHit>) -> Seq<(Seq<char>, Seq<char>, Seq<char>, Seq<char>)> {
    v.map_values(|h: IndexHit| (h.remote@, h.package@, h.latest@, h.description@))
}

/// Searches the cached remote indexes for packages matching `query` by
/// name, description or homepage, ignoring case. Refused when no index is
/// cached.
pub fn search_indexes(indexes: &Vec<(String, RepositoryIndex)>, query: &str) -> (r: Result<
    Vec<IndexHit>,
    NoCachedIndexes,
>)
    ensures
        r is Err <==> indexes@.len() == 0,
        r matches Ok(v) ==> index_hit_views(v@) == all_index_hits(indexes@, text::lowercase(query@)),
{
    let q = text::to_lowercase(query);
    if indexes.len() == 0 {
        return Err(NoCachedIndexes);
    }
    let mut hits: Vec<IndexHit> = Vec::new();
    let mut i: usize = 0;
    while i < indexes.len()
        invariant
            i <= indexes@.len(),
            q@ == text::lowercase(query@),
            index_hit_views(hits@) == all_index_hits(indexes@.subrange(0, i as int), q@),
        decreases indexes@.len() - i,
    {
        let (remote, index) = &indexes[i];
        let ghost start = hits@;
        let mut j: usize = 0;
        while j < index.packages.len()
            invariant
                j <= index.packages@.len(),
                q@ == text::lowercase(query@),
                index_hit_views(hits@) == index_hit_views(start) + index_hits(
                    remote@,
                    index.packages@.subrange(0, j as int),
                    q@,
                ),
            decreases index.packages@.len() - j,
        {
            let (name, package) = &index.packages[j];
            proof {
                assert(index.packages@.subrange(0, j + 1).drop_last() =~= index.packages@.subrange(0, j as int));
            }
            if package_matches(name.as_str(), package, q.as_str()) {
                let keys = version_key_list(package);
                let latest = match version::latest_version(&keys) {
                    Some(v) => v,
                    None => text::string_of(&text::chars_of("unknown")),
                };
                let hit = IndexHit {
                    remote: remote.clone(),
                    package: name.clone(),
                    latest,
                    description: package.description.clone(),
                };
                let ghost before = hits@;
                hits.push(hit);
                proof {
                    assert(index_hit_views(hits@) =~= index_hit_views(before).push(
                        (remote@, name@, latest_or_unknown(*package), package.description@),
                    ));
                }
            }
            j = j + 1;
        }
        proof {
            assert(index.packages@.subrange(0, j as int) =~= index.packages@);
            assert(indexes@.subrange(0, i + 1).drop_last() =~= indexes@.subrange(0, i as int));
        }
        i = i + 1;
    }
    assert(indexes@.subrange(0, i as int) =~= indexes@);
    Ok(hits)
}

} // verus!
