//! Version ordering and upgrade planning over cached repository data.

use core::cmp::Ordering;
use vstd::prelude::*;

use crate::repo::{self, ArtifactRecord, CachedRepo, RepoArchitecture, RepoPackage};
use crate::text;
use crate::utils::arch::Architecture;

verus! {

/// -1, 0 or 1 for `Less`, `Equal` or `Greater`.
pub open spec fn ordering_sign(o: Ordering) -> int {
    match o {
        Ordering::Less => -1,
        Ordering::Equal => 0,
        Ordering::Greater => 1,
    }
}

/// The order of package versions: as semantic versions with a release
/// suffix when both texts have that form, otherwise as plain text.
pub open spec fn version_order(l: Seq<char>, r: Seq<char>) -> int {
    crate::version::parcel_order(l, r)
}

/// The version that `Iterator::max_by(version_order)` picks: the last of
/// the greatest.
pub open spec fn latest_of(s: Seq<Seq<char>>) -> Option<Seq<char>>
    decreases s.len(),
{
    if s.len() == 0 {
        None
    } else if s.len() == 1 {
        Some(s[0])
    } else {
        let best = latest_of(s.drop_last()).unwrap();
        if version_order(best, s.last()) > 0 {
            Some(best)
        } else {
            Some(s.last())
        }
    }
}

pub open spec fn views_of(v: Seq<String>) -> Seq<Seq<char>> {
    v.map_values(|s: String| s@)
}

/// The same order as `compare_versions`, as -1, 0 or 1.
pub fn version_sign(left: &Vec<char>, right: &Vec<char>) -> (r: i8)
    ensures
        r == version_order(left@, right@),
        r == -version_order(right@, left@),
        -1 <= r <= 1,
        left@ == right@ ==> r == 0,
        crate::version::parcel_valid(left@) && crate::version::parcel_valid(right@)
            ==> crate::version::transitive_through(left@, right@, r as int),
{
    crate::version::parcel_sign(left, right)
}

/// Orders two package versions: as `<semver>-<release>` (semantic version
/// first, then the release number) when both texts have that form,
/// otherwise by their text. Swapping the arguments reverses the result,
/// a version is equal to itself, and among versions of that form the
/// order is transitive: a third such version at or below one side is at
/// or below the other side when the result says the sides compare so.
pub fn compare_versions(left: &str, right: &str) -> (r: Ordering)
    ensures
        ordering_sign(r) == version_order(left@, right@),
        ordering_sign(r) == -version_order(right@, left@),
        left@ == right@ ==> r == Ordering::Equal,
        crate::version::parcel_valid(left@) && crate::version::parcel_valid(right@) ==> forall|c: Seq<char>|
            #![trigger version_order(c, left@)]
            #![trigger version_order(c, right@)]
            crate::version::parcel_valid(c) ==> {
                &&& (version_order(c, left@) <= 0 && r != Ordering::Greater ==> version_order(c, right@) <= 0)
                &&& (version_order(c, right@) <= 0 && r != Ordering::Less ==> version_order(c, left@) <= 0)
            },
{
    let l = text::chars_of(left);
    let r = text::chars_of(right);
    let s = version_sign(&l, &r);
    if s < 0 {
        Ordering::Less
    } else if s > 0 {
        Ordering::Greater
    } else {
        Ordering::Equal
    }
}

/// The latest of `versions` under `compare_versions`; among equal
/// versions the last one. `None` when the list is empty.
pub fn latest_version(versions: &Vec<String>) -> (r: Option<String>)
    ensures
        r is None <==> versions@.len() == 0,
        r matches Some(v) ==> latest_of(views_of(versions@)) == Some(v@),
        r matches Some(v) ==> views_of(versions@).contains(v@),
        r matches Some(v) ==> (crate::version::all_parcel_valid(views_of(versions@)) ==> forall|j: int|
            0 <= j < versions@.len() ==> #[trigger] versions@[j]@ == v@ || version_order(versions@[j]@, v@) <= 0),
{
    if versions.len() == 0 {
        return None;
    }
    let mut best: usize = 0;
    let mut best_chars = text::chars_of(versions[0].as_str());
    let mut i: usize = 1;
    assert(views_of(versions@).subrange(0, 1) =~= seq![versions@[0]@]);
    while i < versions.len()
        invariant
            1 <= i <= versions.len(),
            best < versions.len(),
            best_chars@ == versions@[best as int]@,
            latest_of(views_of(versions@).subrange(0, i as int)) == Some(versions@[best as int]@),
            crate::version::all_parcel_valid(views_of(versions@)) ==> forall|j: int|
                0 <= j < i ==> #[trigger] versions@[j]@ == versions@[best as int]@ || version_order(
                    versions@[j]@,
                    versions@[best as int]@,
                ) <= 0,
        decreases versions.len() - i,
    {
        let next = text::chars_of(versions[i].as_str());
        proof {
            let s = views_of(versions@).subrange(0, i + 1);
            assert(s.drop_last() =~= views_of(versions@).subrange(0, i as int));
        }
        let sign = version_sign(&best_chars, &next);
        proof {
            let vs = views_of(versions@);
            if crate::version::all_parcel_valid(vs) {
                assert(vs[best as int] == versions@[best as int]@);
                assert(vs[i as int] == versions@[i as int]@);
                assert(crate::version::parcel_valid(vs[best as int]) && crate::version::parcel_valid(vs[i as int]));
                assert forall|j: int| 0 <= j < i implies crate::version::parcel_valid(#[trigger] versions@[j]@) by {
                    assert(vs[j] == versions@[j]@);
                }
            }
        }
        if sign <= 0 {
            best = i;
            best_chars = next;
        }
        i = i + 1;
    }
    assert(views_of(versions@).subrange(0, i as int) =~= views_of(versions@));
    assert(views_of(versions@)[best as int] == versions@[best as int]@);
    Some(versions[best].clone())
}

/// The latest version is one of the candidates.
pub proof fn law_latest_is_candidate(s: Seq<Seq<char>>)
    requires
        s.len() > 0,
    ensures
        latest_of(s) is Some,
        s.contains(latest_of(s).unwrap()),
    decreases s.len(),
{
    if s.len() == 1 {
        assert(s[0] == s[0]);
    } else {
        let p = s.drop_last();
        law_latest_is_candidate(p);
        let best = latest_of(p).unwrap();
        let j = choose|j: int| 0 <= j < p.len() && p[j] == best;
        assert(s[j] == best);
        assert(s[s.len() - 1] == s.last());
    }
}

/// The repository, package entry and architecture data chosen for a
/// package name. The chosen package is moved out of `repo.index`, and the
/// chosen architecture data out of `package`.
pub struct PackageSelection {
    pub name: String,
    pub repo: CachedRepo,
    pub package: RepoPackage,
    pub arch: Architecture,
    pub arch_data: RepoArchitecture,
}

/// A full package archive to download.
pub struct ResolvedPackageArtifact {
    pub version: String,
    pub checksum: String,
    pub size: u64,
    pub url: String,
    pub repo_name: String,
}

/// A delta archive to download, from one version to the next.
pub struct ResolvedDeltaArtifact {
    pub from_version: String,
    pub to_version: String,
    pub checksum: String,
    pub size: u64,
    pub url: String,
    pub repo_name: String,
}

/// One step of an upgrade.
pub enum UpgradeStep {
    Full(ResolvedPackageArtifact),
    Delta(ResolvedDeltaArtifact),
}

/// How to reach `target_version`: one full download, or a chain of deltas.
pub struct UpgradePlan {
    pub target_version: String,
    pub steps: Vec<UpgradeStep>,
    pub total_size: u64,
}

/// Why a package could not be resolved.
#[derive(Debug, PartialEq, Eq, Structural)]
pub enum ResolveError {
    /// The package has no versions for the current architecture.
    NoVersionsForArch,
    /// The requested version is not offered.
    VersionNotFound,
    /// The package has no versions to upgrade to.
    NoAvailableVersions,
    /// The target version vanished from the index.
    TargetMissing,
}

/// Package and architecture positions of `name` for `arch` in a repository.
pub open spec fn package_position(r: CachedRepo, name: Seq<char>, arch: Architecture) -> Option<
    (int, int),
> {
    let pi = repo::key_index(r.index.packages@, name);
    if pi < 0 {
        None
    } else {
        let ai = repo::arch_index(r.index.packages@[pi].1.architectures@, arch);
        if ai < 0 {
            None
        } else {
            Some((pi, ai))
        }
    }
}

pub open spec fn arch_data_at(r: CachedRepo, pos: (int, int)) -> RepoArchitecture {
    r.index.packages@[pos.0].1.architectures@[pos.1].1
}

/// The latest version of some architecture data, or the empty text when it
/// has none.
pub open spec fn latest_or_empty(a: RepoArchitecture) -> Seq<char> {
    match latest_of(repo::key_views(a.versions@)) {
        Some(v) => v,
        None => Seq::empty(),
    }
}

/// Which repository `resolve_package` picks: the first one that offers the
/// package for the architecture, replaced by a later one only when that
/// one's latest version is strictly greater. -1 when none offers it.
pub open spec fn chosen_repo(repos: Seq<CachedRepo>, name: Seq<char>, arch: Architecture) -> int
    decreases repos.len(),
{
    if repos.len() == 0 {
        -1
    } else {
        let prev = chosen_repo(repos.drop_last(), name, arch);
        let last = repos.len() - 1;
        match package_position(repos.last(), name, arch) {
            None => prev,
            Some(pos) => if prev < 0 {
                last
            } else if version_order(
                latest_or_empty(arch_data_at(repos.last(), pos)),
                latest_or_empty(arch_data_at(repos[prev], package_position(repos[prev], name, arch).unwrap())),
            ) > 0 {
                last
            } else {
                prev
            },
        }
    }
}

pub proof fn lemma_chosen_repo(repos: Seq<CachedRepo>, name: Seq<char>, arch: Architecture)
    ensures
        -1 <= chosen_repo(repos, name, arch) < repos.len(),
        chosen_repo(repos, name, arch) >= 0 ==> package_position(repos[chosen_repo(repos, name, arch)], name, arch) is Some,
    decreases repos.len(),
{
    if repos.len() > 0 {
        lemma_chosen_repo(repos.drop_last(), name, arch);
    }
}

/// Whether the version order is a total order on the texts of `s`:
/// swapping the arguments flips the sign, and it is transitive.
pub open spec fn order_total_on(s: Set<Seq<char>>) -> bool {
    &&& forall|a: Seq<char>, b: Seq<char>|
        s.contains(a) && s.contains(b) ==> #[trigger] version_order(a, b) == -version_order(b, a)
    &&& forall|a: Seq<char>, b: Seq<char>, c: Seq<char>|
        #![trigger version_order(a, b), version_order(b, c)]
        s.contains(a) && s.contains(b) && s.contains(c) && version_order(a, b) <= 0 && version_order(b, c) <= 0
            ==> version_order(a, c) <= 0
}

/// Where the order is total, the version `latest_of` picks is one of the
/// candidates and no candidate is greater.
pub proof fn lemma_latest_of_greatest(v: Seq<Seq<char>>, s: Set<Seq<char>>)
    requires
        v.len() > 0,
        order_total_on(s),
        forall|i: int| 0 <= i < v.len() ==> s.contains(#[trigger] v[i]),
    ensures
        latest_of(v) is Some,
        v.contains(latest_of(v).unwrap()),
        s.contains(latest_of(v).unwrap()),
        forall|i: int| 0 <= i < v.len() ==> version_order(#[trigger] v[i], latest_of(v).unwrap()) <= 0,
    decreases v.len(),
{
    law_latest_is_candidate(v);
    let l = latest_of(v).unwrap();
    let j = choose|j: int| 0 <= j < v.len() && v[j] == l;
    assert(s.contains(v[j]));
    if v.len() == 1 {
        assert(version_order(v[0], v[0]) == -version_order(v[0], v[0]));
    } else {
        let p = v.drop_last();
        assert forall|i: int| 0 <= i < p.len() implies s.contains(#[trigger] p[i]) by {
            assert(p[i] == v[i]);
        }
        lemma_latest_of_greatest(p, s);
        let best = latest_of(p).unwrap();
        let last = v.last();
        assert(s.contains(v[v.len() - 1]));
        assert(version_order(best, last) == -version_order(last, best));
        assert(version_order(last, last) == -version_order(last, last));
        assert forall|i: int| 0 <= i < v.len() implies version_order(#[trigger] v[i], l) <= 0 by {
            if i < v.len() - 1 {
                assert(p[i] == v[i]);
                assert(version_order(p[i], best) <= 0);
                if version_order(best, last) <= 0 {
                    assert(s.contains(v[i]));
                    assert(version_order(v[i], last) <= 0);
                }
            }
        }
    }
}

/// Whether repository `k` offers version `w` of `name` for `arch`.
pub open spec fn offers(repos: Seq<CachedRepo>, k: int, name: Seq<char>, arch: Architecture, w: Seq<char>) -> bool {
    &&& 0 <= k < repos.len()
    &&& match package_position(repos[k], name, arch) {
        Some(pos) => repo::key_views(arch_data_at(repos[k], pos).versions@).contains(w),
        None => false,
    }
}

/// Every version any repository offers of `name` for `arch`.
pub open spec fn offered_versions(repos: Seq<CachedRepo>, name: Seq<char>, arch: Architecture) -> Set<Seq<char>> {
    Set::new(|w: Seq<char>| exists|k: int| offers(repos, k, name, arch, w))
}

proof fn lemma_chosen_greatest(repos: Seq<CachedRepo>, name: Seq<char>, arch: Architecture, s: Set<Seq<char>>)
    requires
        order_total_on(s),
        s.contains(Seq::<char>::empty()),
        forall|k: int, w: Seq<char>| #[trigger] offers(repos, k, name, arch, w) ==> s.contains(w),
    ensures
        chosen_repo(repos, name, arch) < 0 ==> forall|k: int|
            0 <= k < repos.len() ==> #[trigger] package_position(repos[k], name, arch) is None,
        chosen_repo(repos, name, arch) >= 0 ==> s.contains(
            latest_or_empty(
                arch_data_at(
                    repos[chosen_repo(repos, name, arch)],
                    package_position(repos[chosen_repo(repos, name, arch)], name, arch).unwrap(),
                ),
            ),
        ),
        chosen_repo(repos, name, arch) >= 0 ==> forall|k: int, w: Seq<char>| #[trigger]
            offers(repos, k, name, arch, w) ==> version_order(
                w,
                latest_or_empty(
                    arch_data_at(
                        repos[chosen_repo(repos, name, arch)],
                        package_position(repos[chosen_repo(repos, name, arch)], name, arch).unwrap(),
                    ),
                ),
            ) <= 0,
    decreases repos.len(),
{
    lemma_chosen_repo(repos, name, arch);
    if repos.len() > 0 {
        let p = repos.drop_last();
        let last = repos.len() - 1;
        assert forall|k: int, w: Seq<char>| #[trigger] offers(p, k, name, arch, w) implies s.contains(w) by {
            assert(p[k] == repos[k]);
            assert(offers(repos, k, name, arch, w));
        }
        lemma_chosen_greatest(p, name, arch, s);
        lemma_chosen_repo(p, name, arch);
        let prev = chosen_repo(p, name, arch);
        let b = chosen_repo(repos, name, arch);
        assert(repos.last() == repos[last]);
        let lp = if prev >= 0 {
            latest_or_empty(arch_data_at(p[prev], package_position(p[prev], name, arch).unwrap()))
        } else {
            Seq::<char>::empty()
        };
        if prev >= 0 {
            assert(p[prev] == repos[prev]);
        }
        match package_position(repos[last], name, arch) {
            None => {
                assert forall|k: int, w: Seq<char>| #[trigger] offers(repos, k, name, arch, w) implies offers(
                    p,
                    k,
                    name,
                    arch,
                    w,
                ) by {
                    assert(p[k] == repos[k]);
                }
                assert forall|k: int| 0 <= k < repos.len() implies #[trigger] package_position(repos[k], name, arch) is None
                    || b >= 0 by {
                    if k < last {
                        assert(p[k] == repos[k]);
                    }
                }
            },
            Some(pos) => {
                let data = arch_data_at(repos[last], pos);
                let keys = repo::key_views(data.versions@);
                let ll = latest_or_empty(data);
                assert forall|i: int| 0 <= i < keys.len() implies s.contains(#[trigger] keys[i]) by {
                    assert(offers(repos, last, name, arch, keys[i]));
                }
                if keys.len() > 0 {
                    lemma_latest_of_greatest(keys, s);
                }
                assert(s.contains(ll));
                if prev >= 0 {
                    assert(version_order(ll, lp) == -version_order(lp, ll));
                }
                assert forall|k: int, w: Seq<char>| #[trigger] offers(repos, k, name, arch, w) implies version_order(
                    w,
                    latest_or_empty(arch_data_at(repos[b], package_position(repos[b], name, arch).unwrap())),
                ) <= 0 by {
                    assert(s.contains(w));
                    if k < last {
                        assert(p[k] == repos[k]);
                        assert(offers(p, k, name, arch, w));
                        if b == last {
                            assert(version_order(w, lp) <= 0);
                            assert(version_order(lp, ll) <= 0);
                        }
                    } else {
                        let i = choose|i: int| 0 <= i < keys.len() && keys[i] == w;
                        assert(version_order(keys[i], ll) <= 0);
                        if b != last {
                            assert(version_order(ll, lp) <= 0);
                        }
                    }
                }
            },
        }
    }
}

/// The repository chosen for a package offers, for the architecture, a
/// version that no version offered by any repository exceeds: the
/// repositories are compared by the greatest version they offer, in
/// whatever order their versions are listed. It holds where the version
/// order is total on the offered versions (with the empty text, which a
/// repository without versions counts as) and no offered version is empty.
/// That version is the chosen repository's latest, which is what
/// `resolve_install_target` installs when no version is requested.
pub proof fn law_chosen_repo_offers_greatest(repos: Seq<CachedRepo>, name: Seq<char>, arch: Architecture)
    requires
        order_total_on(offered_versions(repos, name, arch).insert(Seq::<char>::empty())),
        forall|k: int, w: Seq<char>| #[trigger] offers(repos, k, name, arch, w) ==> w.len() > 0,
    ensures
        (exists|k: int, w: Seq<char>| #[trigger] offers(repos, k, name, arch, w)) ==> {
            &&& chosen_repo(repos, name, arch) >= 0
            &&& exists|v: Seq<char>| {
                &&& #[trigger] offers(repos, chosen_repo(repos, name, arch), name, arch, v)
                &&& forall|k: int, w: Seq<char>| #[trigger] offers(repos, k, name, arch, w) ==> version_order(w, v) <= 0
                &&& latest_of(
                    repo::key_views(
                        arch_data_at(
                            repos[chosen_repo(repos, name, arch)],
                            package_position(repos[chosen_repo(repos, name, arch)], name, arch).unwrap(),
                        ).versions@,
                    ),
                ) == Some(v)
            }
        },
{
    let s = offered_versions(repos, name, arch).insert(Seq::<char>::empty());
    assert forall|k: int, w: Seq<char>| #[trigger] offers(repos, k, name, arch, w) implies s.contains(w) by {
        assert(offered_versions(repos, name, arch).contains(w));
    }
    lemma_chosen_greatest(repos, name, arch, s);
    lemma_chosen_repo(repos, name, arch);
    if exists|k: int, w: Seq<char>| #[trigger] offers(repos, k, name, arch, w) {
        let (k0, w0) = choose|k: int, w: Seq<char>| #[trigger] offers(repos, k, name, arch, w);
        assert(package_position(repos[k0], name, arch) is Some);
        let b = chosen_repo(repos, name, arch);
        let data = arch_data_at(repos[b], package_position(repos[b], name, arch).unwrap());
        let keys = repo::key_views(data.versions@);
        let lb = latest_or_empty(data);
        assert(version_order(w0, lb) <= 0);
        if keys.len() == 0 {
            assert(lb == Seq::<char>::empty());
            assert(crate::version::parcel_parts(lb) is None);
            assert(version_order(w0, lb) == text::lex_chars(w0, lb));
            assert(false);
        }
        law_latest_is_candidate(keys);
        assert(offers(repos, b, name, arch, lb));
    }
}

/// The latest version of some architecture data, or the empty text.
fn latest_chars(a: &RepoArchitecture) -> (r: Vec<char>)
    ensures
        r@ == latest_or_empty(*a),
{
    let keys = repo::record_keys(&a.versions);
    match latest_version(&keys) {
        Some(v) => text::chars_of(v.as_str()),
        None => Vec::new(),
    }
}

/// Picks the repository to take a package from: among the repositories
/// that offer `name` for `arch`, the first whose latest version is
/// greatest.
pub fn resolve_package(repos: Vec<CachedRepo>, name: &str, arch: Architecture) -> (r: Option<
    PackageSelection,
>)
    ensures
        r is None <==> chosen_repo(repos@, name@, arch) < 0,
        r matches Some(sel) ==> {
            let b = chosen_repo(repos@, name@, arch);
            let pos = package_position(repos@[b], name@, arch).unwrap();
            &&& sel.name@ == name@
            &&& sel.arch == arch
            &&& sel.repo.config == repos@[b].config
            &&& sel.repo.index.download_template == repos@[b].index.download_template
            &&& sel.repo.index.delta_download_template == repos@[b].index.delta_download_template
            &&& sel.package.description == repos@[b].index.packages@[pos.0].1.description
            &&& sel.package.homepage == repos@[b].index.packages@[pos.0].1.homepage
            &&& sel.arch_data == arch_data_at(repos@[b], pos)
        },
{
    let key = text::chars_of(name);
    let mut best: Option<(usize, usize, usize)> = None;
    let mut best_latest: Vec<char> = Vec::new();
    let mut i: usize = 0;
    while i < repos.len()
        invariant
            i <= repos.len(),
            key@ == name@,
            chosen_repo(repos@.subrange(0, i as int), name@, arch) == match best {
                Some((b, _, _)) => b as int,
                None => -1,
            },
            best matches Some((b, pi, ai)) ==> b < i && package_position(repos@[b as int], name@, arch)
                == Some((pi as int, ai as int)) && best_latest@ == latest_or_empty(
                arch_data_at(repos@[b as int], (pi as int, ai as int)),
            ),
        decreases repos.len() - i,
    {
        proof {
            assert(repos@.subrange(0, i + 1).drop_last() =~= repos@.subrange(0, i as int));
            assert(repos@.subrange(0, i + 1).last() == repos@[i as int]);
        }
        let repo_i = &repos[i];
        match repo::find_key(&repo_i.index.packages, &key) {
            None => {},
            Some(pi) => {
                proof {
                    repo::lemma_key_index(repo_i.index.packages@, key@);
                }
                match repo::find_arch(&repo_i.index.packages[pi].1.architectures, arch) {
                    None => {},
                    Some(ai) => {
                        proof {
                            repo::lemma_arch_index(repo_i.index.packages@[pi as int].1.architectures@, arch);
                        }
                        let latest = latest_chars(&repo_i.index.packages[pi].1.architectures[ai].1);
                        match best {
                            None => {
                                best = Some((i, pi, ai));
                                best_latest = latest;
                            },
                            Some(_) => {
                                if version_sign(&latest, &best_latest) > 0 {
                                    best = Some((i, pi, ai));
                                    best_latest = latest;
                                }
                            },
                        }
                    },
                }
            },
        }
        proof {
            if let Some((b, pi, ai)) = best {
                if b < i {
                    assert(repos@.subrange(0, i + 1)[b as int] == repos@[b as int]);
                }
            }
        }
        i = i + 1;
    }
    assert(repos@.subrange(0, i as int) =~= repos@);
    match best {
        None => None,
        Some((b, pi, ai)) => {
            let mut repos = repos;
            proof {
                repo::lemma_key_index(repos@[b as int].index.packages@, key@);
                repo::lemma_arch_index(repos@[b as int].index.packages@[pi as int].1.architectures@, arch);
            }
            let mut chosen = repos.remove(b);
            let (pname, mut package) = chosen.index.packages.remove(pi);
            let (parch, arch_data) = package.architectures.remove(ai);
            Some(PackageSelection {
                name: text::string_of(&key),
                repo: chosen,
                package,
                arch,
                arch_data,
            })
        },
    }
}


pub open spec fn arrow() -> Seq<char> {
    seq!['-', '>']
}

/// The `from` and `to` versions of a delta key `from->to`, split at the
/// first `->`.
pub open spec fn edge_parts(key: Seq<char>) -> Option<(Seq<char>, Seq<char>)> {
    let i = text::first_occurrence(key, arrow());
    if i < 0 {
        None
    } else {
        Some((key.subrange(0, i), key.subrange(i + 2, key.len() as int)))
    }
}

pub open spec fn edge_ok(d: Seq<(String, ArtifactRecord)>, i: int) -> bool {
    0 <= i < d.len() && edge_parts(d[i].0@) is Some
}

pub open spec fn edge_from(d: Seq<(String, ArtifactRecord)>, i: int) -> Seq<char> {
    edge_parts(d[i].0@).unwrap().0
}

pub open spec fn edge_to(d: Seq<(String, ArtifactRecord)>, i: int) -> Seq<char> {
    edge_parts(d[i].0@).unwrap().1
}

/// Whether delta `i` may be taken from version `from`: it starts there,
/// leads to a version not yet visited, and that version is greater.
pub open spec fn step_allowed(
    d: Seq<(String, ArtifactRecord)>,
    i: int,
    from: Seq<char>,
    visited: Seq<Seq<char>>,
) -> bool {
    &&& edge_ok(d, i)
    &&& edge_from(d, i) == from
    &&& !visited.contains(edge_to(d, i))
    &&& version_order(edge_to(d, i), from) > 0
}

/// Whether the deltas `ext` lead from `from` to `target`, with `depth`
/// steps already taken: each step allowed, at most three steps in all, and
/// the chain stops as soon as it reaches `target`.
pub open spec fn valid_chain(
    d: Seq<(String, ArtifactRecord)>,
    from: Seq<char>,
    target: Seq<char>,
    visited: Seq<Seq<char>>,
    depth: int,
    ext: Seq<usize>,
) -> bool
    decreases ext.len(),
{
    &&& ext.len() > 0
    &&& depth < 3
    &&& step_allowed(d, ext[0] as int, from, visited)
    &&& if edge_to(d, ext[0] as int) == target {
        ext.len() == 1
    } else {
        valid_chain(
            d,
            edge_to(d, ext[0] as int),
            target,
            visited.push(edge_to(d, ext[0] as int)),
            depth + 1,
            ext.drop_first(),
        )
    }
}

/// Total download size of a chain of deltas.
pub open spec fn chain_size(d: Seq<(String, ArtifactRecord)>, ext: Seq<usize>) -> int
    decreases ext.len(),
{
    if ext.len() == 0 {
        0
    } else {
        d[ext[0] as int].1.size + chain_size(d, ext.drop_first())
    }
}

pub open spec fn char_views(v: Seq<Vec<char>>) -> Seq<Seq<char>> {
    v.map_values(|x: Vec<char>| x@)
}

/// The parsed endpoints of every delta key, in order.
pub open spec fn edges_match(edges: Seq<Option<(Vec<char>, Vec<char>)>>, d: Seq<(String, ArtifactRecord)>) -> bool {
    &&& edges.len() == d.len()
    &&& forall|i: int| 0 <= i < d.len() ==> {
        &&& (#[trigger] edges[i] is Some <==> edge_parts(d[i].0@) is Some)
        &&& edges[i] matches Some((f, t)) ==> f@ == edge_from(d, i) && t@ == edge_to(d, i)
    }
}

/// The best plan found so far: a chain of delta indices, or none for a
/// full download, and its total size.
pub struct SearchBest {
    pub chain: Option<Vec<usize>>,
    pub total: u64,
}

fn parse_edges(deltas: &Vec<(String, ArtifactRecord)>) -> (r: Vec<Option<(Vec<char>, Vec<char>)>>)
    ensures
        edges_match(r@, deltas@),
{
    let arrow_chars: Vec<char> = vec!['-', '>'];
    let mut r: Vec<Option<(Vec<char>, Vec<char>)>> = Vec::new();
    let mut i: usize = 0;
    while i < deltas.len()
        invariant
            i <= deltas.len(),
            arrow_chars@ == arrow(),
            r@.len() == i,
            forall|j: int| 0 <= j < i ==> {
                &&& (#[trigger] r@[j] is Some <==> edge_parts(deltas@[j].0@) is Some)
                &&& r@[j] matches Some((f, t)) ==> f@ == edge_from(deltas@, j) && t@ == edge_to(deltas@, j)
            },
        decreases deltas.len() - i,
    {
        let key = text::chars_of(deltas[i].0.as_str());
        let e = text::split_once_exec(&key, &arrow_chars);
        r.push(e);
        i = i + 1;
    }
    r
}

/// Whether `v` holds a sequence equal to `x`.
fn contains_chars(v: &Vec<Vec<char>>, x: &Vec<char>) -> (r: bool)
    ensures
        r == char_views(v@).contains(x@),
{
    let mut i: usize = 0;
    while i < v.len()
        invariant
            i <= v.len(),
            forall|j: int| 0 <= j < i ==> v@[j]@ != x@,
        decreases v.len() - i,
    {
        if text::chars_eq(&v[i], x) {
            assert(char_views(v@)[i as int] == x@);
            return true;
        }
        i = i + 1;
    }
    proof {
        if char_views(v@).contains(x@) {
            let j = choose|j: int| 0 <= j < char_views(v@).len() && char_views(v@)[j] == x@;
            assert(v@[j]@ == x@);
        }
    }
    false
}

fn copy_indices(v: &Vec<usize>) -> (r: Vec<usize>)
    ensures
        r@ == v@,
{
    let mut r: Vec<usize> = Vec::new();
    let mut i: usize = 0;
    while i < v.len()
        invariant
            i <= v.len(),
            r@ == v@.subrange(0, i as int),
        decreases v.len() - i,
    {
        r.push(v[i]);
        i = i + 1;
    }
    assert(v@.subrange(0, i as int) =~= v@);
    r
}

/// Whether chain `a` comes no later than chain `b` in the order the
/// search tries chains: by delta index at the first place they differ.
pub open spec fn chain_before(a: Seq<usize>, b: Seq<usize>) -> bool
    decreases a.len(),
{
    if a.len() == 0 {
        true
    } else if b.len() == 0 {
        false
    } else if a[0] < b[0] {
        true
    } else if a[0] > b[0] {
        false
    } else {
        chain_before(a.drop_first(), b.drop_first())
    }
}

pub proof fn lemma_chain_before_cons(i: usize, a: Seq<usize>, b: Seq<usize>)
    ensures
        chain_before(seq![i].add(a), seq![i].add(b)) == chain_before(a, b),
{
    assert(seq![i].add(a).drop_first() =~= a);
    assert(seq![i].add(b).drop_first() =~= b);
}

pub proof fn lemma_chain_before_refl(a: Seq<usize>)
    ensures
        chain_before(a, a),
    decreases a.len(),
{
    if a.len() > 0 {
        lemma_chain_before_refl(a.drop_first());
    }
}

/// What the search from one node guarantees about the best plan it leaves.
pub open spec fn search_post(
    d: Seq<(String, ArtifactRecord)>,
    from: Seq<char>,
    target: Seq<char>,
    visited: Seq<Seq<char>>,
    depth: int,
    path: Seq<usize>,
    path_total: int,
    before: SearchBest,
    after: SearchBest,
) -> bool {
    &&& after.total <= before.total
    &&& forall|ext: Seq<usize>| #[trigger] valid_chain(d, from, target, visited, depth, ext)
        ==> after.total <= path_total + chain_size(d, ext)
    &&& (after == before || (after.total < before.total && (after.chain matches Some(c) && c@.len() > path.len() && c@.subrange(
        0,
        path.len() as int,
    ) == path && valid_chain(d, from, target, visited, depth, c@.skip(path.len() as int))
        && after.total == path_total + chain_size(d, c@.skip(path.len() as int)))))
    &&& after.total < before.total ==> (after.chain matches Some(c) && forall|ext: Seq<usize>|
        #[trigger] valid_chain(d, from, target, visited, depth, ext) && path_total + chain_size(d, ext) == after.total
            ==> chain_before(c@.skip(path.len() as int), ext))
}

pub proof fn lemma_chain_cons(d: Seq<(String, ArtifactRecord)>, i: usize, rest: Seq<usize>)
    ensures
        seq![i].add(rest).drop_first() == rest,
        chain_size(d, seq![i].add(rest)) == d[i as int].1.size + chain_size(d, rest),
{
    assert(seq![i].add(rest).drop_first() =~= rest);
}

/// Depth-first search over delta chains from `current` to `target`,
/// keeping the cheapest chain that is cheaper than what `best` holds.
fn dfs_delta_paths(
    deltas: &Vec<(String, ArtifactRecord)>,
    edges: &Vec<Option<(Vec<char>, Vec<char>)>>,
    current: &Vec<char>,
    target: &Vec<char>,
    depth: usize,
    path: &mut Vec<usize>,
    path_total: u128,
    visited: &mut Vec<Vec<char>>,
    best: &mut SearchBest,
)
    requires
        edges_match(edges@, deltas@),
        depth <= 3,
        path_total <= depth * 0xffff_ffff_ffff_ffffu128,
    ensures
        final(path)@ == old(path)@,
        final(visited)@ == old(visited)@,
        search_post(
            deltas@,
            current@,
            target@,
            char_views(old(visited)@),
            depth as int,
            old(path)@,
            path_total as int,
            *old(best),
            *final(best),
        ),
    decreases 3 - depth,
{
    let ghost d = deltas@;
    let ghost vis = char_views(visited@);
    let ghost start_best = *best;
    if depth >= 3 {
        return;
    }
    let mut i: usize = 0;
    while i < edges.len()
        invariant
            edges_match(edges@, d),
            d == deltas@,
            depth < 3,
            path_total <= depth * 0xffff_ffff_ffff_ffffu128,
            path@ == old(path)@,
            visited@ == old(visited)@,
            vis == char_views(visited@),
            start_best == *old(best),
            i <= edges.len(),
            best.total <= start_best.total,
            forall|ext: Seq<usize>| #[trigger] valid_chain(d, current@, target@, vis, depth as int, ext)
                && ext[0] < i ==> best.total <= path_total + chain_size(d, ext),
            *best == start_best || (best.total < start_best.total && (best.chain matches Some(c) && c@.len() > path@.len()
                && c@.subrange(0, path@.len() as int) == path@ && valid_chain(
                d,
                current@,
                target@,
                vis,
                depth as int,
                c@.skip(path@.len() as int),
            ) && best.total == path_total + chain_size(d, c@.skip(path@.len() as int)))),
            best.total < start_best.total ==> (best.chain matches Some(c) && c@.len() > path@.len() && c@[path@.len() as int] < i
                && forall|ext: Seq<usize>| #[trigger] valid_chain(d, current@, target@, vis, depth as int, ext)
                && ext[0] < i && path_total + chain_size(d, ext) == best.total ==> chain_before(
                c@.skip(path@.len() as int),
                ext,
            )),
        decreases edges.len() - i,
    {
        let ghost best_before = *best;
        match &edges[i] {
            None => {},
            Some((f, t)) => {
                if text::chars_eq(f, current) && !contains_chars(visited, t) && version_sign(t, current)
                    > 0 {
                    let size = deltas[i].1.size;
                    let new_total: u128 = path_total + size as u128;
                    if text::chars_eq(t, target) {
                        if new_total < best.total as u128 {
                            let mut chain = copy_indices(path);
                            chain.push(i);
                            proof {
                                let ext = seq![i];
                                lemma_chain_before_refl(ext);
                                assert(chain@.skip(path@.len() as int) =~= ext);
                                assert(chain@.subrange(0, path@.len() as int) =~= path@);
                                assert(ext.drop_first() =~= Seq::<usize>::empty());
                                assert(valid_chain(d, current@, target@, vis, depth as int, ext));
                                assert(chain_size(d, ext.drop_first()) == 0);
                                assert(chain_size(d, ext) == size);
                            }
                            *best = SearchBest { chain: Some(chain), total: new_total as u64 };
                        }
                        proof {
                            if *best != best_before {
                                let tail = best.chain.unwrap()@.skip(path@.len() as int);
                                assert(tail =~= seq![i]);
                                assert forall|ext: Seq<usize>| #[trigger] valid_chain(d, current@, target@, vis, depth as int, ext)
                                    && ext[0] == i && path_total + chain_size(d, ext) == best.total implies chain_before(
                                    tail,
                                    ext,
                                ) by {
                                    assert(edge_to(d, ext[0] as int) == target@);
                                    assert(ext.len() == 1);
                                    assert(ext =~= seq![i]);
                                    lemma_chain_before_refl(ext);
                                }
                            }
                        }
                        proof {
                            assert forall|ext: Seq<usize>| #[trigger] valid_chain(d, current@, target@, vis, depth as int, ext)
                                && ext[0] == i implies best.total <= path_total + chain_size(d, ext) by {
                                assert(edge_to(d, ext[0] as int) == target@);
                                assert(ext.len() == 1);
                                assert(ext.drop_first() =~= Seq::<usize>::empty());
                                assert(chain_size(d, ext.drop_first()) == 0);
                                assert(chain_size(d, ext) == size);
                            }
                        }
                    } else {
                        let ghost old_path = path@;
                        path.push(i);
                        let t_copy = text::copy_chars(t);
                        visited.push(t_copy);
                        proof {
                            assert(char_views(visited@) =~= vis.push(t@));
                        }
                        dfs_delta_paths(deltas, edges, t, target, depth + 1, path, new_total, visited, best);
                        let _ = path.pop();
                        let _ = visited.pop();
                        proof {
                            assert(path@ =~= old_path);
                            assert(visited@ =~= old(visited)@);
                            let np = old_path.push(i);
                            assert forall|ext: Seq<usize>| #[trigger] valid_chain(d, current@, target@, vis, depth as int, ext)
                                && ext[0] == i implies best.total <= path_total + chain_size(d, ext) by {
                                let rest = ext.drop_first();
                                assert(ext =~= seq![i].add(rest));
                                lemma_chain_cons(d, i, rest);
                                assert(valid_chain(d, t@, target@, vis.push(t@), depth + 1, rest));
                            }
                            if *best != best_before {
                                let c = best.chain.unwrap();
                                let tail = c@.skip(np.len() as int);
                                assert(c@.subrange(0, old_path.len() as int) =~= old_path) by {
                                    assert(c@.subrange(0, np.len() as int) == np);
                                    assert forall|k: int| 0 <= k < old_path.len() implies c@[k] == old_path[k] by {
                                        assert(c@.subrange(0, np.len() as int)[k] == np[k]);
                                    }
                                }
                                assert(c@[old_path.len() as int] == i) by {
                                    assert(c@.subrange(0, np.len() as int)[old_path.len() as int] == np[old_path.len() as int]);
                                }
                                let whole = c@.skip(old_path.len() as int);
                                assert(whole =~= seq![i].add(tail));
                                lemma_chain_cons(d, i, tail);
                                assert(valid_chain(d, t@, target@, vis.push(t@), depth + 1, tail));
                                assert(valid_chain(d, current@, target@, vis, depth as int, whole));
                                assert(best.total == path_total + chain_size(d, whole));
                                assert(c@.skip(old_path.len() as int)[0] == i);
                                assert forall|ext: Seq<usize>| #[trigger] valid_chain(d, current@, target@, vis, depth as int, ext)
                                    && ext[0] == i && path_total + chain_size(d, ext) == best.total implies chain_before(
                                    whole,
                                    ext,
                                ) by {
                                    let rest = ext.drop_first();
                                    assert(ext =~= seq![i].add(rest));
                                    lemma_chain_cons(d, i, rest);
                                    assert(valid_chain(d, t@, target@, vis.push(t@), depth + 1, rest));
                                    assert(new_total + chain_size(d, rest) == best.total);
                                    assert(chain_before(tail, rest));
                                    lemma_chain_before_cons(i, tail, rest);
                                }
                            }
                        }
                    }
                }
            },
        }
        proof {
            if best.total < start_best.total {
                let c = best.chain.unwrap();
                let tail = c@.skip(path@.len() as int);
                if *best == best_before {
                    assert forall|ext: Seq<usize>| #[trigger] valid_chain(d, current@, target@, vis, depth as int, ext)
                        && ext[0] < i + 1 && path_total + chain_size(d, ext) == best.total implies chain_before(tail, ext) by {
                        if ext[0] == i {
                            assert(tail[0] == c@[path@.len() as int]);
                            assert(tail.len() > 0 && ext.len() > 0);
                        }
                    }
                } else {
                    assert(tail[0] == c@[path@.len() as int]);
                    assert forall|ext: Seq<usize>| #[trigger] valid_chain(d, current@, target@, vis, depth as int, ext)
                        && ext[0] < i + 1 && path_total + chain_size(d, ext) == best.total implies chain_before(tail, ext) by {
                        if ext[0] < i {
                            assert(best_before.total <= path_total + chain_size(d, ext));
                        } else {
                            assert(step_allowed(d, ext[0] as int, current@, vis));
                        }
                    }
                }
            }
            assert forall|ext: Seq<usize>| #[trigger] valid_chain(d, current@, target@, vis, depth as int, ext)
                && ext[0] < i + 1 implies best.total <= path_total + chain_size(d, ext) by {
                if ext[0] < i {
                    assert(best_before.total <= path_total + chain_size(d, ext));
                } else {
                    assert(step_allowed(d, ext[0] as int, current@, vis));
                }
            }
        }
        i = i + 1;
    }
    proof {
        assert forall|ext: Seq<usize>| #[trigger] valid_chain(d, current@, target@, vis, depth as int, ext)
            implies best.total <= path_total + chain_size(d, ext) by {
            assert(step_allowed(d, ext[0] as int, current@, vis));
        }
    }
}


/// Whether `a` is the full-package artifact for `version` of the record
/// `rec`, downloaded from `repo`.
pub open spec fn full_artifact_is(
    a: ResolvedPackageArtifact,
    repo: CachedRepo,
    name: Seq<char>,
    arch: Architecture,
    version: Seq<char>,
    rec: ArtifactRecord,
) -> bool {
    &&& a.version@ == version
    &&& a.checksum == rec.checksum
    &&& a.size == rec.size
    &&& a.url@ == repo::download_url(repo.index.download_template@, name, version, arch)
    &&& a.repo_name@ == repo.config.name@
}

/// Whether `a` is the artifact for delta `i` of `d`, downloaded from `repo`
/// with the delta URL template `template`.
pub open spec fn delta_artifact_is(
    a: ResolvedDeltaArtifact,
    repo: CachedRepo,
    template: Seq<char>,
    name: Seq<char>,
    arch: Architecture,
    d: Seq<(String, ArtifactRecord)>,
    i: int,
) -> bool {
    &&& a.from_version@ == edge_from(d, i)
    &&& a.to_version@ == edge_to(d, i)
    &&& a.checksum == d[i].1.checksum
    &&& a.size == d[i].1.size
    &&& a.url@ == repo::delta_download_url(template, name, edge_from(d, i), edge_to(d, i), arch)
    &&& a.repo_name@ == repo.config.name@
}

/// Every delta of a valid chain has well-formed endpoints.
pub proof fn lemma_chain_edges(
    d: Seq<(String, ArtifactRecord)>,
    from: Seq<char>,
    target: Seq<char>,
    visited: Seq<Seq<char>>,
    depth: int,
    ext: Seq<usize>,
)
    requires
        valid_chain(d, from, target, visited, depth, ext),
    ensures
        forall|q: int| 0 <= q < ext.len() ==> edge_ok(d, #[trigger] ext[q] as int),
    decreases ext.len(),
{
    let t = edge_to(d, ext[0] as int);
    if t != target {
        lemma_chain_edges(d, t, target, visited.push(t), depth + 1, ext.drop_first());
        assert forall|q: int| 0 < q < ext.len() implies edge_ok(d, #[trigger] ext[q] as int) by {
            assert(ext[q] == ext.drop_first()[q - 1]);
        }
    }
}

/// Builds the full-package artifact for `version`.
fn resolve_full_artifact(selection: &PackageSelection, version: &str, record: &ArtifactRecord) -> (r:
    ResolvedPackageArtifact)
    ensures
        full_artifact_is(r, selection.repo, selection.name@, selection.arch, version@, *record),
{
    ResolvedPackageArtifact {
        version: text::string_of(&text::chars_of(version)),
        checksum: record.checksum.clone(),
        size: record.size,
        url: repo::render_download_url(
            selection.repo.index.download_template.as_str(),
            selection.name.as_str(),
            version,
            selection.arch,
        ),
        repo_name: selection.repo.config.name.clone(),
    }
}

/// The repository data that resolution works on: the chosen repository and
/// the positions of the package and architecture in it.
pub open spec fn chosen(repos: Seq<CachedRepo>, name: Seq<char>, arch: Architecture) -> (CachedRepo, (int, int)) {
    let b = chosen_repo(repos, name, arch);
    (repos[b], package_position(repos[b], name, arch).unwrap())
}

/// Resolves the artifact to install for `name`: the requested version, or
/// the latest one, from the repository `resolve_package` picks.
pub fn resolve_install_target(
    repos: Vec<CachedRepo>,
    name: &str,
    requested_version: Option<&str>,
    arch: Architecture,
) -> (r: Result<Option<ResolvedPackageArtifact>, ResolveError>)
    ensures
        chosen_repo(repos@, name@, arch) < 0 ==> r == Ok::<Option<ResolvedPackageArtifact>, ResolveError>(None),
        chosen_repo(repos@, name@, arch) >= 0 ==> {
            let (repo, pos) = chosen(repos@, name@, arch);
            let data = arch_data_at(repo, pos);
            let version = match requested_version {
                Some(v) => Some(v@),
                None => latest_of(repo::key_views(data.versions@)),
            };
            match version {
                None => r == Err::<Option<ResolvedPackageArtifact>, ResolveError>(ResolveError::NoVersionsForArch),
                Some(v) => if repo::key_index(data.versions@, v) < 0 {
                    r == Err::<Option<ResolvedPackageArtifact>, ResolveError>(ResolveError::VersionNotFound)
                } else {
                    r matches Ok(Some(a)) && full_artifact_is(
                        a,
                        repo,
                        name@,
                        arch,
                        v,
                        data.versions@[repo::key_index(data.versions@, v)].1,
                    )
                },
            }
        },
{
    let ghost rs = repos@;
    let selection = match resolve_package(repos, name, arch) {
        None => return Ok(None),
        Some(s) => s,
    };
    proof {
        lemma_chosen_repo(rs, name@, arch);
    }
    let version: String = match requested_version {
        Some(v) => text::string_of(&text::chars_of(v)),
        None => {
            let keys = repo::record_keys(&selection.arch_data.versions);
            match latest_version(&keys) {
                Some(v) => v,
                None => return Err(ResolveError::NoVersionsForArch),
            }
        },
    };
    let vchars = text::chars_of(version.as_str());
    match repo::find_key(&selection.arch_data.versions, &vchars) {
        None => Err(ResolveError::VersionNotFound),
        Some(k) => {
            proof {
                repo::lemma_key_index(selection.arch_data.versions@, vchars@);
            }
            let artifact = resolve_full_artifact(&selection, version.as_str(), &selection.arch_data.versions[k].1);
            Ok(Some(artifact))
        },
    }
}

/// What `resolve_upgrade_plan` promises of a plan found for a package
/// whose latest version `target` is newer than `current`: the full
/// package unless a delta chain is strictly smaller; among the cheapest
/// chains, the first in delta order.
pub open spec fn plan_is_best(
    plan: UpgradePlan,
    repo: CachedRepo,
    name: Seq<char>,
    arch: Architecture,
    data: RepoArchitecture,
    current: Seq<char>,
    target: Seq<char>,
) -> bool {
    let full = data.versions@[repo::key_index(data.versions@, target)].1;
    let d = data.deltas@;
    let full_plan = plan.steps@.len() == 1 && (plan.steps@[0] matches UpgradeStep::Full(a) && full_artifact_is(
        a,
        repo,
        name,
        arch,
        target,
        full,
    )) && plan.total_size == full.size;
    &&& plan.target_version@ == target
    &&& match repo.index.delta_download_template {
        None => full_plan,
        Some(template) => {
            ||| full_plan && forall|ext: Seq<usize>| #[trigger] valid_chain(d, current, target, seq![current], 0, ext)
                ==> chain_size(d, ext) >= full.size
            ||| exists|c: Seq<usize>| {
                &&& #[trigger] valid_chain(d, current, target, seq![current], 0, c)
                &&& chain_size(d, c) < full.size
                &&& plan.total_size == chain_size(d, c)
                &&& forall|ext: Seq<usize>| #[trigger] valid_chain(d, current, target, seq![current], 0, ext)
                    ==> chain_size(d, c) <= chain_size(d, ext)
                &&& forall|ext: Seq<usize>| #[trigger] valid_chain(d, current, target, seq![current], 0, ext)
                    && chain_size(d, ext) == chain_size(d, c) ==> chain_before(c, ext)
                &&& plan.steps@.len() == c.len()
                &&& forall|k: int| 0 <= k < c.len() ==> (#[trigger] plan.steps@[k] matches UpgradeStep::Delta(a)
                    && delta_artifact_is(a, repo, template@, name, arch, d, c[k] as int))
            }
        },
    }
}

/// The versions a sequence of deltas passes through from `current`: the
/// start, then where each delta leads.
pub open spec fn path_nodes(d: Seq<(String, ArtifactRecord)>, current: Seq<char>, steps: Seq<usize>) -> Seq<Seq<char>> {
    seq![current] + Seq::new(steps.len(), |k: int| edge_to(d, steps[k] as int))
}

/// Whether `steps` are one to three deltas leading upward from `current`
/// to `target`: each starts where the previous one ended and leads to a
/// greater version, and no version is passed twice.
pub open spec fn upward_path(
    d: Seq<(String, ArtifactRecord)>,
    current: Seq<char>,
    target: Seq<char>,
    steps: Seq<usize>,
) -> bool {
    let nodes = path_nodes(d, current, steps);
    &&& 1 <= steps.len() <= 3
    &&& forall|k: int|
        0 <= k < steps.len() ==> {
            &&& edge_ok(d, #[trigger] steps[k] as int)
            &&& edge_from(d, steps[k] as int) == nodes[k]
            &&& version_order(nodes[k + 1], nodes[k]) > 0
        }
    &&& nodes[steps.len() as int] == target
    &&& forall|a: int, b: int| 0 <= a < b < nodes.len() ==> #[trigger] nodes[a] != #[trigger] nodes[b]
}

proof fn lemma_upward_path_valid(
    d: Seq<(String, ArtifactRecord)>,
    current: Seq<char>,
    target: Seq<char>,
    steps: Seq<usize>,
    k: int,
)
    requires
        upward_path(d, current, target, steps),
        0 <= k < steps.len(),
    ensures
        valid_chain(
            d,
            path_nodes(d, current, steps)[k],
            target,
            path_nodes(d, current, steps).subrange(0, k + 1),
            k,
            steps.skip(k),
        ),
    decreases steps.len() - k,
{
    let nodes = path_nodes(d, current, steps);
    let ext = steps.skip(k);
    let visited = nodes.subrange(0, k + 1);
    assert(ext[0] == steps[k]);
    assert(nodes[k + 1] == edge_to(d, steps[k] as int));
    assert(edge_ok(d, steps[k] as int));
    assert(!visited.contains(nodes[k + 1])) by {
        if visited.contains(nodes[k + 1]) {
            let a = choose|a: int| 0 <= a < visited.len() && visited[a] == nodes[k + 1];
            assert(nodes[a] == visited[a]);
        }
    }
    assert(step_allowed(d, ext[0] as int, nodes[k], visited));
    if edge_to(d, ext[0] as int) == target {
        if k < steps.len() - 1 {
            assert(nodes[k + 1] == nodes[steps.len() as int]);
        }
    } else {
        lemma_upward_path_valid(d, current, target, steps, k + 1);
        assert(nodes.subrange(0, k + 2) =~= visited.push(nodes[k + 1]));
        assert(ext.drop_first() =~= steps.skip(k + 1));
    }
}

/// Whenever one to three deltas lead upward from the installed version to
/// the target, the plan costs no more than they do: the search considers
/// every such chain, up to three steps long.
pub proof fn law_upgrade_plan_no_dearer_than_short_chains(
    plan: UpgradePlan,
    repo: CachedRepo,
    name: Seq<char>,
    arch: Architecture,
    data: RepoArchitecture,
    current: Seq<char>,
    target: Seq<char>,
    steps: Seq<usize>,
)
    requires
        plan_is_best(plan, repo, name, arch, data, current, target),
        repo.index.delta_download_template is Some,
        upward_path(data.deltas@, current, target, steps),
    ensures
        plan.total_size <= chain_size(data.deltas@, steps),
{
    let d = data.deltas@;
    lemma_upward_path_valid(d, current, target, steps, 0);
    assert(path_nodes(d, current, steps).subrange(0, 1) =~= seq![current]);
    assert(steps.skip(0) =~= steps);
    assert(path_nodes(d, current, steps)[0] == current);
    assert(valid_chain(d, current, target, seq![current], 0, steps));
}

/// Plans the upgrade of `name` from `current_version` to its latest
/// version: a full download, or the cheapest chain of at most three deltas
/// when that is smaller than the full package (of equally cheap chains,
/// the first in delta order).
pub fn resolve_upgrade_plan(
    repos: Vec<CachedRepo>,
    name: &str,
    current_version: &str,
    arch: Architecture,
) -> (r: Result<Option<UpgradePlan>, ResolveError>)
    ensures
        chosen_repo(repos@, name@, arch) < 0 ==> r == Ok::<Option<UpgradePlan>, ResolveError>(None),
        chosen_repo(repos@, name@, arch) >= 0 ==> {
            let (repo, pos) = chosen(repos@, name@, arch);
            let data = arch_data_at(repo, pos);
            match latest_of(repo::key_views(data.versions@)) {
                None => r == Err::<Option<UpgradePlan>, ResolveError>(ResolveError::NoAvailableVersions),
                Some(target) => if version_order(target, current_version@) <= 0 {
                    r == Ok::<Option<UpgradePlan>, ResolveError>(None)
                } else {
                    r matches Ok(Some(plan)) && plan_is_best(plan, repo, name@, arch, data, current_version@, target)
                },
            }
        },
{
    let ghost rs = repos@;
    let selection = match resolve_package(repos, name, arch) {
        None => return Ok(None),
        Some(s) => s,
    };
    proof {
        lemma_chosen_repo(rs, name@, arch);
    }
    let keys = repo::record_keys(&selection.arch_data.versions);
    let target = match latest_version(&keys) {
        Some(v) => v,
        None => return Err(ResolveError::NoAvailableVersions),
    };
    let target_chars = text::chars_of(target.as_str());
    let current = text::chars_of(current_version);
    if version_sign(&target_chars, &current) <= 0 {
        return Ok(None);
    }
    let k = match repo::find_key(&selection.arch_data.versions, &target_chars) {
        Some(k) => k,
        None => {
            proof {
                law_latest_is_candidate(repo::key_views(selection.arch_data.versions@));
                let kv = repo::key_views(selection.arch_data.versions@);
                let j = choose|j: int| 0 <= j < kv.len() && kv[j] == target@;
                repo::lemma_key_index(selection.arch_data.versions@, target@);
                assert(selection.arch_data.versions@[j].0@ == target@);
            }
            return Err(ResolveError::TargetMissing);
        },
    };
    proof {
        repo::lemma_key_index(selection.arch_data.versions@, target_chars@);
    }
    let full_record = &selection.arch_data.versions[k].1;
    let full_artifact = resolve_full_artifact(&selection, target.as_str(), full_record);
    let full_size = full_record.size;
    let mut best = SearchBest { chain: None, total: full_size };
    let ghost d = selection.arch_data.deltas@;
    match &selection.repo.index.delta_download_template {
        None => {},
        Some(template) => {
            let edges = parse_edges(&selection.arch_data.deltas);
            let mut path: Vec<usize> = Vec::new();
            let mut visited: Vec<Vec<char>> = Vec::new();
            visited.push(text::copy_chars(&current));
            proof {
                assert(char_views(visited@) =~= seq![current@]);
            }
            dfs_delta_paths(
                &selection.arch_data.deltas,
                &edges,
                &current,
                &target_chars,
                0,
                &mut path,
                0,
                &mut visited,
                &mut best,
            );
            proof {
                if best.chain is Some {
                    let c = best.chain.unwrap()@;
                    assert(c.skip(0) =~= c);
                    assert(valid_chain(d, current@, target_chars@, seq![current@], 0, c));
                    lemma_chain_edges(d, current@, target_chars@, seq![current@], 0, c);
                }
            }
        },
    }
    let steps = match best.chain {
        None => {
            let mut steps: Vec<UpgradeStep> = Vec::new();
            steps.push(UpgradeStep::Full(full_artifact));
            steps
        },
        Some(chain) => {
            let template = match &selection.repo.index.delta_download_template {
                Some(t) => t,
                None => {
                    return Err(ResolveError::TargetMissing);
                },
            };
            let edges = parse_edges(&selection.arch_data.deltas);
            let mut steps: Vec<UpgradeStep> = Vec::new();
            let mut j: usize = 0;
            while j < chain.len()
                invariant
                    j <= chain.len(),
                    steps@.len() == j,
                    edges_match(edges@, d),
                    d == selection.arch_data.deltas@,
                    forall|q: int| 0 <= q < chain@.len() ==> edge_ok(d, #[trigger] chain@[q] as int),
                    forall|q: int| 0 <= q < j ==> (#[trigger] steps@[q] matches UpgradeStep::Delta(a)
                        && delta_artifact_is(a, selection.repo, template@, selection.name@, selection.arch, d, chain@[q] as int)),
                decreases chain.len() - j,
            {
                let e = chain[j];
                let (f, t) = match &edges[e] {
                    Some((f, t)) => (f, t),
                    None => {
                        return Err(ResolveError::TargetMissing);
                    },
                };
                let from_s = text::string_of(f);
                let to_s = text::string_of(t);
                let url = repo::render_delta_download_url(
                    template.as_str(),
                    selection.name.as_str(),
                    from_s.as_str(),
                    to_s.as_str(),
                    selection.arch,
                );
                let rec = &selection.arch_data.deltas[e].1;
                steps.push(UpgradeStep::Delta(ResolvedDeltaArtifact {
                    from_version: from_s,
                    to_version: to_s,
                    checksum: rec.checksum.clone(),
                    size: rec.size,
                    url,
                    repo_name: selection.repo.config.name.clone(),
                }));
                j = j + 1;
            }
            steps
        },
    };
    let plan = UpgradePlan { target_version: target, steps, total_size: best.total };
    proof {
        let (repo_b, pos) = chosen(rs, name@, arch);
        let data = arch_data_at(repo_b, pos);
        assert(data == selection.arch_data);
        let full = data.versions@[repo::key_index(data.versions@, target_chars@)].1;
        assert(full == *full_record);
        assert(plan.target_version@ == target_chars@);
        match repo_b.index.delta_download_template {
            None => {
                assert(plan.steps@.len() == 1);
                assert(full_artifact_is(full_artifact, repo_b, name@, arch, target_chars@, full));
            },
            Some(template) => {
                if best.chain is None {
                    assert(full_artifact_is(full_artifact, repo_b, name@, arch, target_chars@, full));
                    assert(best.total == full.size);
                } else {
                    let c = best.chain.unwrap()@;
                    assert(c.skip(0) =~= c);
                    assert(valid_chain(d, current_version@, target_chars@, seq![current_version@], 0, c));
                    assert(chain_size(d, c) < full.size);
                    assert forall|k: int| 0 <= k < c.len() implies (#[trigger] plan.steps@[k] matches UpgradeStep::Delta(a)
                        && delta_artifact_is(a, repo_b, template@, name@, arch, d, c[k] as int)) by {
                    }
                }
            },
        }
    }
    Ok(Some(plan))
}

} // verus!
