//! The decisions taken while installing and upgrading from repositories:
//! how a plan is carried out, and what each applied delta must match.

use vstd::prelude::*;

use crate::delta::DeltaManifest;
use crate::fspath::{self, path_join};
use crate::layout::Layout;
use crate::receipt::Receipt;
use crate::repo::CachedRepo;
use crate::resolver::{ResolvedDeltaArtifact, ResolvedPackageArtifact, UpgradePlan, UpgradeStep};
use crate::text;

verus! {

/// Why an upgrade plan could not be carried out.
#[derive(Debug)]
pub enum UpgradeError {
    /// A plan of several steps holds a full download.
    MixedPlan,
    /// An applied delta starts from another version than the plan says.
    FromVersionMismatch { expected: String, found: String },
    /// The first delta does not start from the installed version.
    BaseVersionMismatch { expected: String, found: String },
    /// The first delta was built against another package archive than the
    /// installed one.
    BaseChecksumMismatch,
    /// The plan applied no delta at all.
    NoManifest,
}

/// No repository index has been downloaded yet.
#[derive(Debug, PartialEq, Eq, Structural)]
pub struct NoCachedRepos;

/// Refuses to go on when no repository index is cached.
pub fn ensure_indexes_exist(repos: &Vec<CachedRepo>) -> (r: Result<(), NoCachedRepos>)
    ensures
        r is Ok <==> repos@.len() > 0,
{
    if repos.len() == 0 {
        Err(NoCachedRepos)
    } else {
        Ok(())
    }
}

/// The file an artifact URL is downloaded to: its file name (or
/// `artifact`) in the downloads directory.
pub open spec fn download_path_of(layout: Layout, url: Seq<char>) -> Seq<char> {
    path_join(
        path_join(path_join(layout.cache_home@, "parcel"@), "downloads"@),
        match fspath::file_name_of(url) {
            Some(n) => n,
            None => "artifact"@,
        },
    )
}

/// Where a resolved artifact is downloaded before it is installed.
pub fn artifact_download_path(layout: &Layout, url: &str) -> (r: String)
    ensures
        r@ == download_path_of(*layout, url@),
{
    let name = crate::layout::path_file_name(url);
    layout.download_path(name.as_str())
}

/// The full download of a plan made of exactly one full step; such a plan
/// is installed directly. Any other plan is applied delta by delta.
pub fn single_full_step(plan: &UpgradePlan) -> (r: Option<&ResolvedPackageArtifact>)
    ensures
        r is Some <==> plan.steps@.len() == 1 && plan.steps@[0] is Full,
        r matches Some(a) ==> plan.steps@[0] == UpgradeStep::Full(*a),
{
    if plan.steps.len() == 1 {
        match &plan.steps[0] {
            UpgradeStep::Full(a) => Some(a),
            UpgradeStep::Delta(_) => None,
        }
    } else {
        None
    }
}

/// Step `index` of a plan applied delta by delta; a full step there makes
/// the plan unusable.
pub fn delta_step(plan: &UpgradePlan, index: usize) -> (r: Result<&ResolvedDeltaArtifact, UpgradeError>)
    requires
        index < plan.steps@.len(),
    ensures
        r is Ok <==> plan.steps@[index as int] is Delta,
        r matches Ok(a) ==> plan.steps@[index as int] == UpgradeStep::Delta(*a),
        r matches Err(e) ==> e is MixedPlan,
{
    match &plan.steps[index] {
        UpgradeStep::Delta(a) => Ok(a),
        UpgradeStep::Full(_) => Err(UpgradeError::MixedPlan),
    }
}

/// What must hold of the delta applied at step `index`: it starts from
/// the version the plan expects; the first one starts from the installed
/// version and, when the installed archive's checksum is known, was built
/// against that archive. The first failing check gives the error.
pub fn check_applied_delta(
    receipt: &Receipt,
    index: usize,
    expected: &ResolvedDeltaArtifact,
    applied: &DeltaManifest,
) -> (r: Result<(), UpgradeError>)
    ensures
        applied.from_version@ != expected.from_version@ ==> (r matches Err(
            UpgradeError::FromVersionMismatch { expected: e, found: f },
        ) && e@ == expected.from_version@ && f@ == applied.from_version@),
        applied.from_version@ == expected.from_version@ && index == 0 && applied.from_version@
            != receipt.version@ ==> (r matches Err(UpgradeError::BaseVersionMismatch { expected: e, found: f })
            && e@ == receipt.version@ && f@ == applied.from_version@),
        applied.from_version@ == expected.from_version@ && (index == 0 ==> applied.from_version@
            == receipt.version@) && index == 0 && receipt.package_checksum is Some
            && applied.base_checksum@ != receipt.package_checksum.unwrap()@ ==> r matches Err(
            UpgradeError::BaseChecksumMismatch,
        ),
        r is Ok <==> applied.from_version@ == expected.from_version@ && (index == 0 ==> (
        applied.from_version@ == receipt.version@ && (receipt.package_checksum matches Some(c)
            ==> applied.base_checksum@ == c@))),
{
    if !text::str_eq(applied.from_version.as_str(), expected.from_version.as_str()) {
        return Err(
            UpgradeError::FromVersionMismatch {
                expected: expected.from_version.clone(),
                found: applied.from_version.clone(),
            },
        );
    }
    if index == 0 && !text::str_eq(applied.from_version.as_str(), receipt.version.as_str()) {
        return Err(
            UpgradeError::BaseVersionMismatch {
                expected: receipt.version.clone(),
                found: applied.from_version.clone(),
            },
        );
    }
    if index == 0 {
        match &receipt.package_checksum {
            Some(c) => {
                if !text::str_eq(applied.base_checksum.as_str(), c.as_str()) {
                    return Err(UpgradeError::BaseChecksumMismatch);
                }
            },
            None => {},
        }
    }
    Ok(())
}

/// The directory step `index` unpacks into: `<index>-<to_version>` under
/// the working directory.
pub open spec fn step_dir_of(working_root: Seq<char>, index: nat, to_version: Seq<char>) -> Seq<char> {
    path_join(working_root, text::decimal_of(index) + seq!['-'] + to_version)
}

/// Where the result of delta step `index` is unpacked.
pub fn step_dir(working_root: &str, index: usize, to_version: &str) -> (r: String)
    ensures
        r@ == step_dir_of(working_root@, index as nat, to_version@),
{
    let mut name = text::decimal_chars(index as u64);
    name.push('-');
    let t = text::chars_of(to_version);
    let mut i: usize = 0;
    let ghost start = name@;
    while i < t.len()
        invariant
            i <= t.len(),
            name@ == start + t@.subrange(0, i as int),
        decreases t.len() - i,
    {
        name.push(t[i]);
        i = i + 1;
    }
    assert(t@.subrange(0, i as int) =~= t@);
    let root = text::chars_of(working_root);
    text::string_of(&fspath::join_chars(&root, &name))
}

/// How far a delta-by-delta upgrade has come: the number of deltas
/// applied, the checksum the installed package will be recorded with, and
/// the repository and URL of the last delta.
pub struct DeltaProgress {
    pub steps_applied: usize,
    pub final_checksum: Option<String>,
    pub final_origin: Option<(String, String)>,
}

impl DeltaProgress {
    /// Nothing applied yet; the checksum is still the installed one.
    pub fn start(receipt: &Receipt) -> (r: Self)
        ensures
            r.steps_applied == 0,
            r.final_checksum == receipt.package_checksum,
            r.final_origin is None,
    {
        let checksum = match &receipt.package_checksum {
            Some(c) => Some(c.clone()),
            None => None,
        };
        DeltaProgress { steps_applied: 0, final_checksum: checksum, final_origin: None }
    }

    /// Records an applied delta: the package will carry the delta's target
    /// checksum and come from the delta's repository and URL.
    pub fn record(&mut self, artifact: &ResolvedDeltaArtifact, applied: &DeltaManifest)
        requires
            old(self).steps_applied < usize::MAX,
        ensures
            final(self).steps_applied == old(self).steps_applied + 1,
            final(self).final_checksum == Some(applied.target_checksum),
            final(self).final_origin == Some((artifact.repo_name, artifact.url)),
    {
        self.steps_applied = self.steps_applied + 1;
        self.final_checksum = Some(applied.target_checksum.clone());
        self.final_origin = Some((artifact.repo_name.clone(), artifact.url.clone()));
    }

    /// What the upgraded package is recorded with: its checksum, and the
    /// repository and URL it came from. Refused when no delta was applied.
    pub fn finish(self) -> (r: Result<(Option<String>, String, String), UpgradeError>)
        ensures
            self.final_origin is None ==> r matches Err(UpgradeError::NoManifest),
            self.final_origin matches Some((repo, url)) ==> r == Ok::<
                (Option<String>, String, String),
                UpgradeError,
            >((self.final_checksum, repo, url)),
    {
        match self.final_origin {
            None => Err(UpgradeError::NoManifest),
            Some((repo, url)) => Ok((self.final_checksum, repo, url)),
        }
    }
}

} // verus!
