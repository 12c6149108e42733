//! Version and architecture helpers for installed-package upgrades.

use core::cmp::Ordering;
use vstd::prelude::*;

use crate::text;

verus! {

/// Whether `semver::Version::parse` accepts the text.
pub uninterp spec fn semver_valid(text: Seq<char>) -> bool;

/// The order `semver::Version`'s `Ord` puts two parsed texts in: -1, 0 or 1.
pub uninterp spec fn semver_order(left: Seq<char>, right: Seq<char>) -> int;

/// Parses both texts with `semver::Version::parse` and, when both parse,
/// compares them with `Version`'s `Ord`. The contract claims that the
/// result is `Some` exactly when both parse, and what `Ord` being a total
/// order gives: the sign flips with the arguments, a text is equal to
/// itself, and the order is transitive: any parsed `c` that is below (or
/// equal to) one side stays below (or equal to) the other side when the
/// sides compare that way.
#[verifier::external_body]
fn semver_compare(left: &str, right: &str) -> (r: Option<i8>)
    ensures
        r.is_some() == (semver_valid(left@) && semver_valid(right@)),
        r.is_some() ==> r.unwrap() == semver_order(left@, right@),
        r.is_some() ==> -1 <= r.unwrap() <= 1,
        r.is_some() ==> r.unwrap() == -semver_order(right@, left@),
        r.is_some() && left@ == right@ ==> r.unwrap() == 0,
        r matches Some(x) ==> forall|c: Seq<char>|
            #![trigger semver_order(c, left@)]
            #![trigger semver_order(c, right@)]
            semver_valid(c) ==> {
                &&& (semver_order(c, left@) < 0 && x <= 0 ==> semver_order(c, right@) < 0)
                &&& (semver_order(c, left@) == 0 && x < 0 ==> semver_order(c, right@) < 0)
                &&& (semver_order(c, left@) == 0 && x == 0 ==> semver_order(c, right@) == 0)
                &&& (semver_order(c, right@) < 0 && x >= 0 ==> semver_order(c, left@) < 0)
                &&& (semver_order(c, right@) == 0 && x > 0 ==> semver_order(c, left@) < 0)
                &&& (semver_order(c, right@) == 0 && x == 0 ==> semver_order(c, left@) == 0)
            },
{
    match (semver::Version::parse(left), semver::Version::parse(right)) {
        (Ok(l), Ok(r)) => Some(
            match l.cmp(&r) {
                Ordering::Less => -1,
                Ordering::Equal => 0,
                Ordering::Greater => 1,
            },
        ),
        _ => None,
    }
}

/// The semver part and release number of `<semver>-<release>`, split at
/// the last `-`; `None` when there is no `-` or the release is not a
/// `u64`.
pub open spec fn parcel_parts(v: Seq<char>) -> Option<(Seq<char>, u64)> {
    let i = text::last_index_of(v, '-');
    if i < 0 {
        None
    } else {
        match text::parse_u64_spec(v.subrange(i + 1, v.len() as int)) {
            None => None,
            Some(rel) => Some((v.subrange(0, i), rel)),
        }
    }
}

/// The order of Parcel versions: by semantic version then release number
/// when both texts are `<semver>-<release>`; otherwise by raw text.
pub open spec fn parcel_order(l: Seq<char>, r: Seq<char>) -> int {
    match (parcel_parts(l), parcel_parts(r)) {
        (Some((ls, lr)), Some((rs, rr))) => if semver_valid(ls) && semver_valid(rs) {
            let c = semver_order(ls, rs);
            if c != 0 {
                c
            } else if lr < rr {
                -1
            } else if lr > rr {
                1
            } else {
                0
            }
        } else {
            text::lex_chars(l, r)
        },
        _ => text::lex_chars(l, r),
    }
}

/// Whether a version has the `<semver>-<release>` form with a semantic
/// version that `semver` accepts.
pub open spec fn parcel_valid(v: Seq<char>) -> bool {
    match parcel_parts(v) {
        Some((sv, _)) => semver_valid(sv),
        None => false,
    }
}

/// Whether every version of a list has the `<semver>-<release>` form.
pub open spec fn all_parcel_valid(s: Seq<Seq<char>>) -> bool {
    forall|i: int| 0 <= i < s.len() ==> parcel_valid(#[trigger] s[i])
}

/// Transitivity through `l` and `r` whose order is `s`: a well-formed `c`
/// at or below one of them is at or below the other when `s` says so.
pub open spec fn transitive_through(l: Seq<char>, r: Seq<char>, s: int) -> bool {
    forall|c: Seq<char>|
        #![trigger parcel_order(c, l)]
        #![trigger parcel_order(c, r)]
        parcel_valid(c) ==> {
            &&& (parcel_order(c, l) <= 0 && s <= 0 ==> parcel_order(c, r) <= 0)
            &&& (parcel_order(c, r) <= 0 && s >= 0 ==> parcel_order(c, l) <= 0)
        }
}

/// The version `Iterator::max_by(compare_version_strings)` picks: the last
/// of the greatest.
pub open spec fn latest_parcel(s: Seq<Seq<char>>) -> Option<Seq<char>>
    decreases s.len(),
{
    if s.len() == 0 {
        None
    } else if s.len() == 1 {
        Some(s[0])
    } else {
        let best = latest_parcel(s.drop_last()).unwrap();
        if parcel_order(best, s.last()) > 0 {
            Some(best)
        } else {
            Some(s.last())
        }
    }
}

/// A Parcel version split into semver text and release number.
struct ParcelVersion {
    semver: String,
    release: u64,
}

fn parse_parcel_version(version: &Vec<char>) -> (r: Option<ParcelVersion>)
    ensures
        r is None <==> parcel_parts(version@) is None,
        r matches Some(p) ==> parcel_parts(version@) == Some((p.semver@, p.release)),
{
    match text::rfind_char(version, '-') {
        None => None,
        Some(k) => match text::parse_u64_range(version, k + 1, version.len()) {
            None => None,
            Some(release) => Some(ParcelVersion { semver: text::string_from(version, 0, k), release }),
        },
    }
}

/// Compares two Parcel versions given as characters: -1, 0 or 1.
pub fn parcel_sign(l: &Vec<char>, r: &Vec<char>) -> (s: i8)
    ensures
        s == parcel_order(l@, r@),
        s == -parcel_order(r@, l@),
        -1 <= s <= 1,
        l@ == r@ ==> s == 0,
        parcel_valid(l@) && parcel_valid(r@) ==> transitive_through(l@, r@, s as int),
{
    proof {
        text::lemma_lex_chars_antisym(l@, r@);
        text::lemma_lex_chars_eq(l@, r@);
    }
    match (parse_parcel_version(l), parse_parcel_version(r)) {
        (Some(lp), Some(rp)) => match semver_compare(lp.semver.as_str(), rp.semver.as_str()) {
            Some(c) => {
                let s: i8 = if c != 0 {
                    c
                } else if lp.release < rp.release {
                    -1
                } else if lp.release > rp.release {
                    1
                } else {
                    0
                };
                proof {
                    assert forall|v: Seq<char>|
                        #![trigger parcel_order(v, l@)]
                        #![trigger parcel_order(v, r@)]
                        parcel_valid(v) implies {
                            &&& (parcel_order(v, l@) <= 0 && s <= 0 ==> parcel_order(v, r@) <= 0)
                            &&& (parcel_order(v, r@) <= 0 && s >= 0 ==> parcel_order(v, l@) <= 0)
                        } by {
                        let (vs, vr) = parcel_parts(v).unwrap();
                        assert(semver_valid(vs));
                        let a = semver_order(vs, lp.semver@);
                        let b = semver_order(vs, rp.semver@);
                    }
                }
                s
            },
            None => text::compare_chars(l, r),
        },
        _ => text::compare_chars(l, r),
    }
}

/// Compares two Parcel versions: -1, 0 or 1.
fn version_string_sign(left: &str, right: &str) -> (r: i8)
    ensures
        r == parcel_order(left@, right@),
        r == -parcel_order(right@, left@),
        -1 <= r <= 1,
        left@ == right@ ==> r == 0,
        parcel_valid(left@) && parcel_valid(right@) ==> transitive_through(left@, right@, r as int),
{
    parcel_sign(&text::chars_of(left), &text::chars_of(right))
}

/// Compares two versions: as `<semver>-<release>` when both texts have that
/// form, otherwise as plain text.
pub fn compare_version_strings(left: &str, right: &str) -> (r: Ordering)
    ensures
        crate::resolver::ordering_sign(r) == parcel_order(left@, right@),
        crate::resolver::ordering_sign(r) == -parcel_order(right@, left@),
        left@ == right@ ==> r == Ordering::Equal,
        parcel_valid(left@) && parcel_valid(right@) ==> transitive_through(
            left@,
            right@,
            crate::resolver::ordering_sign(r),
        ),
{
    let s = version_string_sign(left, right);
    if s < 0 {
        Ordering::Less
    } else if s > 0 {
        Ordering::Greater
    } else {
        Ordering::Equal
    }
}

/// Whether `candidate` is strictly newer than `installed`. A version is
/// never newer than itself, and of two versions at most one is newer.
pub fn is_newer(candidate: &str, installed: &str) -> (r: bool)
    ensures
        r == (parcel_order(candidate@, installed@) > 0),
        r ==> parcel_order(installed@, candidate@) < 0,
        candidate@ == installed@ ==> !r,
        parcel_valid(candidate@) && parcel_valid(installed@) ==> transitive_through(
            candidate@,
            installed@,
            parcel_order(candidate@, installed@),
        ),
{
    version_string_sign(candidate, installed) > 0
}

/// The latest of `versions` under `compare_version_strings`; among equal
/// versions the last one. `None` when the list is empty.
pub fn latest_version(versions: &Vec<String>) -> (r: Option<String>)
    ensures
        r is None <==> versions@.len() == 0,
        r matches Some(v) ==> latest_parcel(crate::resolver::views_of(versions@)) == Some(v@),
        r matches Some(v) ==> crate::resolver::views_of(versions@).contains(v@),
        r matches Some(v) ==> (all_parcel_valid(crate::resolver::views_of(versions@)) ==> forall|j: int|
            0 <= j < versions@.len() ==> #[trigger] versions@[j]@ == v@ || parcel_order(versions@[j]@, v@) <= 0),
{
    if versions.len() == 0 {
        return None;
    }
    let ghost vs = crate::resolver::views_of(versions@);
    let mut best: usize = 0;
    let mut i: usize = 1;
    assert(vs.subrange(0, 1) =~= seq![versions@[0]@]);
    while i < versions.len()
        invariant
            1 <= i <= versions.len(),
            best < versions.len(),
            vs == crate::resolver::views_of(versions@),
            latest_parcel(vs.subrange(0, i as int)) == Some(versions@[best as int]@),
            all_parcel_valid(vs) ==> forall|j: int|
                0 <= j < i ==> #[trigger] versions@[j]@ == versions@[best as int]@ || parcel_order(
                    versions@[j]@,
                    versions@[best as int]@,
                ) <= 0,
        decreases versions.len() - i,
    {
        proof {
            assert(vs.subrange(0, i + 1).drop_last() =~= vs.subrange(0, i as int));
        }
        let ghost old_best = best;
        let sign = version_string_sign(versions[best].as_str(), versions[i].as_str());
        proof {
            if all_parcel_valid(vs) {
                assert(vs[best as int] == versions@[best as int]@);
                assert(vs[i as int] == versions@[i as int]@);
                assert(parcel_valid(vs[best as int]) && parcel_valid(vs[i as int]));
                assert forall|j: int| 0 <= j < i implies parcel_valid(#[trigger] versions@[j]@) by {
                    assert(vs[j] == versions@[j]@);
                }
            }
        }
        if sign <= 0 {
            best = i;
        }
        i = i + 1;
    }
    assert(vs.subrange(0, i as int) =~= vs);
    assert(vs[best as int] == versions@[best as int]@);
    Some(versions[best].clone())
}

/// A package's architecture differs from the host's: the package's
/// architecture and the current one.
#[derive(Debug)]
pub struct ArchMismatch {
    pub package: String,
    pub current: String,
}

/// Accepts a package only when its architecture is the host's.
pub fn validate_package_arch(package_arch: &str, current: &str) -> (r: Result<(), ArchMismatch>)
    ensures
        r is Ok <==> package_arch@ == current@,
        r matches Err(e) ==> e.package@ == package_arch@ && e.current@ == current@,
{
    if text::str_eq(package_arch, current) {
        Ok(())
    } else {
        Err(
            ArchMismatch {
                package: text::string_of(&text::chars_of(package_arch)),
                current: text::string_of(&text::chars_of(current)),
            },
        )
    }
}

} // verus!
