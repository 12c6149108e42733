//! What building a package decides from its build manifest: the package
//! version, which sources to fetch and how they are checked, and the
//! install actions declared under `files`.

use vstd::prelude::*;

use crate::fspath;
use crate::parcel_manifest::{InstallAction, InstallActionKind, InstallTarget};
use crate::text;
use crate::utils::arch::Architecture;

verus! {

/// A source entry of a build manifest: where the source is, and the
/// BLAKE2b-512 checksum it must have, if one was given.
pub struct SourceSpec {
    pub location: String,
    pub checksum: Option<String>,
}

/// An ASCII hexadecimal digit.
pub open spec fn is_hex_digit(c: char) -> bool {
    let u = c as u32;
    (48 <= u <= 57) || (65 <= u <= 70) || (97 <= u <= 102)
}

/// Whether a text is a non-empty run of hexadecimal digits.
pub open spec fn is_checksum(s: Seq<char>) -> bool {
    s.len() > 0 && forall|i: int| 0 <= i < s.len() ==> is_hex_digit(#[trigger] s[i])
}

/// How a source entry splits: the text after the last `:` is a checksum
/// when it is a non-empty hexadecimal number; otherwise the whole entry is
/// the location.
pub open spec fn source_spec_of(spec: Seq<char>) -> (Seq<char>, Option<Seq<char>>) {
    let k = text::last_index_of(spec, ':');
    if k >= 0 && is_checksum(spec.subrange(k + 1, spec.len() as int)) {
        (spec.subrange(0, k), Some(spec.subrange(k + 1, spec.len() as int)))
    } else {
        (spec, None)
    }
}

fn hex_run(s: &Vec<char>, from: usize) -> (r: bool)
    requires
        from <= s.len(),
    ensures
        r == is_checksum(s@.subrange(from as int, s@.len() as int)),
{
    if from == s.len() {
        return false;
    }
    let mut i: usize = from;
    while i < s.len()
        invariant
            from <= i <= s.len(),
            forall|j: int| from <= j < i ==> is_hex_digit(#[trigger] s@[j]),
        decreases s.len() - i,
    {
        let u = s[i] as u32;
        if !((48 <= u && u <= 57) || (65 <= u && u <= 70) || (97 <= u && u <= 102)) {
            assert(s@.subrange(from as int, s@.len() as int)[i - from] == s@[i as int]);
            return false;
        }
        i = i + 1;
    }
    assert forall|j: int| 0 <= j < s@.len() - from implies is_hex_digit(
        #[trigger] s@.subrange(from as int, s@.len() as int)[j],
    ) by {
        assert(s@.subrange(from as int, s@.len() as int)[j] == s@[from + j]);
    }
    true
}

/// Splits a source entry into its location and optional checksum.
pub fn parse_source_spec(spec: &str) -> (r: SourceSpec)
    ensures
        (r.location@, match r.checksum {
            Some(c) => Some(c@),
            None => None,
        }) == source_spec_of(spec@),
{
    let v = text::chars_of(spec);
    proof {
        text::lemma_last_index_of(v@, ':');
    }
    match text::rfind_char(&v, ':') {
        Some(k) => {
            if hex_run(&v, k + 1) {
                return SourceSpec {
                    location: text::string_from(&v, 0, k),
                    checksum: Some(text::string_from(&v, k + 1, v.len())),
                };
            }
        },
        None => {},
    }
    SourceSpec { location: text::string_of(&v), checksum: None }
}

/// The full package version: the upstream version and the release (the
/// command line's, else the manifest's, else 1) joined by `-`.
pub open spec fn build_version_of(version: Seq<char>, release: nat) -> Seq<char> {
    version + seq!['-'] + text::decimal_of(release)
}

/// The release number a build uses.
pub open spec fn release_of(arg: Option<u64>, manifest: Option<u64>) -> u64 {
    match arg {
        Some(r) => r,
        None => match manifest {
            Some(r) => r,
            None => 1,
        },
    }
}

/// The full version of a package build.
pub fn build_version(version: &str, release_arg: Option<u64>, manifest_release: Option<u64>) -> (r: String)
    ensures
        r@ == build_version_of(version@, release_of(release_arg, manifest_release) as nat),
{
    let release = match release_arg {
        Some(r) => r,
        None => match manifest_release {
            Some(r) => r,
            None => 1,
        },
    };
    let mut s = text::string_of(&text::chars_of(version));
    text::push_char(&mut s, '-');
    text::push_chars(&mut s, &text::decimal_chars(release));
    assert(s@ =~= build_version_of(version@, release as nat));
    s
}

/// The source entries a build for `arch` resolves: the shared ones, then
/// those for the architecture.
pub fn sources_for_arch(
    shared: &Vec<String>,
    x86_64: &Vec<String>,
    aarch64: &Vec<String>,
    arch: Architecture,
) -> (r: Vec<String>)
    ensures
        r@ == shared@ + match arch {
            Architecture::X86_64 => x86_64@,
            Architecture::AARCH64 => aarch64@,
        },
{
    let extra = match arch {
        Architecture::X86_64 => x86_64,
        Architecture::AARCH64 => aarch64,
    };
    let mut r: Vec<String> = Vec::new();
    let mut i: usize = 0;
    while i < shared.len()
        invariant
            i <= shared.len(),
            r@ == shared@.subrange(0, i as int),
        decreases shared.len() - i,
    {
        r.push(shared[i].clone());
        i = i + 1;
    }
    let mut j: usize = 0;
    while j < extra.len()
        invariant
            j <= extra.len(),
            i == shared.len(),
            r@ == shared@ + extra@.subrange(0, j as int),
        decreases extra.len() - j,
    {
        r.push(extra[j].clone());
        assert(shared@ + extra@.subrange(0, j + 1) =~= (shared@ + extra@.subrange(0, j as int)).push(extra@[j as int]));
        j = j + 1;
    }
    assert(shared@.subrange(0, i as int) =~= shared@);
    assert(extra@.subrange(0, j as int) =~= extra@);
    r
}

/// Whether a source is downloaded (an `http://`, `https://` or `file://`
/// URL) rather than copied from next to the build manifest.
pub open spec fn is_remote_source_of(location: Seq<char>) -> bool {
    text::has_prefix(location, "http://"@) || text::has_prefix(location, "https://"@) || text::has_prefix(
        location,
        "file://"@,
    )
}

/// Whether a source location is fetched over a URL.
pub fn is_remote_source(location: &str) -> (r: bool)
    ensures
        r == is_remote_source_of(location@),
{
    let v = text::chars_of(location);
    text::starts_with_exec(&v, &text::chars_of("http://")) || text::starts_with_exec(&v, &text::chars_of("https://"))
        || text::starts_with_exec(&v, &text::chars_of("file://"))
}

/// Why a build manifest was refused.
#[derive(Debug)]
pub enum BuildError {
    /// A `files` key that is not a target category.
    UnsupportedTarget(String),
    /// A `files` entry without `:<mode>`.
    InvalidAction(String),
    /// A mode other than `link` or `copy`.
    UnsupportedMode(String),
    /// An action source that is absolute or contains `..`.
    InvalidSource(String),
    /// A source location without a file name.
    NoFileName(String),
}

/// The mathematical value of a build error.
pub enum BuildErrorView {
    UnsupportedTarget(Seq<char>),
    InvalidAction(Seq<char>),
    UnsupportedMode(Seq<char>),
    InvalidSource(Seq<char>),
    NoFileName(Seq<char>),
}

impl View for BuildError {
    type V = BuildErrorView;

    open spec fn view(&self) -> BuildErrorView {
        match self {
            BuildError::UnsupportedTarget(s) => BuildErrorView::UnsupportedTarget(s@),
            BuildError::InvalidAction(s) => BuildErrorView::InvalidAction(s@),
            BuildError::UnsupportedMode(s) => BuildErrorView::UnsupportedMode(s@),
            BuildError::InvalidSource(s) => BuildErrorView::InvalidSource(s@),
            BuildError::NoFileName(s) => BuildErrorView::NoFileName(s@),
        }
    }
}

/// The file a source is stored under in the sources directory: its
/// location's file name.
pub fn source_file_name(location: &str) -> (r: Result<String, BuildError>)
    ensures
        r is Ok <==> fspath::file_name_of(location@) is Some,
        r matches Ok(n) ==> fspath::file_name_of(location@) == Some(n@),
        r matches Err(e) ==> e@ == BuildErrorView::NoFileName(location@),
{
    match fspath::file_name(&text::chars_of(location)) {
        Some(n) => Ok(text::string_of(&n)),
        None => Err(BuildError::NoFileName(text::string_of(&text::chars_of(location)))),
    }
}

/// The target category a `files` key names.
pub open spec fn target_of_name(n: Seq<char>) -> Option<InstallTarget> {
    if n == "bin"@ {
        Some(InstallTarget::Bin)
    } else if n == "applications"@ {
        Some(InstallTarget::Applications)
    } else if n == "desktop"@ {
        Some(InstallTarget::Desktop)
    } else if n == "icons"@ {
        Some(InstallTarget::Icons)
    } else if n == "man"@ {
        Some(InstallTarget::Man)
    } else {
        None
    }
}

/// One `files` entry `<path>:<mode>` read as a source and action kind.
pub open spec fn entry_action_of(entry: Seq<char>) -> Result<(Seq<char>, InstallActionKind), BuildErrorView> {
    let k = text::last_index_of(entry, ':');
    if k < 0 {
        Err(BuildErrorView::InvalidAction(entry))
    } else {
        let source = entry.subrange(0, k);
        let mode = entry.subrange(k + 1, entry.len() as int);
        if mode != "link"@ && mode != "copy"@ {
            Err(BuildErrorView::UnsupportedMode(mode))
        } else if fspath::escapes(fspath::components(source)) {
            Err(BuildErrorView::InvalidSource(source))
        } else {
            Ok((source, if mode == "link"@ { InstallActionKind::Link } else { InstallActionKind::Copy }))
        }
    }
}

/// An install action as values.
pub open spec fn action_view(a: InstallAction) -> (Seq<char>, InstallTarget, InstallActionKind) {
    (a.source@, a.target, a.kind)
}

/// The actions the entries of one `files` key give, in order; the first
/// bad entry's error otherwise.
pub open spec fn entries_actions_of(
    target: InstallTarget,
    entries: Seq<Seq<char>>,
) -> Result<Seq<(Seq<char>, InstallTarget, InstallActionKind)>, BuildErrorView>
    decreases entries.len(),
{
    if entries.len() == 0 {
        Ok(Seq::empty())
    } else {
        match entries_actions_of(target, entries.drop_last()) {
            Err(e) => Err(e),
            Ok(acts) => match entry_action_of(entries.last()) {
                Err(e) => Err(e),
                Ok((source, kind)) => Ok(acts.push((source, target, kind))),
            },
        }
    }
}

/// The actions a `files` section gives, key by key in order; the first
/// error otherwise.
pub open spec fn files_actions_of(
    files: Seq<(Seq<char>, Seq<Seq<char>>)>,
) -> Result<Seq<(Seq<char>, InstallTarget, InstallActionKind)>, BuildErrorView>
    decreases files.len(),
{
    if files.len() == 0 {
        Ok(Seq::empty())
    } else {
        match files_actions_of(files.drop_last()) {
            Err(e) => Err(e),
            Ok(acts) => {
                let (name, entries) = files.last();
                match target_of_name(name) {
                    None => Err(BuildErrorView::UnsupportedTarget(name)),
                    Some(t) => match entries_actions_of(t, entries) {
                        Err(e) => Err(e),
                        Ok(more) => Ok(acts + more),
                    },
                }
            },
        }
    }
}

/// A `files` section as values.
pub open spec fn files_view(files: Seq<(String, Vec<String>)>) -> Seq<(Seq<char>, Seq<Seq<char>>)> {
    files.map_values(|f: (String, Vec<String>)| (f.0@, crate::resolver::views_of(f.1@)))
}

fn target_by_name(name: &str) -> (r: Option<InstallTarget>)
    ensures
        r == target_of_name(name@),
{
    if text::str_eq(name, "bin") {
        Some(InstallTarget::Bin)
    } else if text::str_eq(name, "applications") {
        Some(InstallTarget::Applications)
    } else if text::str_eq(name, "desktop") {
        Some(InstallTarget::Desktop)
    } else if text::str_eq(name, "icons") {
        Some(InstallTarget::Icons)
    } else if text::str_eq(name, "man") {
        Some(InstallTarget::Man)
    } else {
        None
    }
}

fn entry_action(entry: &str) -> (r: Result<(String, InstallActionKind), BuildError>)
    ensures
        match entry_action_of(entry@) {
            Ok((s, k)) => r matches Ok((rs, rk)) && rs@ == s && rk == k,
            Err(e) => r matches Err(re) && re@ == e,
        },
{
    let v = text::chars_of(entry);
    proof {
        text::lemma_last_index_of(v@, ':');
    }
    let k = match text::rfind_char(&v, ':') {
        Some(k) => k,
        None => return Err(BuildError::InvalidAction(text::string_of(&v))),
    };
    let source = text::string_from(&v, 0, k);
    let mode = text::string_from(&v, k + 1, v.len());
    let kind = if text::str_eq(mode.as_str(), "link") {
        InstallActionKind::Link
    } else if text::str_eq(mode.as_str(), "copy") {
        InstallActionKind::Copy
    } else {
        return Err(BuildError::UnsupportedMode(mode));
    };
    let parts = fspath::path_components(&text::chars_of(source.as_str()));
    match fspath::join_normal_parts(&parts) {
        Ok(_) => {},
        Err(_) => return Err(BuildError::InvalidSource(source)),
    }
    Ok((source, kind))
}

/// Reads the `files` section of a build manifest (target categories in
/// key order, each with `<path>:<link|copy>` entries) into install
/// actions. Refused at the first unknown category, malformed entry,
/// unknown mode, or source that is absolute or contains `..`.
pub fn parse_actions(files: &Vec<(String, Vec<String>)>) -> (r: Result<Vec<InstallAction>, BuildError>)
    ensures
        match files_actions_of(files_view(files@)) {
            Ok(acts) => r matches Ok(v) && v@.map_values(|a: InstallAction| action_view(a)) == acts,
            Err(e) => r matches Err(re) && re@ == e,
        },
{
    let mut actions: Vec<InstallAction> = Vec::new();
    let mut i: usize = 0;
    proof {
        assert(files_view(files@.subrange(0, 0)) =~= Seq::<(Seq<char>, Seq<Seq<char>>)>::empty());
        assert(actions@.map_values(|a: InstallAction| action_view(a)) =~= Seq::<(Seq<char>, InstallTarget, InstallActionKind)>::empty());
    }
    while i < files.len()
        invariant
            i <= files.len(),
            files_actions_of(files_view(files@.subrange(0, i as int))) == Ok::<
                Seq<(Seq<char>, InstallTarget, InstallActionKind)>,
                BuildErrorView,
            >(actions@.map_values(|a: InstallAction| action_view(a))),
        decreases files.len() - i,
    {
        let (name, entries) = &files[i];
        let ghost fv = files_view(files@);
        proof {
            assert(files_view(files@.subrange(0, i + 1)).drop_last() =~= files_view(files@.subrange(0, i as int)));
            assert(files_view(files@.subrange(0, i + 1)).last() == (name@, crate::resolver::views_of(entries@)));
            assert(files_view(files@.subrange(0, i + 1)) =~= fv.subrange(0, i + 1));
        }
        let target = match target_by_name(name.as_str()) {
            Some(t) => t,
            None => {
                proof {
                    lemma_files_prefix_error(fv, i + 1);
                }
                return Err(BuildError::UnsupportedTarget(name.clone()));
            },
        };
        let ghost before = actions@.map_values(|a: InstallAction| action_view(a));
        let ghost ev = crate::resolver::views_of(entries@);
        let mut j: usize = 0;
        while j < entries.len()
            invariant
                j <= entries.len(),
                i < files@.len(),
                fv == files_view(files@),
                ev == crate::resolver::views_of(entries@),
                files_view(files@.subrange(0, i + 1)) == fv.subrange(0, i + 1),
                files_view(files@.subrange(0, i + 1)).drop_last() == files_view(files@.subrange(0, i as int)),
                files_view(files@.subrange(0, i + 1)).last() == (name@, ev),
                files_actions_of(files_view(files@.subrange(0, i as int))) == Ok::<
                    Seq<(Seq<char>, InstallTarget, InstallActionKind)>,
                    BuildErrorView,
                >(before),
                target_of_name(name@) == Some(target),
                entries_actions_of(target, ev.subrange(0, j as int)) matches Ok(more) && actions@.map_values(
                    |a: InstallAction| action_view(a),
                ) == before + more,
            decreases entries.len() - j,
        {
            proof {
                assert(ev.subrange(0, j + 1).drop_last() =~= ev.subrange(0, j as int));
                assert(ev.subrange(0, j + 1).last() == entries@[j as int]@);
            }
            match entry_action(entries[j].as_str()) {
                Ok((source, kind)) => {
                    let ghost prev = actions@.map_values(|a: InstallAction| action_view(a));
                    actions.push(InstallAction { source, target, kind });
                    proof {
                        assert(actions@.map_values(|a: InstallAction| action_view(a)) =~= prev.push(
                            (actions@.last().source@, target, kind),
                        ));
                    }
                },
                Err(e) => {
                    proof {
                        lemma_entries_prefix_error(target, ev, j + 1);
                        assert(entries_actions_of(target, ev) is Err);
                        lemma_files_prefix_error(fv, i + 1);
                    }
                    return Err(e);
                },
            }
            j = j + 1;
        }
        proof {
            assert(ev.subrange(0, j as int) =~= ev);
        }
        i = i + 1;
    }
    proof {
        assert(files@.subrange(0, i as int) =~= files@);
    }
    Ok(actions)
}

/// Once a prefix of the entries fails, all the entries fail the same way.
pub proof fn lemma_entries_prefix_error(target: InstallTarget, entries: Seq<Seq<char>>, n: int)
    requires
        0 <= n <= entries.len(),
        entries_actions_of(target, entries.subrange(0, n)) is Err,
    ensures
        entries_actions_of(target, entries) == entries_actions_of(target, entries.subrange(0, n)),
    decreases entries.len() - n,
{
    if n < entries.len() {
        assert(entries.subrange(0, n + 1).drop_last() =~= entries.subrange(0, n));
        lemma_entries_prefix_error(target, entries, n + 1);
    } else {
        assert(entries.subrange(0, n) =~= entries);
    }
}

/// Once a prefix of the `files` section fails, the whole section fails the
/// same way.
pub proof fn lemma_files_prefix_error(files: Seq<(Seq<char>, Seq<Seq<char>>)>, n: int)
    requires
        0 <= n <= files.len(),
        files_actions_of(files.subrange(0, n)) is Err,
    ensures
        files_actions_of(files) == files_actions_of(files.subrange(0, n)),
    decreases files.len() - n,
{
    if n < files.len() {
        assert(files.subrange(0, n + 1).drop_last() =~= files.subrange(0, n));
        lemma_files_prefix_error(files, n + 1);
    } else {
        assert(files.subrange(0, n) =~= files);
    }
}


/// Whether a build manifest's architecture list includes `host`.
pub fn supports_architecture(archs: &Vec<Architecture>, host: Architecture) -> (r: bool)
    ensures
        r == archs@.contains(host),
{
    let mut i: usize = 0;
    while i < archs.len()
        invariant
            i <= archs.len(),
            forall|j: int| 0 <= j < i ==> archs@[j] != host,
        decreases archs.len() - i,
    {
        if archs[i] == host {
            return true;
        }
        i = i + 1;
    }
    false
}

/// Where each action's source must be in the payload output directory.
pub fn action_source_paths(output_dir: &str, actions: &Vec<InstallAction>) -> (r: Vec<String>)
    ensures
        r@.len() == actions@.len(),
        forall|k: int| 0 <= k < actions@.len() ==> #[trigger] r@[k]@ == fspath::path_join(output_dir@, actions@[k].source@),
{
    let mut r: Vec<String> = Vec::new();
    let mut i: usize = 0;
    while i < actions.len()
        invariant
            i <= actions.len(),
            r@.len() == i,
            forall|k: int| 0 <= k < i ==> #[trigger] r@[k]@ == fspath::path_join(output_dir@, actions@[k].source@),
        decreases actions.len() - i,
    {
        r.push(fspath::join(output_dir, actions[i].source.as_str()));
        i = i + 1;
    }
    r
}

/// The first action whose source is missing from the payload (`present[k]`
/// tells whether action `k`'s source exists), if any.
pub fn first_missing_source(present: &Vec<bool>) -> (r: Option<usize>)
    ensures
        r matches Some(k) ==> k < present@.len() && !present@[k as int] && forall|j: int| 0 <= j < k ==> present@[j],
        r is None ==> forall|j: int| 0 <= j < present@.len() ==> present@[j],
{
    let mut i: usize = 0;
    while i < present.len()
        invariant
            i <= present.len(),
            forall|j: int| 0 <= j < i ==> present@[j],
        decreases present.len() - i,
    {
        if !present[i] {
            return Some(i);
        }
        i = i + 1;
    }
    None
}

} // verus!
