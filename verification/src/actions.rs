//! Where desktop integration actions put payload files.

use vstd::prelude::*;

use crate::archive::{relative_path_check, PathError};
use crate::fspath::{self, path_join};
use crate::models::{Action, ResolvedAction};
use crate::paths::Paths;
use crate::scan::{first_where, lemma_first_where, lemma_first_where_at};
use crate::text;

verus! {

/// Why an action could not be placed.
#[derive(Debug)]
pub enum ActionError {
    /// The action's source path is not a safe relative path.
    InvalidSource(PathError),
    /// The target category is not one of `bin`, `applications`
    /// (`desktop`), `icons`, `man`.
    UnsupportedTarget(String),
    /// The source path has no file name to install under.
    NoFileName(String),
    /// The source is missing from the package payload.
    MissingSource(String),
    /// Something already occupies the destination.
    TargetExists(String),
}

/// `desktop` is another name for `applications`.
pub open spec fn normalized_target(t: Seq<char>) -> Seq<char> {
    if t == "desktop"@ {
        "applications"@
    } else {
        t
    }
}

/// Maps the `desktop` alias to `applications`.
pub fn normalize_target(target: &str) -> (r: String)
    ensures
        r@ == normalized_target(target@),
{
    if text::str_eq(target, "desktop") {
        text::string_of(&text::chars_of("applications"))
    } else {
        text::string_of(&text::chars_of(target))
    }
}

/// The directory a target category installs into.
pub open spec fn target_root_of(home: Seq<char>, t: Seq<char>) -> Option<Seq<char>> {
    let n = normalized_target(t);
    if n == "bin"@ {
        Some(path_join(home, ".local/bin"@))
    } else if n == "applications"@ {
        Some(path_join(home, ".local/share/applications"@))
    } else if n == "icons"@ {
        Some(path_join(home, ".local/share/icons"@))
    } else if n == "man"@ {
        Some(path_join(home, ".local/share/man"@))
    } else {
        None
    }
}

/// The directory an action target installs into.
pub fn target_root(paths: &Paths, target: &str) -> (r: Result<String, ActionError>)
    ensures
        r is Ok <==> target_root_of(paths.home@, target@) is Some,
        r matches Ok(d) ==> target_root_of(paths.home@, target@) == Some(d@),
        r matches Err(e) ==> e matches ActionError::UnsupportedTarget(n) && n@ == normalized_target(target@),
{
    let n = normalize_target(target);
    if text::str_eq(n.as_str(), "bin") {
        Ok(paths.local_bin())
    } else if text::str_eq(n.as_str(), "applications") {
        Ok(paths.applications())
    } else if text::str_eq(n.as_str(), "icons") {
        Ok(paths.icons())
    } else if text::str_eq(n.as_str(), "man") {
        Ok(paths.man())
    } else {
        Err(ActionError::UnsupportedTarget(n))
    }
}

/// The components of `source` below `prefix` when there are any, else the
/// file name of `source`.
pub open spec fn strip_known_prefix_of(source: Seq<char>, prefix: Seq<char>) -> Option<Seq<char>> {
    match fspath::strip_prefix_of(source, prefix) {
        Some(rest) if rest.len() > 0 => Some(fspath::render_parts(rest)),
        _ => fspath::file_name_of(source),
    }
}

/// Keeps the path of `source` below `prefix`; falls back to its file name
/// when `source` is not below `prefix` or is `prefix` itself.
pub fn strip_known_prefix(source: &str, prefix: &str) -> (r: Result<String, ActionError>)
    ensures
        r is Ok <==> strip_known_prefix_of(source@, prefix@) is Some,
        r matches Ok(p) ==> strip_known_prefix_of(source@, prefix@) == Some(p@),
        r matches Err(e) ==> e matches ActionError::NoFileName(s) && s@ == source@,
{
    let s = text::chars_of(source);
    let p = text::chars_of(prefix);
    match fspath::strip_prefix(&s, &p) {
        Some(rest) => {
            if rest.len() > 0 {
                let v = fspath::render(&rest);
                return Ok(text::string_of(&v));
            }
        },
        None => {},
    }
    match fspath::file_name(&s) {
        Some(n) => Ok(text::string_of(&n)),
        None => Err(ActionError::NoFileName(text::string_of(&s))),
    }
}

/// Where below its target directory an action's source is installed.
pub open spec fn action_target_relative_of(target: Seq<char>, source: Seq<char>) -> Option<Option<Seq<char>>> {
    let n = normalized_target(target);
    if n == "icons"@ {
        Some(strip_known_prefix_of(source, "share/icons"@))
    } else if n == "man"@ {
        Some(strip_known_prefix_of(source, "share/man"@))
    } else if n == "bin"@ || n == "applications"@ {
        Some(fspath::file_name_of(source))
    } else {
        None
    }
}

/// Where below its target directory an action's source is installed:
/// icons and man pages keep their path below `share/icons` and
/// `share/man`; everything else is installed under its file name.
pub fn action_target_relative(target: &str, source: &str) -> (r: Result<String, ActionError>)
    ensures
        r is Ok <==> action_target_relative_of(target@, source@) matches Some(Some(_)),
        r matches Ok(p) ==> action_target_relative_of(target@, source@) == Some(Some(p@)),
        action_target_relative_of(target@, source@) is None ==> r matches Err(
            ActionError::UnsupportedTarget(_),
        ),
        action_target_relative_of(target@, source@) == Some(None::<Seq<char>>) ==> (r matches Err(
            ActionError::NoFileName(s),
        ) && s@ == source@),
        action_target_relative_of(target@, source@) is None ==> (r matches Err(
            ActionError::UnsupportedTarget(n),
        ) && n@ == normalized_target(target@)),
{
    let n = normalize_target(target);
    if text::str_eq(n.as_str(), "icons") {
        strip_known_prefix(source, "share/icons")
    } else if text::str_eq(n.as_str(), "man") {
        strip_known_prefix(source, "share/man")
    } else if text::str_eq(n.as_str(), "bin") || text::str_eq(n.as_str(), "applications") {
        let s = text::chars_of(source);
        match fspath::file_name(&s) {
            Some(f) => Ok(text::string_of(&f)),
            None => Err(ActionError::NoFileName(text::string_of(&s))),
        }
    } else {
        Err(ActionError::UnsupportedTarget(n))
    }
}

/// Where an action installs its source: the target directory joined with
/// the path kept from the source. Checks the source path first.
pub fn action_target(paths: &Paths, action: &Action) -> (r: Result<String, ActionError>)
    ensures
        crate::archive::relative_path_check(action.source@) is Err ==> r matches Err(
            ActionError::InvalidSource(_),
        ),
        r matches Ok(t) ==> crate::archive::relative_path_check(action.source@) is Ok && (
        target_root_of(paths.home@, action.target@) matches Some(root) && action_target_relative_of(
            action.target@,
            action.source@,
        ) matches Some(Some(rel)) && t@ == path_join(root, rel)),
        crate::archive::relative_path_check(action.source@) is Ok && target_root_of(
            paths.home@,
            action.target@,
        ) is Some && (action_target_relative_of(action.target@, action.source@) matches Some(Some(_)))
            ==> r is Ok,
{
    match crate::archive::validate_relative_path(action.source.as_str()) {
        Err(e) => return Err(ActionError::InvalidSource(e)),
        Ok(()) => {},
    }
    let root = target_root(paths, action.target.as_str())?;
    let rel = action_target_relative(action.target.as_str(), action.source.as_str())?;
    Ok(fspath::join(root.as_str(), rel.as_str()))
}

/// Where an action's file is placed: its target directory joined with the
/// path kept from its source, when the source is a safe relative path and
/// both work out.
pub open spec fn placed_target_of(home: Seq<char>, a: Action) -> Option<Seq<char>> {
    if relative_path_check(a.source@) is Ok {
        match target_root_of(home, a.target@) {
            Some(root) => match action_target_relative_of(a.target@, a.source@) {
                Some(Some(rel)) => Some(path_join(root, rel)),
                _ => None,
            },
            None => None,
        }
    } else {
        None
    }
}

/// Whether an earlier action (before `i`) already places its file at the
/// same path as `t`.
pub open spec fn claimed_earlier(home: Seq<char>, acts: Seq<Action>, i: int, t: Seq<char>) -> bool {
    first_where(
        i,
        |j: int| fspath::components(placed_target_of(home, acts[j]).unwrap()) == fspath::components(t),
    ) >= 0
}

/// Whether action `i` cannot be applied: its destination does not work
/// out, its source is not in the payload (`present[i]`), or its
/// destination is taken, by a file already there (`taken[i]`) or by an
/// earlier action.
pub open spec fn action_blocked(
    home: Seq<char>,
    acts: Seq<Action>,
    present: Seq<bool>,
    taken: Seq<bool>,
    i: int,
) -> bool {
    match placed_target_of(home, acts[i]) {
        None => true,
        Some(t) => !present[i] || taken[i] || claimed_earlier(home, acts, i, t),
    }
}

/// The error for a blocked action, in the order the checks run: source
/// path, source presence, target category, file name, destination.
pub open spec fn action_error_is(
    e: ActionError,
    home: Seq<char>,
    acts: Seq<Action>,
    present: Seq<bool>,
    k: int,
) -> bool {
    let a = acts[k];
    if relative_path_check(a.source@) is Err {
        e matches ActionError::InvalidSource(pe) && relative_path_check(a.source@) == Err::<(), PathError>(pe)
    } else if !present[k] {
        e matches ActionError::MissingSource(s) && s@ == a.source@
    } else if target_root_of(home, a.target@) is None {
        e matches ActionError::UnsupportedTarget(n) && n@ == normalized_target(a.target@)
    } else if action_target_relative_of(a.target@, a.source@) == Some(None::<Seq<char>>) {
        e matches ActionError::NoFileName(s) && s@ == a.source@
    } else {
        e matches ActionError::TargetExists(t) && t@ == placed_target_of(home, a).unwrap()
    }
}

/// The directory below the home directory that each documented target
/// category installs into; `desktop` is another name for `applications`.
pub open spec fn documented_dir(t: Seq<char>) -> Option<Seq<char>> {
    if t == "bin"@ {
        Some(".local/bin"@)
    } else if t == "applications"@ || t == "desktop"@ {
        Some(".local/share/applications"@)
    } else if t == "icons"@ {
        Some(".local/share/icons"@)
    } else if t == "man"@ {
        Some(".local/share/man"@)
    } else {
        None
    }
}

/// Every documented target category (`bin`, `applications` or `desktop`,
/// `icons`, `man`) has its directory below the home directory, and an
/// action with such a target whose source is a safe relative path ending
/// in a file name is placed there rather than refused: on its own, with
/// its source present and its destination free, it is not blocked.
pub proof fn law_documented_targets_are_placed(home: Seq<char>, a: Action)
    requires
        documented_dir(a.target@) is Some,
        relative_path_check(a.source@) is Ok,
        fspath::file_name_of(a.source@) is Some,
    ensures
        target_root_of(home, a.target@) == Some(path_join(home, documented_dir(a.target@).unwrap())),
        placed_target_of(home, a) is Some,
        !action_blocked(home, seq![a], seq![true], seq![false], 0),
{
    reveal_strlit("bin");
    reveal_strlit("applications");
    reveal_strlit("desktop");
    reveal_strlit("icons");
    reveal_strlit("man");
    let t = a.target@;
    assert("bin"@.len() == 3 && "man"@.len() == 3 && "icons"@.len() == 5);
    assert("desktop"@.len() == 7 && "applications"@.len() == 12);
    assert("bin"@[0] == 'b' && "man"@[0] == 'm');
    if t == "bin"@ {
        assert(normalized_target(t) == "bin"@);
    } else if t == "applications"@ {
        assert(t != "desktop"@);
        assert(normalized_target(t) == "applications"@);
        assert("applications"@ != "bin"@);
    } else if t == "desktop"@ {
        assert(normalized_target(t) == "applications"@);
        assert("applications"@ != "bin"@);
    } else if t == "icons"@ {
        assert(normalized_target(t) == "icons"@);
        assert("icons"@ != "bin"@ && "icons"@ != "applications"@);
    } else {
        assert(t == "man"@);
        assert(normalized_target(t) == "man"@);
        assert("man"@ != "bin"@ && "man"@ != "applications"@ && "man"@ != "icons"@);
    }
    assert(seq![a][0] == a);
    assert(first_where(
        0,
        |j: int| fspath::components(placed_target_of(home, seq![a][j]).unwrap()) == fspath::components(
            placed_target_of(home, a).unwrap(),
        ),
    ) == -1);
}

/// Whether `r` records action `a` placed at `t`.
pub open spec fn records_action(r: ResolvedAction, a: Action, t: Seq<char>) -> bool {
    &&& r.source@ == a.source@
    &&& r.target@ == a.target@
    &&& r.action_type == a.action_type
    &&& r.resolved_target@ == t
}

/// Whether `r` records action `a` at the destination it places its file.
pub open spec fn records_placed(home: Seq<char>, a: Action, r: ResolvedAction) -> bool {
    placed_target_of(home, a) is Some && records_action(r, a, placed_target_of(home, a).unwrap())
}

/// Decides where a package's actions place their files, in order, and
/// returns the records to keep in the database. `present[i]` tells
/// whether action `i`'s source exists in the unpacked payload; `taken[i]`
/// whether its destination already exists. Stops at the first action that
/// cannot be applied; the files placed before it are then to be removed.
pub fn apply_actions(
    paths: &Paths,
    actions: &Vec<Action>,
    present: &Vec<bool>,
    taken: &Vec<bool>,
) -> (r: Result<Vec<ResolvedAction>, ActionError>)
    requires
        present@.len() == actions@.len(),
        taken@.len() == actions@.len(),
    ensures
        ({
            let home = paths.home@;
            let acts = actions@;
            let k = first_where(acts.len() as int, |i: int| action_blocked(home, acts, present@, taken@, i));
            &&& r is Ok <==> k < 0
            &&& r matches Err(e) ==> action_error_is(e, home, acts, present@, k)
            &&& r matches Ok(v) ==> v@.len() == acts.len() && forall|i: int|
                0 <= i < acts.len() ==> records_action(
                    #[trigger] v@[i],
                    acts[i],
                    placed_target_of(home, acts[i]).unwrap(),
                )
        }),
{
    let ghost home = paths.home@;
    let ghost acts = actions@;
    let ghost p = |i: int| action_blocked(home, acts, present@, taken@, i);
    let mut resolved: Vec<ResolvedAction> = Vec::new();
    let mut i: usize = 0;
    while i < actions.len()
        invariant
            i <= acts.len(),
            acts == actions@,
            home == paths.home@,
            present@.len() == acts.len(),
            taken@.len() == acts.len(),
            p == (|i: int| action_blocked(home, acts, present@, taken@, i)),
            first_where(i as int, p) < 0,
            resolved@.len() == i,
            forall|j: int| 0 <= j < i ==> records_placed(home, acts[j], #[trigger] resolved@[j]),
        decreases acts.len() - i,
    {
        let action = &actions[i];
        proof {
            lemma_first_where(i as int, p);
        }
        match crate::archive::validate_relative_path(action.source.as_str()) {
            Err(e) => {
                proof {
                    lemma_first_where_at(i as int, acts.len() as int, p);
                }
                return Err(ActionError::InvalidSource(e));
            },
            Ok(()) => {},
        }
        if !present[i] {
            proof {
                lemma_first_where_at(i as int, acts.len() as int, p);
            }
            return Err(ActionError::MissingSource(action.source.clone()));
        }
        let root = match target_root(paths, action.target.as_str()) {
            Ok(root) => root,
            Err(e) => {
                proof {
                    lemma_first_where_at(i as int, acts.len() as int, p);
                }
                return Err(e);
            },
        };
        let rel = match action_target_relative(action.target.as_str(), action.source.as_str()) {
            Ok(rel) => rel,
            Err(e) => {
                proof {
                    lemma_first_where_at(i as int, acts.len() as int, p);
                }
                return Err(e);
            },
        };
        let target = fspath::join(root.as_str(), rel.as_str());
        let ghost q = |j: int|
            fspath::components(placed_target_of(home, acts[j]).unwrap()) == fspath::components(target@);
        let mut clash = taken[i];
        let mut j: usize = 0;
        while j < i && !clash
            invariant
                j <= i,
                i < acts.len(),
                resolved@.len() == i,
                clash == taken@[i as int] || first_where(j as int, q) >= 0,
                !clash ==> first_where(j as int, q) < 0,
                q == (|j: int| fspath::components(placed_target_of(home, acts[j]).unwrap())
                    == fspath::components(target@)),
                acts == actions@,
                home == paths.home@,
                taken@.len() == acts.len(),
                forall|j: int| 0 <= j < i ==> records_placed(home, acts[j], #[trigger] resolved@[j]),
            decreases i - j,
        {
            if fspath::same_path(resolved[j].resolved_target.as_str(), target.as_str()) {
                proof {
                    assert(resolved@[j as int].resolved_target@ == placed_target_of(home, acts[j as int]).unwrap());
                    lemma_first_where_at(j as int, j + 1, q);
                }
                clash = true;
            } else {
                proof {
                    assert(resolved@[j as int].resolved_target@ == placed_target_of(home, acts[j as int]).unwrap());
                    assert(first_where(j + 1, q) < 0);
                }
            }
            j = j + 1;
        }
        proof {
            if !clash {
                assert(j == i);
            }
            if first_where(j as int, q) >= 0 {
                crate::scan::lemma_first_where_extends(j as int, i as int, q);
            }
        }
        if clash {
            proof {
                lemma_first_where_at(i as int, acts.len() as int, p);
            }
            return Err(ActionError::TargetExists(target));
        }
        let ghost before = resolved@;
        resolved.push(
            ResolvedAction {
                source: action.source.clone(),
                target: action.target.clone(),
                action_type: action.action_type,
                resolved_target: target,
            },
        );
        proof {
            assert forall|k: int| 0 <= k < i + 1 implies records_placed(home, acts[k], #[trigger] resolved@[k]) by {
                if k < i {
                    assert(resolved@[k] == before[k]);
                }
            }
            assert(!p(i as int));
            assert(first_where(i + 1, p) < 0);
        }
        i = i + 1;
    }
    Ok(resolved)
}

/// When every action of a package can be applied, no two of them place
/// their files at the same path, and none lands on a file already there.
pub proof fn law_applied_targets_distinct(
    home: Seq<char>,
    acts: Seq<Action>,
    present: Seq<bool>,
    taken: Seq<bool>,
)
    requires
        first_where(acts.len() as int, |i: int| action_blocked(home, acts, present, taken, i)) < 0,
    ensures
        forall|i: int| 0 <= i < acts.len() ==> !taken[i] && #[trigger] placed_target_of(home, acts[i]) is Some,
        forall|i: int, j: int|
            0 <= i < j < acts.len() ==> fspath::components(#[trigger] placed_target_of(home, acts[i]).unwrap())
                != fspath::components(#[trigger] placed_target_of(home, acts[j]).unwrap()),
{
    let p = |i: int| action_blocked(home, acts, present, taken, i);
    lemma_first_where(acts.len() as int, p);
    assert forall|i: int| 0 <= i < acts.len() implies !taken[i] && #[trigger] placed_target_of(home, acts[i]) is Some by {
        assert(!p(i));
    }
    assert forall|i: int, j: int|
        0 <= i < j < acts.len() implies fspath::components(#[trigger] placed_target_of(home, acts[i]).unwrap())
            != fspath::components(#[trigger] placed_target_of(home, acts[j]).unwrap()) by {
        assert(!p(j));
        let t = placed_target_of(home, acts[j]).unwrap();
        let q = |k: int| fspath::components(placed_target_of(home, acts[k]).unwrap()) == fspath::components(t);
        lemma_first_where(j, q);
        if fspath::components(placed_target_of(home, acts[i]).unwrap()) == fspath::components(t) {
            assert(q(i));
        }
    }
}

/// What removing a package does with the file one of its actions placed.
#[derive(Debug, PartialEq, Eq, Structural)]
pub enum RemovalDecision {
    /// Delete it.
    Remove,
    /// Nothing is there any more.
    Absent,
    /// A link action's destination is no longer a symbolic link; keep it.
    KeepNotSymlink,
    /// The link points somewhere else than the package's file; keep it.
    KeepRetargeted,
}

/// Decides whether removing a package deletes an action's destination:
/// copies are deleted; links only while they still point at the source in
/// the package's install directory. `present` tells whether the
/// destination exists; `link_target` is where it points when it is a
/// symbolic link.
pub fn action_removal(
    package: &crate::models::InstalledPackage,
    action: &ResolvedAction,
    present: bool,
    link_target: Option<&str>,
) -> (r: RemovalDecision)
    ensures
        !present ==> r == RemovalDecision::Absent,
        present && action.action_type == crate::models::ActionType::Copy ==> r == RemovalDecision::Remove,
        present && action.action_type == crate::models::ActionType::Link ==> r == match link_target {
            None => RemovalDecision::KeepNotSymlink,
            Some(t) => if fspath::components(t@) == fspath::components(
                path_join(package.install_path@, action.source@),
            ) {
                RemovalDecision::Remove
            } else {
                RemovalDecision::KeepRetargeted
            },
        },
{
    if !present {
        return RemovalDecision::Absent;
    }
    match action.action_type {
        crate::models::ActionType::Copy => RemovalDecision::Remove,
        crate::models::ActionType::Link => match link_target {
            None => RemovalDecision::KeepNotSymlink,
            Some(t) => {
                let expected = fspath::join(package.install_path.as_str(), action.source.as_str());
                if fspath::same_path(t, expected.as_str()) {
                    RemovalDecision::Remove
                } else {
                    RemovalDecision::KeepRetargeted
                }
            },
        },
    }
}

} // verus!
