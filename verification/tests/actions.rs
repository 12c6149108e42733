use parcel::actions::{action_target_relative, apply_actions, normalize_target, ActionError};
use parcel::models::{Action, ActionType};
use parcel::paths::Paths;

#[test]
fn action_target_for_icons_preserves_hicolor_subtree() {
    let target = action_target_relative("icons", "share/icons/hicolor/48x48/apps/example.png").unwrap();

    assert_eq!(target, "hicolor/48x48/apps/example.png");
}

#[test]
fn action_target_accepts_desktop_alias() {
    let target = action_target_relative("desktop", "example.desktop").unwrap();

    assert_eq!(target, "example.desktop");
}

#[test]
fn desktop_is_an_alias_for_applications() {
    assert_eq!(normalize_target("desktop"), "applications");
    assert_eq!(normalize_target("bin"), "bin");
}

#[test]
fn man_pages_keep_their_section_directory() {
    let target = action_target_relative("man", "share/man/man1/example.1").unwrap();
    assert_eq!(target, "man1/example.1");
}

#[test]
fn icons_outside_share_icons_use_their_file_name() {
    let target = action_target_relative("icons", "assets/example.png").unwrap();
    assert_eq!(target, "example.png");
}

#[test]
fn unknown_action_target_is_refused() {
    match action_target_relative("lib", "lib/libexample.so") {
        Err(ActionError::UnsupportedTarget(name)) => assert_eq!(name, "lib"),
        _ => panic!("expected an unsupported target"),
    }
}

fn action(source: &str, target: &str) -> Action {
    Action { source: source.to_string(), target: target.to_string(), action_type: ActionType::Link }
}

#[test]
fn apply_actions_places_files_under_home() {
    let paths = Paths::from_home("/home/user".to_string());
    let actions = vec![action("bin/example", "bin"), action("share/applications/example.desktop", "desktop")];
    let resolved = match apply_actions(&paths, &actions, &vec![true, true], &vec![false, false]) {
        Ok(r) => r,
        Err(e) => panic!("{:?}", e),
    };
    assert_eq!(resolved.len(), 2);
    assert_eq!(resolved[0].resolved_target, "/home/user/.local/bin/example");
    assert_eq!(resolved[1].resolved_target, "/home/user/.local/share/applications/example.desktop");
    assert_eq!(resolved[1].target, "desktop");
}

#[test]
fn apply_actions_refuses_missing_sources_and_taken_targets() {
    let paths = Paths::from_home("/home/user".to_string());
    let actions = vec![action("bin/example", "bin")];
    match apply_actions(&paths, &actions, &vec![false], &vec![false]) {
        Err(ActionError::MissingSource(s)) => assert_eq!(s, "bin/example"),
        _ => panic!("expected a missing source"),
    }
    match apply_actions(&paths, &actions, &vec![true], &vec![true]) {
        Err(ActionError::TargetExists(t)) => assert_eq!(t, "/home/user/.local/bin/example"),
        _ => panic!("expected an occupied target"),
    }
    match apply_actions(&paths, &vec![action("../escape", "bin")], &vec![true], &vec![false]) {
        Err(ActionError::InvalidSource(_)) => {},
        _ => panic!("expected an invalid source"),
    }
}

#[test]
fn apply_actions_refuses_two_actions_with_one_destination() {
    let paths = Paths::from_home("/home/user".to_string());
    let actions = vec![action("bin/example", "bin"), action("tools/example", "bin")];
    match apply_actions(&paths, &actions, &vec![true, true], &vec![false, false]) {
        Err(ActionError::TargetExists(t)) => assert_eq!(t, "/home/user/.local/bin/example"),
        _ => panic!("expected the second action to clash"),
    }
}
