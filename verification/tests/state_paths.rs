use chromium_bridge::paths::{
    expand_path_with_home, join_path, resolve_state_path, state_file_name, state_root_from_env,
    validate_state_name, StateEnv, StatePathError,
};
use std::path::PathBuf;

fn no_env() -> StateEnv {
    StateEnv {
        state_dir: None,
        xdg_config_home: None,
        home: None,
    }
}

#[test]
fn named_state_paths_live_under_config_dir() {
    let root = state_root_from_env(
        Some("/tmp/chromium-bridge-state-tests"),
        None,
        Some("/tmp/home"),
    )
    .expect("state root");
    let path = join_path(&root, "linkedin-auth.json");
    assert_eq!(
        PathBuf::from(path),
        PathBuf::from("/tmp/chromium-bridge-state-tests/linkedin-auth.json")
    );
}

#[test]
fn explicit_state_path_expands_home() {
    let path = expand_path_with_home("~/saved/state.json", Some("/tmp/chromium-bridge-home"))
        .expect("state path");
    assert_eq!(
        PathBuf::from(path),
        PathBuf::from("/tmp/chromium-bridge-home/saved/state.json")
    );
}

#[test]
fn named_state_rejects_path_separators() {
    let err = resolve_state_path("nested/state", None, &no_env()).expect_err("expected invalid name");
    assert!(err
        .message()
        .contains("Snapshot names cannot contain path separators"));
}

#[test]
fn state_root_prefers_xdg_then_home() {
    let xdg = state_root_from_env(None, Some("/tmp/xdg"), Some("/tmp/home")).unwrap();
    assert_eq!(xdg, "/tmp/xdg/chromium-bridge/states");
    let home = state_root_from_env(None, None, Some("/tmp/home/")).unwrap();
    assert_eq!(home, "/tmp/home/.config/chromium-bridge/states");
    let none = state_root_from_env(None, None, None);
    assert_eq!(none, Err(StatePathError::HomeNotSet));
    assert_eq!(none.unwrap_err().message(), "HOME is not set");
}

#[test]
fn override_dir_expands_tilde_and_needs_home() {
    let dir = state_root_from_env(Some("~/states"), Some("/tmp/xdg"), Some("/h")).unwrap();
    assert_eq!(dir, "/h/states");
    assert_eq!(
        state_root_from_env(Some("~/states"), None, None),
        Err(StatePathError::HomeNotSet)
    );
}

#[test]
fn expand_leaves_other_paths_alone() {
    assert_eq!(expand_path_with_home("/abs/x.json", None).unwrap(), "/abs/x.json");
    assert_eq!(expand_path_with_home("~user/x", None).unwrap(), "~user/x");
    assert_eq!(expand_path_with_home("~", None).unwrap(), "~");
    assert_eq!(
        expand_path_with_home("~/x", None),
        Err(StatePathError::HomeNotSet)
    );
}

#[test]
fn join_follows_path_rules() {
    assert_eq!(join_path("/a", "b"), "/a/b");
    assert_eq!(join_path("/a/", "b"), "/a/b");
    assert_eq!(join_path("", "b"), "b");
    assert_eq!(join_path("/a", "/etc"), "/etc");
}

#[test]
fn state_names_are_validated() {
    assert_eq!(validate_state_name("ok-name"), Ok(()));
    assert_eq!(validate_state_name(""), Err(StatePathError::EmptyName));
    assert_eq!(validate_state_name(" \t\u{3000}"), Err(StatePathError::EmptyName));
    assert_eq!(validate_state_name("a\\b"), Err(StatePathError::PathSeparator));
    assert_eq!(
        StatePathError::EmptyName.message(),
        "Snapshot name cannot be empty"
    );
}

#[test]
fn named_state_files_get_json_suffix_once() {
    assert_eq!(state_file_name("auth"), "auth.json");
    assert_eq!(state_file_name("auth.json"), "auth.json");
    let env = StateEnv {
        state_dir: Some("/s".to_string()),
        xdg_config_home: None,
        home: None,
    };
    assert_eq!(resolve_state_path("auth", None, &env).unwrap(), "/s/auth.json");
    assert_eq!(resolve_state_path("auth.json", None, &env).unwrap(), "/s/auth.json");
}

#[test]
fn explicit_path_skips_name_validation() {
    let env = StateEnv {
        state_dir: None,
        xdg_config_home: None,
        home: Some("/home/me".to_string()),
    };
    assert_eq!(
        resolve_state_path("bad/name", Some("~/x.json"), &env).unwrap(),
        "/home/me/x.json"
    );
    assert_eq!(
        resolve_state_path("  ", None, &env),
        Err(StatePathError::EmptyName)
    );
    assert_eq!(
        resolve_state_path("auth", None, &no_env()),
        Err(StatePathError::HomeNotSet)
    );
}
