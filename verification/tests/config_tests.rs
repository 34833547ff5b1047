use std::path::PathBuf;

use dm_core::api::{apply_update, ConfigUpdate};
use dm_core::config::{
    active_link, config_path, resolve_home, version_binary, version_dir, versions_dir, DmConfig,
};
use dm_core::paths::join_path;

#[test]
fn resolve_home_with_flag() {
    let result = resolve_home(Some("/tmp/my-dm-home".into()), None, None).unwrap();
    assert_eq!(PathBuf::from(result), PathBuf::from("/tmp/my-dm-home"));
}

#[test]
fn resolve_home_flag_wins_over_environment() {
    let result = resolve_home(
        Some("/tmp/dm-flag-wins".into()),
        Some("/tmp/dm-env-should-be-ignored".into()),
        Some("/home/user".into()),
    );
    assert_eq!(result, Some("/tmp/dm-flag-wins".to_string()));
}

#[test]
fn resolve_home_environment_wins_over_user_home() {
    let result = resolve_home(None, Some("/tmp/dm-env-test-12345".into()), Some("/home/u".into()));
    assert_eq!(result, Some("/tmp/dm-env-test-12345".to_string()));
}

#[test]
fn resolve_home_falls_back_to_dot_dm() {
    assert_eq!(resolve_home(None, None, Some("/home/user".into())), Some("/home/user/.dm".to_string()));
    assert_eq!(resolve_home(None, None, None), None);
}

#[test]
fn versions_dir_path() {
    let home = std::path::PathBuf::from("/home/user/.dm");
    assert_eq!(
        PathBuf::from(versions_dir(home.to_str().unwrap())),
        std::path::PathBuf::from("/home/user/.dm/versions")
    );
}

#[test]
fn active_link_path() {
    let home = std::path::PathBuf::from("/home/user/.dm");
    assert_eq!(
        PathBuf::from(active_link(home.to_str().unwrap())),
        std::path::PathBuf::from("/home/user/.dm/active")
    );
}

#[test]
fn config_path_correct() {
    let home = std::path::PathBuf::from("/foo/bar");
    assert_eq!(
        PathBuf::from(config_path(home.to_str().unwrap())),
        std::path::PathBuf::from("/foo/bar/config.toml")
    );
}

#[test]
fn load_config_default_has_no_active_version() {
    let cfg = DmConfig::default();
    assert!(cfg.active_version.is_none());
}

#[test]
fn paths_are_exact_text() {
    assert_eq!(versions_dir("/home/user/.dm"), "/home/user/.dm/versions");
    assert_eq!(version_dir("/h", "0.4.1"), "/h/versions/0.4.1");
    assert_eq!(version_binary("/h", "0.4.1"), "/h/versions/0.4.1/dora");
}

#[test]
fn join_path_agrees_with_std_on_edge_cases() {
    let cases = [
        ("/home/user", "nodes"),
        ("/home/user/", "nodes"),
        ("", "nodes"),
        ("/", "nodes"),
        ("relative", "a/b"),
        ("/home/user", "/absolute"),
        ("/home/user", ""),
    ];
    for (base, component) in cases {
        let expected = std::path::Path::new(base).join(component);
        assert_eq!(join_path(base, component), expected.to_str().unwrap(), "{base:?} + {component:?}");
    }
    assert_eq!(join_path("/home/user/", "nodes"), "/home/user/nodes");
    assert_eq!(join_path("", "nodes"), "nodes");
    assert_eq!(join_path("/a", "/b"), "/b");
}

#[test]
fn config_update_replaces_only_what_it_names() {
    let kept = apply_update(
        DmConfig { active_version: Some("0.3.0".into()) },
        ConfigUpdate { active_version: None },
    );
    assert_eq!(kept.active_version, Some("0.3.0".to_string()));
    let replaced = apply_update(
        DmConfig { active_version: Some("0.3.0".into()) },
        ConfigUpdate { active_version: Some("0.4.1".into()) },
    );
    assert_eq!(replaced.active_version, Some("0.4.1".to_string()));
}
