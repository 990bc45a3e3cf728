use moco::config::{join_path, AppConfig, MocoConfig, DEFAULT_CONFIG_TEMPLATE};
use moco::models::project::Project;
use moco::theme::Preset;
use moco::workspace::resolve;
use moco::config::config_issues;

#[test]
fn resolve_returns_none_when_no_projects() {
    let result = resolve(&vec![], "/some/path");
    assert!(result.is_none());
}

#[test]
fn resolve_returns_matching_project() {
    let projects = vec![Project::new("myproject", "/home/user/myproject")];
    let result = resolve(&projects, "/home/user/myproject/src");
    assert!(result.is_some());
    assert_eq!(result.unwrap().name, "myproject");
}

#[test]
fn resolve_picks_most_specific_match() {
    let projects = vec![
        Project::new("parent", "/home/user/projects"),
        Project::new("child", "/home/user/projects/child"),
    ];
    let result = resolve(&projects, "/home/user/projects/child/src");
    assert!(result.is_some());
    assert_eq!(result.unwrap().name, "child");
}

#[test]
fn resolve_returns_none_for_unregistered_path() {
    let projects = vec![Project::new("myproject", "/home/user/myproject")];
    let result = resolve(&projects, "/home/user/other");
    assert!(result.is_none());
}

#[test]
fn resolve_compares_whole_components() {
    let projects = vec![Project::new("app", "/home/user/app")];
    assert!(resolve(&projects, "/home/user/application").is_none());
    assert_eq!(resolve(&projects, "/home/user/app").unwrap().name, "app");
}

#[test]
fn resolve_open_command_uses_open_with_field() {
    let config = MocoConfig { open_with: Some("code".to_string()), ..MocoConfig::default() };
    assert_eq!(config.resolve_open_command(None).unwrap(), "code");
    assert_eq!(config.resolve_open_command(Some("vim")).unwrap(), "code");
}

#[test]
fn resolve_open_command_falls_back_to_editor_env() {
    let config = MocoConfig::default();
    assert_eq!(config.resolve_open_command(Some("vim")).unwrap(), "vim");
    assert_eq!(
        config.resolve_open_command(None).unwrap_err(),
        "No editor configured. Set `open_with` in ~/.moco/config.toml or export $EDITOR."
    );
}

#[test]
fn default_config_uses_moco_preset() {
    let config = MocoConfig::default();
    assert!(config.open_with.is_none());
    assert_eq!(config.theme.preset, Preset::Moco);
    assert!(DEFAULT_CONFIG_TEMPLATE.starts_with("# moco configuration\n"));
}

#[test]
fn db_path_is_inside_moco_dir() {
    let config = AppConfig::at_home("/home/user", MocoConfig::default());
    assert_eq!(config.moco_dir, "/home/user/.moco");
    assert_eq!(config.db_path, "/home/user/.moco/moco.db");
    assert_eq!(MocoConfig::config_path(&config.moco_dir), "/home/user/.moco/config.toml");
}

#[test]
fn join_path_adds_one_separator() {
    assert_eq!(join_path("/a/", "b"), "/a/b");
    assert_eq!(join_path("/a", "b"), "/a/b");
    assert_eq!(join_path("", "b"), "b");
}

#[test]
fn config_check_issues() {
    assert_eq!(config_issues(Some("bad"), None, true), vec!["Parse error in config.toml: bad".to_string()]);
    assert_eq!(
        config_issues(None, Some("nope"), false),
        vec!["`open_with = \"nope\"` — command not found on PATH.".to_string()]
    );
    assert!(config_issues(None, Some("sh"), true).is_empty());
    assert!(config_issues(None, None, false).is_empty());
}
