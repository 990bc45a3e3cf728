use moco::cli::project::project_git_line;
use moco::git::{format_git_info, GitInfo};

fn info(branch: Option<&str>, remote_url: Option<&str>) -> GitInfo {
    GitInfo {
        branch: branch.map(str::to_owned),
        remote_url: remote_url.map(str::to_owned),
        remote_name: None,
    }
}

#[test]
fn format_branch_and_remote() {
    let s = format_git_info(&info(Some("main"), Some("https://github.com/u/r.git")));
    assert_eq!(s, "⎇ main  ↑ https://github.com/u/r.git");
}

#[test]
fn format_branch_only() {
    let s = format_git_info(&info(Some("feature/x"), None));
    assert_eq!(s, "⎇ feature/x");
}

#[test]
fn format_remote_only() {
    let s = format_git_info(&info(None, Some("https://example.com/r.git")));
    assert_eq!(s, "↑ https://example.com/r.git");
}

#[test]
fn format_empty_when_neither() {
    let s = format_git_info(&info(None, None));
    assert!(s.is_empty());
}

#[test]
fn project_git_line_prefers_live_info_then_cache() {
    let cached = Some("git@example.com:r.git".to_string());
    assert_eq!(
        project_git_line(&Some(info(Some("main"), None)), &cached),
        Some("⎇ main".to_string())
    );
    assert_eq!(project_git_line(&Some(info(None, None)), &cached), None);
    assert_eq!(
        project_git_line(&None, &cached),
        Some("↑ git@example.com:r.git (cached)".to_string())
    );
    assert_eq!(project_git_line(&None, &None), None);
}

#[test]
fn remote_prefers_upstream_then_origin() {
    assert_eq!(moco::git::choose_remote(Some("upstream".to_string()), true), Some("upstream".to_string()));
    assert_eq!(moco::git::choose_remote(None, true), Some("origin".to_string()));
    assert_eq!(moco::git::choose_remote(None, false), None);
}
