use moco::cli::project::{
    check_category_removal, check_reorder_position, count_summary, find_project_by_name,
    format_last_active, group_projects, relocation, resolve_named_project, status_counts,
    Relocation,
};
use moco::models::category::Category;
use moco::models::project::Project;
use moco::models::task::{Task, TaskStatus};
use moco::cli::project::{projects_in_category_like, projects_labelled_like};
use moco::cli::project::tagged_tasks;
use moco::cli::project::project_info_git;
use moco::cli::project::named_or_current;
use moco::db::store::MemStore;
use moco::git::GitInfo;

fn with_category(name: &str, path: &str, category: Option<&str>) -> Project {
    let mut p = Project::new(name, path);
    p.category = category.map(str::to_owned);
    p
}

#[test]
fn project_groups_follow_categories_with_uncategorized_last() {
    let projects = vec![
        with_category("beta", "/b", None),
        with_category("alpha", "/a", Some("work")),
        with_category("gamma", "/c", Some("home")),
    ];
    let categories = vec![Category::new("home", 1), Category::new("work", 2), Category::new("empty", 3)];
    let groups = group_projects(&projects, &categories);
    let headers: Vec<&str> = groups.iter().map(|g| g.0.as_str()).collect();
    assert_eq!(headers, vec!["home", "work", "Uncategorized"]);
    assert_eq!(groups[1].1[0].name, "alpha");
    assert_eq!(groups[2].1[0].name, "beta");
}

#[test]
fn last_active_formats() {
    assert_eq!(format_last_active(0), "never");
    assert_eq!(format_last_active(1_700_000_000_000_000), "14-11-2023");
}

#[test]
fn task_count_summary() {
    let mut done = Task::new(None, "d", 0, None);
    done.status = TaskStatus::Complete;
    done.completed_index = Some(1);
    let tasks = vec![Task::new(None, "a", 1, None), Task::new(None, "b", 2, None), done];
    let (o, c, d) = status_counts(&tasks);
    assert_eq!((o, c, d), (2, 1, 0));
    assert_eq!(count_summary(o, c, d), vec!["2 open".to_string(), "1 complete".to_string()]);
}

#[test]
fn projects_by_name() {
    let projects = vec![Project::new("MyProj", "/a"), Project::new("other", "/b")];
    assert_eq!(find_project_by_name(&projects, "myproj").unwrap().path, "/a");
    assert!(find_project_by_name(&projects, "ghost").is_none());
    assert_eq!(resolve_named_project(&projects, "MYPROJ").unwrap().path, "/a");
    assert_eq!(resolve_named_project(&projects, "ghost").unwrap_err(), "No project named 'ghost' found.");
    let twins = vec![Project::new("x", "/a"), Project::new("X", "/b")];
    assert_eq!(
        resolve_named_project(&twins, "x").unwrap_err(),
        "Multiple projects named 'x' found. Rename them to disambiguate."
    );
}

#[test]
fn category_command_checks() {
    assert!(check_reorder_position(1, 3).is_ok());
    assert_eq!(
        check_reorder_position(4, 3).unwrap_err(),
        "Position 4 is out of range. Valid positions are 1–3."
    );
    assert!(check_reorder_position(0, 3).is_err());
    assert!(check_category_removal("work", 2, true).is_ok());
    assert!(check_category_removal("work", 0, false).is_ok());
    assert_eq!(
        check_category_removal("work", 2, false).unwrap_err(),
        "2 project(s) are assigned to category 'work'. Use --force to remove the category and un-assign them."
    );
}

#[test]
fn relocation_decisions() {
    let p = Project::new("p", "/a");
    let q = Project::new("q", "/b");
    assert_eq!(relocation(Some(&q), &p), Relocation::Conflict);
    assert_eq!(relocation(Some(&p), &p), Relocation::AlreadyThere);
    assert_eq!(relocation(None, &p), Relocation::Move);
}

#[test]
fn project_filters_ignore_case() {
    let mut a = with_category("a", "/a", Some("Work"));
    a.labels.push("Urgent".to_string());
    let b = with_category("b", "/b", Some("home"));
    let projects = vec![a, b];
    let l = projects_labelled_like(&projects, "URGENT");
    assert_eq!(l.len(), 1);
    assert_eq!(l[0].name, "a");
    let c = projects_in_category_like(&projects, "work");
    assert_eq!(c.len(), 1);
    assert_eq!(c[0].name, "a");
    assert!(projects_in_category_like(&projects, "none").is_empty());
}

#[test]
fn tagged_tasks_keep_only_tagged() {
    let mut t = Task::new(None, "t", 1, None);
    t.tags.push("x".to_string());
    let tasks = vec![Task::new(None, "u", 2, None), t];
    let tagged = tagged_tasks(&tasks);
    assert_eq!(tagged.len(), 1);
    assert_eq!(tagged[0].content, "t");
}

#[test]
fn project_info_git_lines() {
    let live = Some(GitInfo {
        branch: Some("main".to_string()),
        remote_url: Some("u".to_string()),
        remote_name: Some("origin".to_string()),
    });
    let g = project_info_git(&live, &None);
    assert_eq!(g.branch.as_deref(), Some("main"));
    assert!(g.on_branch);
    assert_eq!(g.remote.as_deref(), Some("u (origin)"));
    assert_eq!(g.cache.as_deref(), Some("u"));
    let same = project_info_git(&live, &Some("u".to_string()));
    assert!(same.cache.is_none());
    let detached = Some(GitInfo { branch: None, remote_url: None, remote_name: None });
    let d = project_info_git(&detached, &Some("c".to_string()));
    assert_eq!(d.branch.as_deref(), Some("(detached HEAD)"));
    assert!(!d.on_branch);
    assert_eq!(d.remote.as_deref(), Some("c (cached)"));
    let none = project_info_git(&None, &Some("c".to_string()));
    assert_eq!(none.branch.as_deref(), Some("(no local repo)"));
    assert_eq!(none.remote.as_deref(), Some("c (cached)"));
    let nothing = project_info_git(&None, &None);
    assert!(nothing.branch.is_none() && nothing.remote.is_none());
}

const INFO_MISSING: &str =
    "No project found for the current directory. Run `moco project init <name>` to register one.";
const SYNC_MISSING: &str = "No project found for the current directory. Use --name to specify one.";

fn store_with_myproj() -> MemStore {
    let mut store = MemStore::new();
    store.create_project("myproj", "/tmp/ws/myproj");
    store
}

#[test]
fn info_errors_when_not_in_project_and_no_name() {
    let store = MemStore::new();
    let result = named_or_current(&store.list_projects(), None, "/tmp/ws", INFO_MISSING);
    assert!(result.is_err());
    assert!(result.unwrap_err().contains("No project found"));
}

#[test]
fn info_errors_for_unknown_name() {
    let store = MemStore::new();
    let result = named_or_current(&store.list_projects(), Some("nonexistent"), "/tmp/ws", INFO_MISSING);
    assert!(result.is_err());
    assert!(result.unwrap_err().contains("No project named"));
}

#[test]
fn info_shows_project_by_name() {
    let store = store_with_myproj();
    let p = named_or_current(&store.list_projects(), Some("myproj"), "/tmp/ws", INFO_MISSING).unwrap();
    assert_eq!(p.path, "/tmp/ws/myproj");
}

#[test]
fn info_shows_project_by_cwd() {
    let store = store_with_myproj();
    let p = named_or_current(&store.list_projects(), None, "/tmp/ws/myproj", INFO_MISSING).unwrap();
    assert_eq!(p.name, "myproj");
}

#[test]
fn disable_sync_for_project_by_cwd() {
    let mut store = store_with_myproj();
    let mut p = named_or_current(&store.list_projects(), None, "/tmp/ws/myproj", SYNC_MISSING).unwrap();
    p.git_sync_enabled = false;
    store.update_project(&p);
    let p = store.get_project_by_path("/tmp/ws/myproj").unwrap();
    assert!(!p.git_sync_enabled);
}

#[test]
fn enable_sync_for_project_by_name() {
    let mut store = store_with_myproj();
    let mut p = store.get_project_by_path("/tmp/ws/myproj").unwrap();
    p.git_sync_enabled = false;
    store.update_project(&p);

    let mut target = named_or_current(&store.list_projects(), Some("myproj"), "/tmp/ws", SYNC_MISSING).unwrap();
    target.git_sync_enabled = true;
    store.update_project(&target);
    let updated = store.get_project_by_path("/tmp/ws/myproj").unwrap();
    assert!(updated.git_sync_enabled);
}

#[test]
fn errors_for_unknown_project_name() {
    let store = store_with_myproj();
    let result = named_or_current(&store.list_projects(), Some("ghost"), "/tmp/ws", SYNC_MISSING);
    assert!(result.is_err());
    assert!(result.unwrap_err().contains("No project named"));
}

#[test]
fn errors_when_not_in_project_and_no_name() {
    let store = store_with_myproj();
    let result = named_or_current(&store.list_projects(), None, "/tmp/ws", SYNC_MISSING);
    assert_eq!(result.unwrap_err(), SYNC_MISSING);
}

#[test]
fn named_project_lookup_ignores_ascii_case() {
    let store = store_with_myproj();
    let p = named_or_current(&store.list_projects(), Some("MyProj"), "/", SYNC_MISSING).unwrap();
    assert_eq!(p.path, "/tmp/ws/myproj");
    assert_eq!(
        named_or_current(&store.list_projects(), Some("ghost"), "/", SYNC_MISSING).unwrap_err(),
        "No project named 'ghost'."
    );
}

#[test]
fn info_formats_creation_time_and_id() {
    assert_eq!(moco::time::format_created(1_700_000_000_000_000), "2023-11-14 22:13 UTC");
    assert_eq!(
        moco::ident::id_text(0x67e55044_10b1_426f_9247_bb680e5fe0c8),
        "67e55044-10b1-426f-9247-bb680e5fe0c8"
    );
}
