use moco::models::category::Category;
use moco::models::note::Note;
use moco::models::project::Project;
use moco::models::task::{Task, TaskStatus};

fn make_task(status: TaskStatus, display_index: u32) -> Task {
    let mut t = Task::new(None, "test task", display_index, None);
    t.status = status;
    t
}

#[test]
fn new_task_is_open_with_zero_progress() {
    let t = Task::new(None, "do something", 1, None);
    assert_eq!(t.status, TaskStatus::Open);
    assert_eq!(t.progress, 0);
    assert_eq!(t.display_index, 1);
}

#[test]
fn new_task_has_fresh_v4_ids_and_equal_timestamps() {
    let a = Task::new(None, "a", 1, None);
    let b = Task::new(None, "b", 2, None);
    assert_ne!(a.id, b.id);
    assert_eq!((a.id >> 76) & 0xf, 4);
    assert_eq!(a.created_at, a.updated_at);
    assert!(a.tags.is_empty());
}

#[test]
fn display_id_open() {
    let t = make_task(TaskStatus::Open, 3);
    assert_eq!(t.display_id(), "#3");
}

#[test]
fn display_id_complete() {
    let mut t = make_task(TaskStatus::Complete, 0);
    t.completed_index = Some(2);
    assert_eq!(t.display_id(), "C#2");
}

#[test]
fn display_id_defer() {
    let mut t = make_task(TaskStatus::Defer, 0);
    t.deferred_index = Some(1);
    assert_eq!(t.display_id(), "D#1");
}

#[test]
fn display_id_in_context_top_level_delegates_to_display_id() {
    let t = make_task(TaskStatus::Open, 5);
    assert_eq!(t.display_id_in_context(None), "#5");
}

#[test]
fn display_id_in_context_open_subtask_of_open_parent() {
    let parent = make_task(TaskStatus::Open, 2);
    let mut child = Task::new(None, "sub", 0, Some(parent.id));
    child.sub_index = Some(1);
    assert_eq!(child.display_id_in_context(Some(&parent)), "S#2.1");
}

#[test]
fn display_id_in_context_completed_subtask_of_open_parent() {
    let parent = make_task(TaskStatus::Open, 1);
    let mut child = Task::new(None, "sub", 0, Some(parent.id));
    child.sub_index = Some(1);
    child.status = TaskStatus::Complete;
    child.completed_index = Some(1);
    assert_eq!(child.display_id_in_context(Some(&parent)), "CS#1.1");
}

#[test]
fn display_id_in_context_subtask_of_completed_parent() {
    let mut parent = make_task(TaskStatus::Complete, 0);
    parent.completed_index = Some(3);
    let mut child = Task::new(None, "sub", 0, Some(parent.id));
    child.sub_index = Some(2);
    assert_eq!(child.display_id_in_context(Some(&parent)), "S#C3.2");
}

#[test]
fn display_id_in_context_no_parent_shows_placeholder() {
    let mut child = Task::new(None, "sub", 0, Some(uuid::Uuid::new_v4().as_u128()));
    child.sub_index = Some(1);
    assert_eq!(child.display_id_in_context(None), "S#?.1");
}

#[test]
fn status_names() {
    assert_eq!(TaskStatus::Open.to_string(), "open");
    assert_eq!(TaskStatus::Complete.to_string(), "complete");
    assert_eq!(TaskStatus::Defer.to_string(), "defer");
}

#[test]
fn new_note_has_unique_ids() {
    let n1 = Note::new(None, "first", "", 1);
    let n2 = Note::new(None, "second", "", 2);
    assert_ne!(n1.id, n2.id);
}

#[test]
fn display_id_uses_n_prefix() {
    let n = Note::new(None, "my note", "", 3);
    assert_eq!(n.display_id(), "N#3");
}

#[test]
fn new_note_stores_title_and_content() {
    let n = Note::new(None, "My idea", "Some details", 1);
    assert_eq!(n.title, "My idea");
    assert_eq!(n.content, "Some details");
}

#[test]
fn new_project_has_unique_ids() {
    let p1 = Project::new("alpha", "/tmp/alpha");
    let p2 = Project::new("beta", "/tmp/beta");
    assert_ne!(p1.id, p2.id);
}

#[test]
fn new_project_stores_name_and_path() {
    let path = "/home/user/myproject";
    let p = Project::new("myproject", path);
    assert_eq!(p.name, "myproject");
    assert_eq!(p.path, path);
}

#[test]
fn new_project_git_remote_is_none() {
    let p = Project::new("test", "/tmp/test");
    assert!(p.git_remote.is_none());
}

#[test]
fn new_category_has_unique_ids() {
    let c1 = Category::new("work", 1);
    let c2 = Category::new("personal", 2);
    assert_ne!(c1.id, c2.id);
}

#[test]
fn new_category_stores_name_and_order() {
    let c = Category::new("work", 3);
    assert_eq!(c.name, "work");
    assert_eq!(c.order, 3);
}
