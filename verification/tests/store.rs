use moco::db::store::MemStore;
use moco::cli::status::StatusValue;
use moco::models::task::{Task, TaskStatus};

fn now() -> i64 {
    chrono::Utc::now().timestamp_micros()
}

#[test]
fn create_and_retrieve_project() {
    let mut store = MemStore::new();
    let path = "/tmp/myproject";
    let p = store.create_project("myproject", path);
    assert_eq!(p.name, "myproject");

    let retrieved = store.get_project_by_path(path).unwrap();
    assert_eq!(retrieved.id, p.id);
    assert_eq!(retrieved.name, "myproject");
}

#[test]
fn get_project_by_path_missing_returns_none() {
    let store = MemStore::new();
    assert!(store.get_project_by_path("/nonexistent").is_none());
}

#[test]
fn list_projects_returns_all() {
    let mut store = MemStore::new();
    store.create_project("a", "/tmp/a");
    store.create_project("b", "/tmp/b");
    assert_eq!(store.list_projects().len(), 2);
}

#[test]
fn create_project_at_registered_path_replaces_it() {
    let mut store = MemStore::new();
    store.create_project("a", "/tmp/a");
    let again = store.create_project("a2", "/tmp/a");
    assert_eq!(store.list_projects().len(), 1);
    assert_eq!(store.get_project_by_path("/tmp/a").unwrap().id, again.id);
}

#[test]
fn add_task_assigns_sequential_indices() {
    let mut store = MemStore::new();
    let t1 = store.add_task(None, "first", None, now());
    let t2 = store.add_task(None, "second", None, now());
    assert_eq!(t1.display_index, 1);
    assert_eq!(t2.display_index, 2);
}

#[test]
fn list_tasks_ordered_by_display_index() {
    let mut store = MemStore::new();
    store.add_task(None, "one", None, now());
    store.add_task(None, "two", None, now());
    store.add_task(None, "three", None, now());
    let tasks = store.list_tasks(None);
    let indices: Vec<u32> = tasks.iter().map(|t| t.display_index).collect();
    assert_eq!(indices, vec![1, 2, 3]);
}

#[test]
fn get_open_task_by_display_index() {
    let mut store = MemStore::new();
    let added = store.add_task(None, "my task", None, now());
    let found = store.get_open_task(None, added.display_index);
    assert!(found.is_some());
    assert_eq!(found.unwrap().id, added.id);
}

#[test]
fn update_task_persists_changes() {
    let mut store = MemStore::new();
    let mut task = store.add_task(None, "initial", None, now());
    task.content = "updated".to_string();
    store.update_task(&task, now());
    let tasks = store.list_tasks(None);
    assert_eq!(tasks[0].content, "updated");
}

#[test]
fn reindex_open_tasks_fills_gaps() {
    let mut store = MemStore::new();
    let _t1 = store.add_task(None, "one", None, now());
    let mut t2 = store.add_task(None, "two", None, now());
    let _t3 = store.add_task(None, "three", None, now());

    t2.status = TaskStatus::Complete;
    t2.completed_index = Some(1);
    t2.display_index = 0;
    store.update_task(&t2, now());

    store.reindex_open_tasks(None, now());

    let open: Vec<Task> = store
        .list_tasks(None)
        .into_iter()
        .filter(|t| t.status == TaskStatus::Open)
        .collect();
    let indices: Vec<u32> = open.iter().map(|t| t.display_index).collect();
    assert_eq!(indices, vec![1, 2]);
    assert_eq!(open[1].content, "three");
}

#[test]
fn tasks_are_scoped_to_project() {
    let mut store = MemStore::new();
    let project_id = uuid::Uuid::new_v4().as_u128();
    store.add_task(Some(project_id), "project task", None, now());
    store.add_task(None, "global task", None, now());

    let project_tasks = store.list_tasks(Some(project_id));
    let global_tasks = store.list_tasks(None);

    assert_eq!(project_tasks.len(), 1);
    assert_eq!(global_tasks.len(), 1);
    assert_eq!(project_tasks[0].content, "project task");
    assert_eq!(global_tasks[0].content, "global task");
}

#[test]
fn next_completed_index_increments() {
    let mut store = MemStore::new();
    assert_eq!(store.next_completed_index(None), 1);
    let mut t = store.add_task(None, "done", None, now());
    t.status = TaskStatus::Complete;
    t.completed_index = Some(1);
    store.update_task(&t, now());
    assert_eq!(store.next_completed_index(None), 2);
}

#[test]
fn next_deferred_index_increments() {
    let mut store = MemStore::new();
    assert_eq!(store.next_deferred_index(None), 1);
    let mut t = store.add_task(None, "deferred", None, now());
    t.status = TaskStatus::Defer;
    t.deferred_index = Some(1);
    store.update_task(&t, now());
    assert_eq!(store.next_deferred_index(None), 2);
}

#[test]
fn touch_project_updates_last_active_and_list_sorts_by_recency() {
    let mut store = MemStore::new();
    let p1 = store.create_project("first", "/tmp/p1");
    let p2 = store.create_project("second", "/tmp/p2");
    store.touch_project(p1.id, p2.last_active + 10_000);
    let projects = store.list_projects();
    assert_eq!(projects[0].name, "first");
    assert_eq!(projects[1].name, "second");
    assert!(projects[0].last_active > projects[1].last_active);
}

#[test]
fn never_active_project_is_listed_last() {
    let mut store = MemStore::new();
    let mut old = store.create_project("old", "/tmp/old");
    store.create_project("fresh", "/tmp/fresh");
    store.create_project("other", "/tmp/other");
    old.last_active = 0;
    store.update_project(&old);
    let projects = store.list_projects();
    assert_eq!(projects.len(), 3);
    assert_eq!(projects[2].name, "old");
}

#[test]
fn touch_project_noop_for_unknown_id() {
    let mut store = MemStore::new();
    let p = store.create_project("a", "/tmp/a");
    store.touch_project(uuid::Uuid::new_v4().as_u128(), 5);
    assert_eq!(store.get_project_by_path("/tmp/a").unwrap().last_active, p.last_active);
}

#[test]
fn relocate_project_moves_path_and_preserves_tasks() {
    let mut store = MemStore::new();
    let old_path = "/tmp/old_home";
    let new_path = "/tmp/new_home";
    let project = store.create_project("mover", old_path);
    store.add_task(Some(project.id), "task A", None, now());

    let mut moved = project.clone();
    moved.path = new_path.to_string();
    store.relocate_project(old_path, &moved);

    assert!(store.get_project_by_path(old_path).is_none());
    let found = store.get_project_by_path(new_path).unwrap();
    assert_eq!(found.name, "mover");
    assert_eq!(store.list_projects().len(), 1);
    let tasks = store.list_tasks(Some(project.id));
    assert_eq!(tasks.len(), 1);
    assert_eq!(tasks[0].content, "task A");
}

#[test]
fn delete_project_removes_project_and_tasks() {
    let mut store = MemStore::new();
    let path = "/tmp/todelete";
    let project = store.create_project("todelete", path);
    store.add_task(Some(project.id), "task one", None, now());
    store.add_task(Some(project.id), "task two", None, now());
    store.add_note(Some(project.id), "note", "");

    store.delete_project(&project);

    assert!(store.get_project_by_path(path).is_none());
    assert!(store.list_tasks(Some(project.id)).is_empty());
    assert!(store.list_notes(Some(project.id)).is_empty());
}

#[test]
fn delete_project_does_not_affect_other_projects() {
    let mut store = MemStore::new();
    let p1 = store.create_project("one", "/tmp/one");
    let p2 = store.create_project("two", "/tmp/two");
    store.add_task(Some(p1.id), "p1 task", None, now());
    store.add_task(Some(p2.id), "p2 task", None, now());

    store.delete_project(&p1);

    assert!(store.get_project_by_path("/tmp/one").is_none());
    assert!(store.get_project_by_path("/tmp/two").is_some());
    assert!(store.list_tasks(Some(p1.id)).is_empty());
    assert_eq!(store.list_tasks(Some(p2.id)).len(), 1);
}

#[test]
fn add_task_touches_its_project() {
    let mut store = MemStore::new();
    let p = store.create_project("one", "/tmp/one");
    store.add_task(Some(p.id), "t", None, p.last_active + 1);
    assert_eq!(store.get_project_by_path("/tmp/one").unwrap().last_active, p.last_active + 1);
}

#[test]
fn subtasks_take_sub_indices_and_leave_top_level_sequence() {
    let mut store = MemStore::new();
    let parent = store.add_task(None, "Parent", None, now());
    let s1 = store.add_task(None, "Sub one", Some(parent.id), now());
    let s2 = store.add_task(None, "Sub two", Some(parent.id), now());
    let next = store.add_task(None, "Next", None, now());
    assert_eq!((s1.display_index, s1.sub_index), (0, Some(1)));
    assert_eq!((s2.display_index, s2.sub_index), (0, Some(2)));
    assert_eq!(next.display_index, 2);
    assert_eq!(store.get_task_by_id(s2.id).unwrap().content, "Sub two");
}

#[test]
fn delete_task_removes_its_subtasks() {
    let mut store = MemStore::new();
    let parent = store.add_task(None, "Parent", None, now());
    store.add_task(None, "Sub", Some(parent.id), now());
    let other = store.add_task(None, "Other", None, now());
    store.delete_task(parent.id);
    let left = store.list_tasks(None);
    assert_eq!(left.len(), 1);
    assert_eq!(left[0].id, other.id);
}

#[test]
fn tasks_by_label_and_tag() {
    let mut store = MemStore::new();
    let mut p = store.create_project("lab", "/tmp/lab");
    p.labels.push("work".to_string());
    store.update_project(&p);
    store.create_project("other", "/tmp/other");
    let mut t = store.add_task(Some(p.id), "tagged", None, now());
    store.add_task(Some(p.id), "plain", None, now());
    t.tags.push("urgent".to_string());
    store.update_task(&t, now());
    let by_label = store.list_tasks_by_label(&"work".to_string());
    assert_eq!(by_label.len(), 1);
    assert_eq!(by_label[0].0.name, "lab");
    assert_eq!(by_label[0].1.len(), 2);
    let by_tag = store.list_tasks_by_tag(Some(p.id), &"urgent".to_string());
    assert_eq!(by_tag.len(), 1);
    assert_eq!(by_tag[0].content, "tagged");
}

#[test]
fn notes_get_sequential_indices_and_can_be_deleted() {
    let mut store = MemStore::new();
    let n1 = store.add_note(None, "first", "");
    let mut n2 = store.add_note(None, "second", "body");
    assert_eq!((n1.display_index, n2.display_index), (1, 2));
    assert_eq!(store.next_note_display_index(None), 3);
    n2.content = "changed".to_string();
    store.update_note(&n2);
    assert_eq!(store.get_note(None, 2).unwrap().content, "changed");
    store.delete_note(n1.id);
    let notes = store.list_notes(None);
    assert_eq!(notes.len(), 1);
    assert_eq!(notes[0].title, "second");
    assert!(store.get_note(None, 1).is_none());
}

#[test]
fn categories_are_ordered_reordered_and_removed() {
    let mut store = MemStore::new();
    let work = store.create_category("work");
    store.create_category("home");
    store.create_category("misc");
    assert_eq!(work.order, 1);
    store.reorder_category("misc", 1);
    let names: Vec<String> = store.list_categories().into_iter().map(|c| c.name).collect();
    assert_eq!(names, vec!["misc", "work", "home"]);
    let orders: Vec<u32> = store.list_categories().into_iter().map(|c| c.order).collect();
    assert_eq!(orders, vec![1, 2, 3]);

    let mut p = store.create_project("alpha", "/tmp/alpha");
    p.category = Some("work".to_string());
    store.update_project(&p);
    store.delete_category("work");
    assert!(store.get_category("work").is_none());
    assert!(store.get_project_by_path("/tmp/alpha").unwrap().category.is_none());
}

#[test]
fn status_reindexes_after_complete() {
    let mut store = MemStore::new();
    let p = store.create_project("proj", "/tmp/proj");
    store.add_task(Some(p.id), "Task one", None, now());
    let two = store.add_task(Some(p.id), "Task two", None, now());
    store.add_task(Some(p.id), "Task three", None, now());

    let (done, outcome) = store.set_status(Some(p.id), &two, StatusValue::Complete, now());
    assert!(outcome.changed && outcome.reindex);
    assert_eq!(done.status, TaskStatus::Complete);
    assert_eq!(done.completed_index, Some(1));

    let open = store.list_tasks(Some(p.id));
    let open: Vec<(u32, String)> = open
        .into_iter()
        .filter(|t| t.status == TaskStatus::Open)
        .map(|t| (t.display_index, t.content))
        .collect();
    assert_eq!(open, vec![(1, "Task one".to_string()), (2, "Task three".to_string())]);
}

#[test]
fn status_open_on_open_task_changes_nothing() {
    let mut store = MemStore::new();
    let t = store.add_task(None, "Only", None, now());
    let (same, outcome) = store.set_status(None, &t, StatusValue::Open, now());
    assert!(!outcome.changed && !outcome.reindex);
    assert_eq!(same.display_index, 1);
    assert_eq!(store.list_tasks(None)[0].status, TaskStatus::Open);
}
