use moco::cli::content::{
    append_note_content, append_task_content, compose_edited_content, compose_note,
    compose_task_content, confirms, confirms_removal, split_title_body,
};
use moco::cli::export::{render_export, render_markdown, sanitize_filename};
use moco::db::store::MemStore;
use moco::cli::labels::{add_item, remove_item};
use moco::cli::list::{progress_bar, render_task_listing, scope_label};
use moco::cli::status::{apply_status, parse_status_value, StatusValue};
use moco::cli::task_ref::{parse, resolve, TaskRef};
use moco::error::MocoError;
use moco::models::project::Project;
use moco::models::task::{Task, TaskStatus};
use moco::text::count_phrase;
use moco::cli::content::trim_text;
use moco::cli::export::export_file_name;

fn open_task(content: &str, index: u32) -> Task {
    Task::new(None, content, index, None)
}

fn completed_task(content: &str, completed_index: u32) -> Task {
    let mut t = Task::new(None, content, 0, None);
    t.status = TaskStatus::Complete;
    t.completed_index = Some(completed_index);
    t
}

fn deferred_task(content: &str, deferred_index: u32) -> Task {
    let mut t = Task::new(None, content, 0, None);
    t.status = TaskStatus::Defer;
    t.deferred_index = Some(deferred_index);
    t
}

// ── export ──────────────────────────────────────────────────────────────────

#[test]
fn render_markdown_has_title() {
    let md = render_markdown("My Project", &vec![]);
    assert!(md.starts_with("# My Project\n"));
}

#[test]
fn render_markdown_open_section() {
    let tasks = vec![open_task("Fix the bug", 1)];
    let md = render_markdown("Proj", &tasks);
    assert!(md.contains("## Open"));
    assert!(md.contains("[ ]"));
    assert!(md.contains("Fix the bug"));
}

#[test]
fn render_markdown_completed_section() {
    let tasks = vec![completed_task("Done task", 1)];
    let md = render_markdown("Proj", &tasks);
    assert!(md.contains("## Completed"));
    assert!(md.contains("[x]"));
}

#[test]
fn render_markdown_deferred_section() {
    let tasks = vec![deferred_task("Later task", 1)];
    let md = render_markdown("Proj", &tasks);
    assert!(md.contains("## Deferred"));
    assert!(md.contains("[-]"));
}

#[test]
fn render_markdown_subtask_indented() {
    let parent = open_task("Parent", 1);
    let mut child = Task::new(None, "Child", 2, None);
    child.parent_id = Some(parent.id);
    let tasks = vec![parent.clone(), child];
    let md = render_markdown("Proj", &tasks);
    assert!(md.contains("  - "));
    assert!(md.contains("Child"));
}

#[test]
fn render_markdown_exact_document() {
    let mut t = open_task("Title line\nbody one\n\nbody two", 1);
    t.progress = 40;
    let md = render_markdown("P", &vec![t]);
    assert_eq!(
        md,
        "# P\n\n## Open\n\n- [ ] #1 Title line (40%)\n  > body one\n  > body two\n\n"
    );
}

#[test]
fn export_includes_notes_section() {
    let mut store = MemStore::new();
    let project = store.create_project("myproj", "/tmp/ws");
    store.add_task(Some(project.id), "A task", None, 1);
    store.add_note(Some(project.id), "Design decisions", "Some important notes here");
    let content = render_export(
        &project.name,
        &store.list_tasks(Some(project.id)),
        &store.list_notes(Some(project.id)),
    );
    assert!(content.contains("## Notes"), "should have Notes section");
    assert!(content.contains("N#1"), "should have note ID");
    assert!(content.contains("Design decisions"), "should have note title");
    assert_eq!(
        content,
        "# myproj\n\n## Open\n\n- [ ] #1 A task (0%)\n\n## Notes\n\n- N#1 Design decisions\n  > Some important notes here\n\n"
    );
}

#[test]
fn export_without_notes_is_the_task_document() {
    let t = open_task("Only", 1);
    let tasks = vec![t];
    assert_eq!(render_export("P", &tasks, &Vec::new()), render_markdown("P", &tasks));
}

#[test]
fn export_shows_subtask_ids_in_parent_context() {
    let parent = open_task("Parent", 3);
    let mut child = Task::new(None, "Child", 0, Some(parent.id));
    child.sub_index = Some(2);
    let md = render_markdown("P", &vec![parent, child]);
    assert_eq!(md, "# P\n\n## Open\n\n- [ ] #3 Parent (0%)\n  - [ ] S#3.2 Child (0%)\n\n");
}

#[test]
fn sanitize_filename_replaces_spaces() {
    assert_eq!(sanitize_filename("my project"), "my-project");
}

#[test]
fn sanitize_filename_keeps_alphanumeric() {
    assert_eq!(sanitize_filename("my-proj_1"), "my-proj_1");
}

#[test]
fn sanitize_filename_replaces_punctuation_and_keeps_unicode_letters() {
    assert_eq!(sanitize_filename("a/b.c é"), "a-b-c-é");
}

// ── list ────────────────────────────────────────────────────────────────────

#[test]
fn progress_bar_empty() {
    let bar = progress_bar(0, 10);
    assert_eq!(bar, "[░░░░░░░░░░]");
}

#[test]
fn progress_bar_full() {
    let bar = progress_bar(100, 10);
    assert_eq!(bar, "[██████████]");
}

#[test]
fn progress_bar_half() {
    let bar = progress_bar(50, 10);
    assert_eq!(bar, "[█████░░░░░]");
}

#[test]
fn progress_bar_rounds_down() {
    assert_eq!(progress_bar(19, 10), "[█░░░░░░░░░]");
}

#[test]
fn listing_of_empty_scope() {
    assert_eq!(render_task_listing("global", &vec![]), "No tasks for global.\n");
}

#[test]
fn listing_shows_sections_and_subtasks() {
    let parent = open_task("Parent", 1);
    let mut child = Task::new(None, "Child", 0, Some(parent.id));
    child.sub_index = Some(1);
    let done = completed_task("Done", 1);
    let out = render_task_listing("project 'p'", &vec![parent.clone(), child, done]);
    let rule = "─".repeat(60);
    let expected = format!(
        "Tasks for project 'p':\n\nOpen\n{rule}\n     #1  [░░░░░░░░░░░░░░░░░░░░]  Parent\n        └─ S#1.1  [░░░░░░░░░░░░░░░░░░░░]  Child\n\nCompleted\n{rule}\n    C#1  [░░░░░░░░░░░░░░░░░░░░]  Done\n\n"
    );
    assert_eq!(out, expected);
}

#[test]
fn listing_truncates_long_first_line() {
    let t = open_task(&"x".repeat(60), 1);
    let out = render_task_listing("global", &vec![t]);
    assert!(out.contains(&format!("{}…", "x".repeat(50))));
}

#[test]
fn scope_label_names_project_or_global() {
    let p = Project::new("proj", "/tmp/proj");
    assert_eq!(scope_label(Some(&p)), "project 'proj'");
    assert_eq!(scope_label(None), "global");
}

// ── status ──────────────────────────────────────────────────────────────────

#[test]
fn parse_complete_variants() {
    assert!(matches!(parse_status_value("complete").unwrap(), StatusValue::Complete));
    assert!(matches!(parse_status_value("done").unwrap(), StatusValue::Complete));
    assert!(matches!(parse_status_value("100").unwrap(), StatusValue::Complete));
}

#[test]
fn parse_defer_variants() {
    assert!(matches!(parse_status_value("defer").unwrap(), StatusValue::Defer));
    assert!(matches!(parse_status_value("deferred").unwrap(), StatusValue::Defer));
}

#[test]
fn parse_open_variants() {
    assert!(matches!(parse_status_value("open").unwrap(), StatusValue::Open));
    assert!(matches!(parse_status_value("reopen").unwrap(), StatusValue::Open));
}

#[test]
fn parse_progress_values() {
    assert!(matches!(parse_status_value("0").unwrap(), StatusValue::Progress(0)));
    assert!(matches!(parse_status_value("50").unwrap(), StatusValue::Progress(50)));
    assert!(matches!(parse_status_value("99").unwrap(), StatusValue::Progress(99)));
}

#[test]
fn parse_invalid_value_errors() {
    assert!(parse_status_value("blah").is_err());
    assert!(parse_status_value("101").is_err());
    assert!(parse_status_value("-1").is_err());
}

#[test]
fn parse_status_value_is_case_insensitive_and_reports_raw_text() {
    assert!(matches!(parse_status_value("DONE").unwrap(), StatusValue::Complete));
    assert!(matches!(parse_status_value("+7").unwrap(), StatusValue::Progress(7)));
    match parse_status_value("256") {
        Err(MocoError::InvalidStatus(s)) => assert_eq!(s, "256"),
        _ => panic!("expected InvalidStatus"),
    }
}

#[test]
fn invalid_status_message() {
    let e = MocoError::InvalidStatus("x".to_string());
    assert_eq!(e.message(), "invalid status value 'x': expected 0–100, 'complete', or 'defer'");
}

#[test]
fn complete_then_reopen_task() {
    let mut t = open_task("work", 2);
    let scope = vec![open_task("a", 1), t.clone()];
    let out = apply_status(&mut t, StatusValue::Complete, &scope, 7);
    assert!(out.changed);
    assert!(out.reindex);
    assert_eq!(t.status, TaskStatus::Complete);
    assert_eq!(t.completed_index, Some(1));
    assert_eq!(t.display_index, 0);
    assert_eq!(t.progress, 100);
    let scope2 = vec![open_task("a", 1)];
    let out2 = apply_status(&mut t, StatusValue::Open, &scope2, 8);
    assert!(out2.changed);
    assert!(!out2.reindex);
    assert_eq!(t.status, TaskStatus::Open);
    assert_eq!(t.display_index, 2);
    assert_eq!(t.completed_index, None);
    let out3 = apply_status(&mut t, StatusValue::Open, &scope2, 9);
    assert!(!out3.changed);
}

// ── task references ─────────────────────────────────────────────────────────

#[test]
fn parse_open_top_level() {
    assert_eq!(parse("1").unwrap(), TaskRef::Open(1));
    assert_eq!(parse("42").unwrap(), TaskRef::Open(42));
}

#[test]
fn parse_open_subtask() {
    assert_eq!(parse("1.1").unwrap(), TaskRef::OpenSub(1, 1));
    assert_eq!(parse("3.2").unwrap(), TaskRef::OpenSub(3, 2));
}

#[test]
fn parse_completed_top_level() {
    assert_eq!(parse("C1").unwrap(), TaskRef::Completed(1));
    assert_eq!(parse("c5").unwrap(), TaskRef::Completed(5));
}

#[test]
fn parse_completed_subtask() {
    assert_eq!(parse("C1.1").unwrap(), TaskRef::CompletedSub(1, 1));
    assert_eq!(parse("c2.3").unwrap(), TaskRef::CompletedSub(2, 3));
}

#[test]
fn parse_deferred_top_level() {
    assert_eq!(parse("D1").unwrap(), TaskRef::Deferred(1));
    assert_eq!(parse("d2").unwrap(), TaskRef::Deferred(2));
}

#[test]
fn parse_deferred_subtask() {
    assert_eq!(parse("D1.2").unwrap(), TaskRef::DeferredSub(1, 2));
}

#[test]
fn parse_prefix_case_does_not_matter() {
    assert_eq!(parse("d2.1").unwrap(), parse("D2.1").unwrap());
    assert_eq!(parse("c7").unwrap(), parse("C7").unwrap());
    assert!(parse("c0").is_err() && parse("C0").is_err());
    assert_eq!(parse("c0").unwrap_err(), "Task index in 'c0' must be ≥ 1.");
}

#[test]
fn parse_zero_index_fails() {
    assert!(parse("0").is_err());
}

#[test]
fn parse_zero_sub_index_fails() {
    assert!(parse("1.0").is_err());
}

#[test]
fn parse_empty_fails() {
    assert!(parse("").is_err());
}

#[test]
fn parse_garbage_fails() {
    assert!(parse("abc").is_err());
    assert!(parse("C").is_err());
}

#[test]
fn parse_error_messages() {
    assert_eq!(parse("").unwrap_err(), "Task reference cannot be empty.");
    assert_eq!(parse("x1").unwrap_err(), "Invalid task reference 'x1'.");
    assert_eq!(parse("1.x").unwrap_err(), "Invalid sub-index in task reference '1.x'.");
    assert_eq!(parse("2.0").unwrap_err(), "Sub-index in '2.0' must be ≥ 1.");
    assert_eq!(parse("C0").unwrap_err(), "Task index in 'C0' must be ≥ 1.");
    assert_eq!(parse("0.1").unwrap(), TaskRef::OpenSub(0, 1));
}

#[test]
fn resolve_finds_referenced_tasks() {
    let parent = open_task("Parent", 1);
    let mut child = Task::new(None, "Child", 0, Some(parent.id));
    child.sub_index = Some(1);
    let done = completed_task("Done", 3);
    let tasks = vec![parent.clone(), child.clone(), done.clone()];
    assert_eq!(resolve(&tasks, &TaskRef::Open(1)).unwrap().id, parent.id);
    assert_eq!(resolve(&tasks, &TaskRef::OpenSub(1, 1)).unwrap().id, child.id);
    assert_eq!(resolve(&tasks, &TaskRef::Completed(3)).unwrap().id, done.id);
    assert!(resolve(&tasks, &TaskRef::Deferred(1)).is_none());
    assert!(resolve(&tasks, &TaskRef::OpenSub(1, 2)).is_none());
}

// ── content editing ─────────────────────────────────────────────────────────

#[test]
fn append_task_content_adds_newline_when_needed() {
    assert_eq!(append_task_content("line", "more"), "line\nmore");
    assert_eq!(append_task_content("line\n", "more"), "line\nmore");
    assert_eq!(append_task_content("", "more"), "more");
}

#[test]
fn append_note_content_joins_with_newline() {
    assert_eq!(append_note_content("", "first"), "first");
    assert_eq!(append_note_content("a", "b"), "a\nb");
}

#[test]
fn compose_task_content_from_form() {
    assert_eq!(compose_task_content("  Title  ", "   "), Some("Title".to_string()));
    assert_eq!(compose_task_content("Title", "body\n\n"), Some("Title\nbody".to_string()));
    assert_eq!(compose_task_content("   ", "body"), None);
}

#[test]
fn compose_note_from_form() {
    assert_eq!(compose_note(" T ", "body  \n"), Some(("T".to_string(), "body".to_string())));
    assert_eq!(compose_note("", "body"), None);
}

#[test]
fn split_and_recompose_content() {
    let (t, b) = split_title_body("  Title \nline 1\nline 2");
    assert_eq!(t, "Title");
    assert_eq!(b, "line 1\nline 2");
    assert_eq!(compose_edited_content(&t, &b), "Title\nline 1\nline 2");
    let (t2, b2) = split_title_body("Only");
    assert_eq!((t2.as_str(), b2.as_str()), ("Only", ""));
    assert_eq!(compose_edited_content("Only", "  "), "Only");
}

#[test]
fn confirmation_answers() {
    assert!(confirms_removal(" Yes\n"));
    assert!(confirms_removal("y"));
    assert!(!confirms_removal("no"));
    assert!(!confirms_removal(""));
    assert!(confirms("Y\n"));
    assert!(!confirms("yes"));
}

#[test]
fn count_phrases() {
    assert_eq!(count_phrase(0, "task"), "no tasks");
    assert_eq!(count_phrase(1, "task"), "1 task");
    assert_eq!(count_phrase(12, "open task"), "12 open tasks");
}

// ── labels and tags ─────────────────────────────────────────────────────────

#[test]
fn label_add_and_remove() {
    let mut labels: Vec<String> = vec!["a".to_string()];
    assert!(add_item(&mut labels, &"b".to_string()));
    assert!(!add_item(&mut labels, &"b".to_string()));
    assert_eq!(labels, vec!["a".to_string(), "b".to_string()]);
    assert!(remove_item(&mut labels, &"a".to_string()));
    assert!(!remove_item(&mut labels, &"a".to_string()));
    assert_eq!(labels, vec!["b".to_string()]);
}

#[test]
fn trims_and_names_export_files() {
    assert_eq!(trim_text("  hi there \n"), "hi there");
    assert_eq!(export_file_name("my project"), "my-project.md");
}
