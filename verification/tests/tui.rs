use moco::models::project::Project;
use moco::models::task::Task;
use moco::tui::browser::{preview, task_row, BrowserOutcome, TaskBrowser};
use moco::tui::form::{
    form_action, initial_body_lines, join_lines, FormAction, FormField, FormOutcome, FormState,
};
use moco::tui::keys::{KeyCode, KeyEvent, KeyModifiers};
use moco::tui::project_browser::{project_row, ProjectBrowser, ProjectBrowserOutcome, ProjectGroup};
use moco::tui::scroll_list::ScrollList;

fn key(code: KeyCode) -> KeyEvent {
    KeyEvent::new(code, KeyModifiers::none())
}

fn ctrl(c: char) -> KeyEvent {
    KeyEvent::new(KeyCode::Char(c), KeyModifiers::control())
}

// ── scroll list ─────────────────────────────────────────────────────────────

#[test]
fn new_with_items_selects_first() {
    let sl = ScrollList::new(3);
    assert_eq!(sl.selected(), Some(0));
}

#[test]
fn new_with_zero_has_no_selection() {
    let sl = ScrollList::new(0);
    assert_eq!(sl.selected(), None);
}

#[test]
fn move_down_advances() {
    let mut sl = ScrollList::new(3);
    sl.move_down();
    assert_eq!(sl.selected(), Some(1));
}

#[test]
fn move_down_wraps() {
    let mut sl = ScrollList::new(3);
    sl.move_down();
    sl.move_down();
    sl.move_down();
    assert_eq!(sl.selected(), Some(0));
}

#[test]
fn move_up_wraps_to_last() {
    let mut sl = ScrollList::new(3);
    sl.move_up();
    assert_eq!(sl.selected(), Some(2));
}

#[test]
fn move_on_empty_is_no_op() {
    let mut sl = ScrollList::new(0);
    sl.move_up();
    sl.move_down();
    assert_eq!(sl.selected(), None);
}

#[test]
fn move_up_then_down_returns() {
    let mut sl = ScrollList::new(4);
    sl.move_down();
    sl.move_up();
    sl.move_down();
    assert_eq!(sl.selected(), Some(1));
    sl.move_up();
    assert_eq!(sl.selected(), Some(0));
}

// ── task browser ────────────────────────────────────────────────────────────

#[test]
fn browser_new_browser_selects_first_item() {
    let b = TaskBrowser::new(3);
    assert_eq!(b.selected(), Some(0));
}

#[test]
fn new_browser_with_zero_tasks_has_no_selection() {
    let b = TaskBrowser::new(0);
    assert_eq!(b.selected(), None);
}

#[test]
fn browser_down_moves_selection() {
    let mut b = TaskBrowser::new(3);
    b.handle_key(key(KeyCode::Down));
    assert_eq!(b.selected(), Some(1));
}

#[test]
fn browser_down_wraps_at_end() {
    let mut b = TaskBrowser::new(3);
    b.handle_key(key(KeyCode::Down));
    b.handle_key(key(KeyCode::Down));
    b.handle_key(key(KeyCode::Down));
    assert_eq!(b.selected(), Some(0));
}

#[test]
fn browser_up_wraps_at_start() {
    let mut b = TaskBrowser::new(3);
    b.handle_key(key(KeyCode::Up));
    assert_eq!(b.selected(), Some(2));
}

#[test]
fn browser_enter_returns_selected_index() {
    let mut b = TaskBrowser::new(3);
    b.handle_key(key(KeyCode::Down));
    let outcome = b.handle_key(key(KeyCode::Enter));
    assert!(matches!(outcome, BrowserOutcome::Selected(1)));
}

#[test]
fn browser_esc_returns_cancelled() {
    let mut b = TaskBrowser::new(3);
    let outcome = b.handle_key(key(KeyCode::Esc));
    assert!(matches!(outcome, BrowserOutcome::Cancelled));
}

#[test]
fn browser_ignores_modified_and_other_keys() {
    let mut b = TaskBrowser::new(3);
    assert_eq!(b.handle_key(KeyEvent::new(KeyCode::Down, KeyModifiers::shift())), BrowserOutcome::Continue);
    assert_eq!(b.handle_key(key(KeyCode::Char('j'))), BrowserOutcome::Continue);
    assert_eq!(b.selected(), Some(0));
    let mut empty = TaskBrowser::new(0);
    assert_eq!(empty.handle_key(key(KeyCode::Enter)), BrowserOutcome::Continue);
}

#[test]
fn task_row_texts() {
    let mut t = Task::new(None, "  Write docs  \nmore", 3, None);
    t.progress = 50;
    let row = task_row(&t);
    assert_eq!(row.id, "   #3  ");
    assert_eq!(row.bar, "[█████░░░░░]  ");
    assert_eq!(row.preview, "Write docs");
    assert_eq!(preview(&"é".repeat(30), 40), format!("{}…", "é".repeat(20)));
}

// ── project browser ─────────────────────────────────────────────────────────

#[test]
fn project_browser_new_browser_selects_first_item() {
    let b = ProjectBrowser::new(3);
    assert_eq!(b.selected(), Some(0));
}

#[test]
fn new_browser_with_zero_projects_has_no_selection() {
    let b = ProjectBrowser::new(0);
    assert_eq!(b.selected(), None);
}

#[test]
fn project_browser_down_moves_selection() {
    let mut b = ProjectBrowser::new(3);
    b.handle_key(key(KeyCode::Down));
    assert_eq!(b.selected(), Some(1));
}

#[test]
fn project_browser_down_wraps_at_end() {
    let mut b = ProjectBrowser::new(3);
    b.handle_key(key(KeyCode::Down));
    b.handle_key(key(KeyCode::Down));
    b.handle_key(key(KeyCode::Down));
    assert_eq!(b.selected(), Some(0));
}

#[test]
fn project_browser_up_wraps_at_start() {
    let mut b = ProjectBrowser::new(3);
    b.handle_key(key(KeyCode::Up));
    assert_eq!(b.selected(), Some(2));
}

#[test]
fn project_browser_enter_returns_selected_index() {
    let mut b = ProjectBrowser::new(3);
    b.handle_key(key(KeyCode::Down));
    let outcome = b.handle_key(key(KeyCode::Enter));
    assert!(matches!(outcome, ProjectBrowserOutcome::Selected(1)));
}

#[test]
fn project_browser_esc_returns_cancelled() {
    let mut b = ProjectBrowser::new(3);
    let outcome = b.handle_key(key(KeyCode::Esc));
    assert!(matches!(outcome, ProjectBrowserOutcome::Cancelled));
}

#[test]
fn visual_index_accounts_for_headers() {
    let dummy_proj = || (Project::new("p", "/tmp/p"), 0usize, None::<String>);
    let groups: Vec<ProjectGroup> = vec![
        ("A".to_string(), vec![dummy_proj(), dummy_proj()]),
        ("B".to_string(), vec![dummy_proj()]),
    ];
    assert_eq!(ProjectBrowser::visual_index_of(&groups, 0), 1);
    assert_eq!(ProjectBrowser::visual_index_of(&groups, 1), 2);
    assert_eq!(ProjectBrowser::visual_index_of(&groups, 2), 4);
    assert_eq!(ProjectBrowser::visual_index_of(&groups, 3), 5);
}

#[test]
fn project_row_texts() {
    let long = format!("/{}", "d".repeat(60));
    let p = Project::new("proj", &long);
    let row = project_row(&p, 1);
    assert_eq!(row.name, format!("proj{}", " ".repeat(16)));
    assert_eq!(row.path, format!("…{}", "d".repeat(45)));
    assert_eq!(row.open_tasks, "1 open task");
    let q = Project::new("q", "/short");
    let row2 = project_row(&q, 0);
    assert_eq!(row2.path, format!("/short{}", " ".repeat(40)));
    assert_eq!(row2.open_tasks, "no open tasks");
}

// ── form ────────────────────────────────────────────────────────────────────

#[test]
fn new_form_focuses_title() {
    let form = FormState::new();
    assert_eq!(form.focused, FormField::Title);
}

#[test]
fn tab_moves_focus_to_body() {
    let mut form = FormState::new();
    form.handle_key(&key(KeyCode::Tab));
    assert_eq!(form.focused, FormField::Body);
}

#[test]
fn tab_wraps_back_to_title() {
    let mut form = FormState::new();
    form.handle_key(&key(KeyCode::Tab));
    form.handle_key(&key(KeyCode::Tab));
    assert_eq!(form.focused, FormField::Title);
}

#[test]
fn ctrl_s_returns_submitted() {
    let mut form = FormState::new();
    let (outcome, _) = form.handle_key(&ctrl('s'));
    assert!(matches!(outcome, FormOutcome::Submitted));
}

#[test]
fn form_esc_returns_cancelled() {
    let mut form = FormState::new();
    let (outcome, _) = form.handle_key(&key(KeyCode::Esc));
    assert!(matches!(outcome, FormOutcome::Cancelled));
}

#[test]
fn enter_in_title_does_not_insert_newline() {
    let mut form = FormState::new();
    assert_eq!(form.handle_key(&key(KeyCode::Char('h'))), (FormOutcome::Continue, Some(FormField::Title)));
    assert_eq!(form.handle_key(&key(KeyCode::Char('i'))), (FormOutcome::Continue, Some(FormField::Title)));
    assert_eq!(form.handle_key(&key(KeyCode::Enter)), (FormOutcome::Continue, None));
    form.handle_key(&key(KeyCode::Tab));
    assert_eq!(form.handle_key(&key(KeyCode::Enter)), (FormOutcome::Continue, Some(FormField::Body)));
}

#[test]
fn back_tab_with_shift_moves_focus() {
    let k = KeyEvent::new(KeyCode::BackTab, KeyModifiers::shift());
    assert_eq!(form_action(FormField::Body, &k), FormAction::Focus(FormField::Title));
    assert_eq!(form_action(FormField::Title, &key(KeyCode::BackTab)), FormAction::Edit(FormField::Title));
    assert_eq!(FormField::Title.prev(), FormField::Body);
    assert_eq!(FormField::Body.next(), FormField::Title);
}

#[test]
fn with_values_prepopulates_fields() {
    let title = join_lines(&vec!["My Title".to_string()], "");
    let body = join_lines(&initial_body_lines("Line 1\nLine 2"), "\n");
    assert_eq!(title, "My Title");
    assert!(body.contains("Line 1"));
    assert!(body.contains("Line 2"));
}

#[test]
fn values_empty_on_new_form() {
    let lines = initial_body_lines("");
    assert_eq!(lines, vec![String::new()]);
    let title = join_lines(&vec![String::new()], "");
    let body = join_lines(&lines, "\n");
    assert!(title.is_empty());
    assert!(body.trim().is_empty());
}
