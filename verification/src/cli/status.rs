use vstd::prelude::*;

use crate::db::tasks::{max_completed_index, max_deferred_index, max_open_index, next_completed_index, next_deferred_index, next_open_display_index, tasks_view};
use crate::error::MocoError;
use crate::models::task::{Task, TaskStatus, TaskView};
use crate::text::{chars_of, lowercase, parse_u32, parse_unsigned, str_eq, to_lowercase};

verus! {

/// Arguments of `moco status`.
pub struct StatusArgs {
    /// Task reference: open index (e.g. `1`), subtask (`1.2`), completed
    /// (`C1`, `C1.2`), or deferred (`D1`, `D1.2`).
    pub task_id: String,
    /// New status: an integer 0–100, "complete", "defer", or "open"/"reopen".
    pub value: String,
    /// Operate on the global task list instead of the current project.
    pub global: bool,
}

/// Parsed representation of the status value argument.
#[derive(Debug, Clone, Copy, PartialEq, Eq, Structural)]
pub enum StatusValue {
    Progress(u8),
    Complete,
    Defer,
    /// Re-open a completed or deferred task.
    Open,
}

/// The status value a raw argument names, or `None` when it names none. The
/// words are compared after `str::to_lowercase`; anything else is read as
/// `str::parse::<u8>` reads it: 100 means complete, above 100 is invalid.
pub open spec fn status_value_of(raw: Seq<char>) -> Option<StatusValue> {
    let k = lowercase(raw);
    if k == "complete"@ || k == "done"@ {
        Some(StatusValue::Complete)
    } else if k == "defer"@ || k == "deferred"@ {
        Some(StatusValue::Defer)
    } else if k == "open"@ || k == "reopen"@ {
        Some(StatusValue::Open)
    } else {
        match parse_unsigned(raw, 255) {
            Some(n) => if n > 100 {
                None
            } else if n == 100 {
                Some(StatusValue::Complete)
            } else {
                Some(StatusValue::Progress(n as u8))
            },
            None => None,
        }
    }
}

/// Parse the status value argument; an invalid one is `InvalidStatus` with
/// the raw text.
pub fn parse_status_value(raw: &str) -> (r: Result<StatusValue, MocoError>)
    ensures
        match status_value_of(raw@) {
            Some(v) => r == Ok::<StatusValue, MocoError>(v),
            None => r matches Err(MocoError::InvalidStatus(s)) && s@ == raw@,
        },
        r matches Ok(StatusValue::Progress(p)) ==> p <= 99,
{
    let lower = to_lowercase(raw);
    let k = lower.as_str();
    if str_eq(k, "complete") || str_eq(k, "done") {
        return Ok(StatusValue::Complete);
    }
    if str_eq(k, "defer") || str_eq(k, "deferred") {
        return Ok(StatusValue::Defer);
    }
    if str_eq(k, "open") || str_eq(k, "reopen") {
        return Ok(StatusValue::Open);
    }
    let cs = chars_of(raw);
    match parse_u32(&cs, 255) {
        Some(n) => {
            if n > 100 {
                Err(MocoError::InvalidStatus(raw.to_owned()))
            } else if n == 100 {
                Ok(StatusValue::Complete)
            } else {
                Ok(StatusValue::Progress(n as u8))
            }
        },
        None => Err(MocoError::InvalidStatus(raw.to_owned())),
    }
}

/// Whether an open top-level task leaves the open list.
pub open spec fn leaves_open_list(t: TaskView) -> bool {
    t.status == TaskStatus::Open && t.parent_id is None
}

/// The task after the status change `v`, where `scope` holds the tasks of its
/// scope before the change and `now` is the time of the change.
/// - progress: set it;
/// - complete: the next completed index, progress 100, no deferred index;
/// - defer: the next deferred index, no completed index;
/// - open: a completed or deferred task gets back an open display index (the
///   next one, for a top-level task) and loses its other indices; an open task
///   is left alone.
/// A top-level task that leaves the open list drops its display index to 0.
pub open spec fn status_after(t: TaskView, v: StatusValue, scope: Seq<TaskView>, now: i64) -> TaskView {
    match v {
        StatusValue::Progress(p) => TaskView { progress: p, updated_at: now, ..t },
        StatusValue::Complete => TaskView {
            deferred_index: None,
            status: TaskStatus::Complete,
            progress: 100,
            completed_index: Some((max_completed_index(scope) + 1) as u32),
            display_index: if leaves_open_list(t) { 0 } else { t.display_index },
            updated_at: now,
            ..t
        },
        StatusValue::Defer => TaskView {
            completed_index: None,
            status: TaskStatus::Defer,
            deferred_index: Some((max_deferred_index(scope) + 1) as u32),
            display_index: if leaves_open_list(t) { 0 } else { t.display_index },
            updated_at: now,
            ..t
        },
        StatusValue::Open => if t.status == TaskStatus::Open {
            t
        } else {
            TaskView {
                completed_index: None,
                deferred_index: None,
                status: TaskStatus::Open,
                display_index: if t.parent_id is None {
                    (max_open_index(scope) + 1) as u32
                } else {
                    t.display_index
                },
                updated_at: now,
                ..t
            }
        },
    }
}

/// Whether a change must be persisted (everything but opening an open task).
pub open spec fn status_changes(t: TaskView, v: StatusValue) -> bool {
    !(v == StatusValue::Open && t.status == TaskStatus::Open)
}

/// Whether the open tasks of the scope must be renumbered afterwards.
pub open spec fn status_needs_reindex(t: TaskView, v: StatusValue) -> bool {
    (v == StatusValue::Complete || v == StatusValue::Defer) && leaves_open_list(t)
}

/// What a status change did.
pub struct StatusOutcome {
    /// The task changed and must be saved.
    pub changed: bool,
    /// The scope's open tasks must be renumbered.
    pub reindex: bool,
}

/// The indices that a change draws do not overflow.
pub open spec fn status_fits(t: TaskView, v: StatusValue, scope: Seq<TaskView>) -> bool {
    &&& v == StatusValue::Complete ==> max_completed_index(scope) < u32::MAX
    &&& v == StatusValue::Defer ==> max_deferred_index(scope) < u32::MAX
    &&& (v == StatusValue::Open && t.status != TaskStatus::Open && t.parent_id is None) ==> max_open_index(scope) < u32::MAX
}

/// Apply a status change to `task`. `scope_tasks` are the tasks of its scope
/// as stored before the change; `now` stamps the change.
pub fn apply_status(task: &mut Task, value: StatusValue, scope_tasks: &Vec<Task>, now: i64) -> (r: StatusOutcome)
    requires
        status_fits(old(task)@, value, tasks_view(scope_tasks@)),
    ensures
        final(task)@ == status_after(old(task)@, value, tasks_view(scope_tasks@), now),
        r.changed == status_changes(old(task)@, value),
        r.reindex == status_needs_reindex(old(task)@, value),
{
    let was_open = task.status == TaskStatus::Open;
    let top_level = task.parent_id.is_none();
    match value {
        StatusValue::Progress(pct) => {
            task.progress = pct;
            task.updated_at = now;
            StatusOutcome { changed: true, reindex: false }
        },
        StatusValue::Complete => {
            let completed_index = next_completed_index(scope_tasks);
            task.deferred_index = None;
            task.status = TaskStatus::Complete;
            task.progress = 100;
            task.completed_index = Some(completed_index);
            if was_open && top_level {
                task.display_index = 0;
            }
            task.updated_at = now;
            StatusOutcome { changed: true, reindex: was_open && top_level }
        },
        StatusValue::Defer => {
            let deferred_index = next_deferred_index(scope_tasks);
            task.completed_index = None;
            task.status = TaskStatus::Defer;
            task.deferred_index = Some(deferred_index);
            if was_open && top_level {
                task.display_index = 0;
            }
            task.updated_at = now;
            StatusOutcome { changed: true, reindex: was_open && top_level }
        },
        StatusValue::Open => {
            if was_open {
                return StatusOutcome { changed: false, reindex: false };
            }
            task.completed_index = None;
            task.deferred_index = None;
            task.status = TaskStatus::Open;
            if top_level {
                task.display_index = next_open_display_index(scope_tasks);
            }
            task.updated_at = now;
            StatusOutcome { changed: true, reindex: false }
        },
    }
}

/// Completing an open top-level task and then reopening it gives back an
/// open task under the next open index of the scope at reopening, with no
/// completed or deferred index, the rest of the task unchanged but the
/// progress (100) and the update time.
pub proof fn lemma_complete_then_reopen(t: TaskView, scope1: Seq<TaskView>, scope2: Seq<TaskView>, now1: i64, now2: i64)
    requires
        t.status == TaskStatus::Open,
        t.parent_id is None,
    ensures
        ({
            let done = status_after(t, StatusValue::Complete, scope1, now1);
            let back = status_after(done, StatusValue::Open, scope2, now2);
            &&& done.status == TaskStatus::Complete
            &&& done.display_index == 0
            &&& status_needs_reindex(t, StatusValue::Complete)
            &&& back.status == TaskStatus::Open
            &&& back.display_index == (max_open_index(scope2) + 1) as u32
            &&& back.completed_index is None
            &&& back.deferred_index is None
            &&& back == TaskView {
                status: TaskStatus::Open,
                display_index: (max_open_index(scope2) + 1) as u32,
                completed_index: None,
                deferred_index: None,
                progress: 100,
                updated_at: now2,
                ..t
            }
        }),
{
}

/// What each status value does to a task, whatever the task and its scope:
/// - a progress value sets the progress and nothing about the status;
/// - complete makes the task completed at 100%, under a completed index
///   above every completed index of the scope, with no deferred index;
/// - defer makes the task deferred, under a deferred index above every
///   deferred index of the scope, with no completed index;
/// - open makes a completed or deferred task open again with neither index
///   (a top-level one above every open index of the scope), and leaves an
///   open task as it is.
/// A completed or deferred top-level task that was open leaves the open
/// list (display index 0). Identity, scope, content, parent and tags never
/// change.
pub proof fn lemma_status_effect(t: TaskView, v: StatusValue, scope: Seq<TaskView>, now: i64)
    requires
        status_fits(t, v, scope),
    ensures
        ({
            let r = status_after(t, v, scope, now);
            &&& r.id == t.id && r.project_id == t.project_id && r.content == t.content
            &&& r.parent_id == t.parent_id && r.sub_index == t.sub_index && r.tags == t.tags
            &&& v matches StatusValue::Progress(p) ==> r.progress == p && r.status == t.status
                && r.completed_index == t.completed_index && r.deferred_index == t.deferred_index
            &&& v == StatusValue::Complete ==> {
                &&& r.status == TaskStatus::Complete
                &&& r.progress == 100
                &&& r.deferred_index is None
                &&& r.completed_index matches Some(c) && forall|i: int|
                    0 <= i < scope.len() && (#[trigger] scope[i]).completed_index is Some
                        ==> scope[i].completed_index->0 < c
                &&& (t.status == TaskStatus::Open && t.parent_id is None) ==> r.display_index == 0
                &&& !(t.status == TaskStatus::Open && t.parent_id is None) ==> r.display_index == t.display_index
            }
            &&& v == StatusValue::Defer ==> {
                &&& r.status == TaskStatus::Defer
                &&& r.completed_index is None
                &&& r.deferred_index matches Some(d) && forall|i: int|
                    0 <= i < scope.len() && (#[trigger] scope[i]).deferred_index is Some
                        ==> scope[i].deferred_index->0 < d
                &&& (t.status == TaskStatus::Open && t.parent_id is None) ==> r.display_index == 0
                &&& !(t.status == TaskStatus::Open && t.parent_id is None) ==> r.display_index == t.display_index
            }
            &&& v == StatusValue::Open ==> {
                &&& r.status == TaskStatus::Open
                &&& t.status == TaskStatus::Open ==> r == t
                &&& t.status != TaskStatus::Open ==> r.completed_index is None && r.deferred_index is None
                &&& (t.status != TaskStatus::Open && t.parent_id is None) ==> forall|i: int|
                    0 <= i < scope.len() && (#[trigger] scope[i]).status == TaskStatus::Open
                        ==> scope[i].display_index < r.display_index
                &&& t.parent_id is Some ==> r.display_index == t.display_index
            }
            &&& status_changes(t, v) <==> !(v == StatusValue::Open && t.status == TaskStatus::Open)
            &&& status_needs_reindex(t, v) <==> ((v == StatusValue::Complete || v == StatusValue::Defer)
                && t.status == TaskStatus::Open && t.parent_id is None)
        }),
{
    crate::db::tasks::lemma_max_completed_index_is_max(scope);
    crate::db::tasks::lemma_max_deferred_index_is_max(scope);
    crate::db::tasks::lemma_max_open_index_is_max(scope);
}

} // verus!
