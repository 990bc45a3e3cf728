use vstd::prelude::*;

use crate::ident::{is_v4, new_id};
use crate::text::{decimal, push_decimal, string_of, string_views};
use crate::time::{now_micros, representable};

verus! {

/// The lifecycle state of a task.
#[derive(Clone, Copy, Debug, PartialEq, Eq, Structural)]
pub enum TaskStatus {
    Open,
    Complete,
    Defer,
}

/// The lowercase name of a status, as it is displayed.
pub open spec fn status_name(s: TaskStatus) -> Seq<char> {
    match s {
        TaskStatus::Open => seq!['o', 'p', 'e', 'n'],
        TaskStatus::Complete => seq!['c', 'o', 'm', 'p', 'l', 'e', 't', 'e'],
        TaskStatus::Defer => seq!['d', 'e', 'f', 'e', 'r'],
    }
}

impl TaskStatus {
    /// The lowercase name of the status: `"open"`, `"complete"` or `"defer"`.
    pub fn to_string(&self) -> (s: String)
        ensures
            s@ == status_name(*self),
    {
        let v = match self {
            TaskStatus::Open => vec!['o', 'p', 'e', 'n'],
            TaskStatus::Complete => vec!['c', 'o', 'm', 'p', 'l', 'e', 't', 'e'],
            TaskStatus::Defer => vec!['d', 'e', 'f', 'e', 'r'],
        };
        proof {
            assert(v@ =~= status_name(*self));
        }
        string_of(&v)
    }
}

/// A single task (or subtask) within a project. Identifiers are 128-bit
/// UUID values and timestamps are microseconds since the Unix epoch.
#[derive(Debug)]
pub struct Task {
    pub id: u128,
    /// `None` means the global task list.
    pub project_id: Option<u128>,
    pub content: String,
    pub status: TaskStatus,
    /// Progress percentage (0–100). 100 ⇒ Complete.
    pub progress: u8,
    /// Display index among open top-level tasks: 1, 2, 3, …
    /// Always 0 for subtasks (which use `sub_index` instead).
    pub display_index: u32,
    /// Display index among completed tasks: C#1, C#2, …
    pub completed_index: Option<u32>,
    /// Display index among deferred tasks: D#1, D#2, …
    pub deferred_index: Option<u32>,
    /// Parent task id for subtasks.
    pub parent_id: Option<u128>,
    /// 1-based position within the parent's subtask list.
    pub sub_index: Option<u32>,
    /// Free-form keyword tags for filtering.
    pub tags: Vec<String>,
    pub created_at: i64,
    pub updated_at: i64,
}

/// Mathematical model of a task: every field as a plain value.
pub struct TaskView {
    pub id: u128,
    pub project_id: Option<u128>,
    pub content: Seq<char>,
    pub status: TaskStatus,
    pub progress: u8,
    pub display_index: u32,
    pub completed_index: Option<u32>,
    pub deferred_index: Option<u32>,
    pub parent_id: Option<u128>,
    pub sub_index: Option<u32>,
    pub tags: Seq<Seq<char>>,
    pub created_at: i64,
    pub updated_at: i64,
}

impl View for Task {
    type V = TaskView;

    open spec fn view(&self) -> TaskView {
        TaskView {
            id: self.id,
            project_id: self.project_id,
            content: self.content@,
            status: self.status,
            progress: self.progress,
            display_index: self.display_index,
            completed_index: self.completed_index,
            deferred_index: self.deferred_index,
            parent_id: self.parent_id,
            sub_index: self.sub_index,
            tags: string_views(self.tags@),
            created_at: self.created_at,
            updated_at: self.updated_at,
        }
    }
}

/// Copies a list of strings.
pub fn clone_strings(v: &Vec<String>) -> (r: Vec<String>)
    ensures
        string_views(r@) == string_views(v@),
{
    let mut r: Vec<String> = Vec::new();
    let mut i: usize = 0;
    while i < v.len()
        invariant
            i <= v.len(),
            r@.len() == i,
            forall|k: int| 0 <= k < i ==> #[trigger] r@[k]@ == v@[k]@,
        decreases v.len() - i,
    {
        r.push(v[i].clone());
        i = i + 1;
    }
    assert(string_views(r@) =~= string_views(v@));
    r
}

impl Clone for Task {
    fn clone(&self) -> (r: Self)
        ensures
            r@ == self@,
    {
        Task {
            id: self.id,
            project_id: self.project_id,
            content: self.content.clone(),
            status: self.status,
            progress: self.progress,
            display_index: self.display_index,
            completed_index: self.completed_index,
            deferred_index: self.deferred_index,
            parent_id: self.parent_id,
            sub_index: self.sub_index,
            tags: clone_strings(&self.tags),
            created_at: self.created_at,
            updated_at: self.updated_at,
        }
    }
}

/// A task whose status has the index that its display form shows: a
/// completed task has a completed index and a deferred task a deferred index.
pub open spec fn has_status_index(t: TaskView) -> bool {
    &&& t.status == TaskStatus::Complete ==> t.completed_index is Some
    &&& t.status == TaskStatus::Defer ==> t.deferred_index is Some
}

/// The number that identifies a task within its status list.
pub open spec fn status_number(t: TaskView) -> u32 {
    match t.status {
        TaskStatus::Open => t.display_index,
        TaskStatus::Complete => t.completed_index.unwrap(),
        TaskStatus::Defer => t.deferred_index.unwrap(),
    }
}

/// Human-readable id of a top-level task: `"#3"`, `"C#1"`, `"D#2"`.
pub open spec fn display_id_of(t: TaskView) -> Seq<char> {
    let prefix = match t.status {
        TaskStatus::Open => seq!['#'],
        TaskStatus::Complete => seq!['C', '#'],
        TaskStatus::Defer => seq!['D', '#'],
    };
    prefix + decimal(status_number(t) as nat)
}

/// How a subtask refers to its parent: `"2"`, `"C3"`, `"D1"`, or `"?"` when
/// the parent is not known.
pub open spec fn parent_ref_of(parent: Option<TaskView>) -> Seq<char> {
    match parent {
        Some(p) => match p.status {
            TaskStatus::Open => decimal(p.display_index as nat),
            TaskStatus::Complete => seq!['C'] + decimal(p.completed_index.unwrap() as nat),
            TaskStatus::Defer => seq!['D'] + decimal(p.deferred_index.unwrap() as nat),
        },
        None => seq!['?'],
    }
}

/// Human-readable id with parent context: a top-level task as in
/// `display_id_of`; a subtask as `"S#P.N"`, `"CS#P.N"` or `"DS#P.N"`.
pub open spec fn display_id_in_context_of(t: TaskView, parent: Option<TaskView>) -> Seq<char> {
    match t.sub_index {
        None => display_id_of(t),
        Some(sub) => {
            let prefix = match t.status {
                TaskStatus::Open => seq!['S', '#'],
                TaskStatus::Complete => seq!['C', 'S', '#'],
                TaskStatus::Defer => seq!['D', 'S', '#'],
            };
            prefix + parent_ref_of(parent) + seq!['.'] + decimal(sub as nat)
        },
    }
}

impl Task {
    /// A new open task with zero progress, no tags and a fresh random id,
    /// created and updated now.
    pub fn new(project_id: Option<u128>, content: &str, display_index: u32, parent_id: Option<u128>) -> (t: Task)
        ensures
            t@.project_id == project_id,
            t@.content == content@,
            t@.status == TaskStatus::Open,
            t@.progress == 0,
            t@.display_index == display_index,
            t@.completed_index is None,
            t@.deferred_index is None,
            t@.parent_id == parent_id,
            t@.sub_index is None,
            t@.tags.len() == 0,
            t@.created_at == t@.updated_at,
            representable(t@.created_at),
            is_v4(t@.id),
    {
        let now = now_micros();
        let t = Task {
            id: new_id(),
            project_id,
            content: content.to_owned(),
            status: TaskStatus::Open,
            progress: 0,
            display_index,
            completed_index: None,
            deferred_index: None,
            parent_id,
            sub_index: None,
            tags: Vec::new(),
            created_at: now,
            updated_at: now,
        };
        assert(t@.tags =~= Seq::<Seq<char>>::empty());
        t
    }

    /// Human-readable id for a top-level task: `"#3"`, `"C#1"`, `"D#2"`.
    pub fn display_id(&self) -> (s: String)
        requires
            has_status_index(self@),
        ensures
            s@ == display_id_of(self@),
    {
        let mut v: Vec<char> = Vec::new();
        match self.status {
            TaskStatus::Open => {
                v.push('#');
                push_decimal(&mut v, self.display_index as u64);
            },
            TaskStatus::Complete => {
                v.push('C');
                v.push('#');
                push_decimal(&mut v, self.completed_index.unwrap() as u64);
            },
            TaskStatus::Defer => {
                v.push('D');
                v.push('#');
                push_decimal(&mut v, self.deferred_index.unwrap() as u64);
            },
        }
        proof {
            assert(v@ =~= display_id_of(self@));
        }
        string_of(&v)
    }

    /// Human-readable id with optional parent context for subtasks: a
    /// top-level task as `display_id`; a subtask as `"S#P.N"`, `"CS#P.N"` or
    /// `"DS#P.N"`, where `P` is the parent's reference (`"?"` when the parent
    /// is not given) and `N` the subtask's `sub_index`.
    pub fn display_id_in_context(&self, parent: Option<&Task>) -> (s: String)
        requires
            self@.sub_index is None ==> has_status_index(self@),
            self@.sub_index is Some ==> (parent matches Some(p) ==> has_status_index(p@)),
        ensures
            s@ == display_id_in_context_of(
                self@,
                match parent {
                    Some(p) => Some(p@),
                    None => None,
                },
            ),
    {
        let sub = match self.sub_index {
            Some(s) => s,
            None => return self.display_id(),
        };
        let ghost pv = match parent {
            Some(p) => Some(p@),
            None => None::<TaskView>,
        };
        let mut v: Vec<char> = Vec::new();
        match self.status {
            TaskStatus::Open => {
                v.push('S');
            },
            TaskStatus::Complete => {
                v.push('C');
                v.push('S');
            },
            TaskStatus::Defer => {
                v.push('D');
                v.push('S');
            },
        }
        v.push('#');
        let ghost prefix = v@;
        match parent {
            Some(p) => match p.status {
                TaskStatus::Open => {
                    push_decimal(&mut v, p.display_index as u64);
                },
                TaskStatus::Complete => {
                    v.push('C');
                    push_decimal(&mut v, p.completed_index.unwrap() as u64);
                },
                TaskStatus::Defer => {
                    v.push('D');
                    push_decimal(&mut v, p.deferred_index.unwrap() as u64);
                },
            },
            None => {
                v.push('?');
            },
        }
        assert(v@ =~= prefix + parent_ref_of(pv));
        v.push('.');
        push_decimal(&mut v, sub as u64);
        proof {
            assert(v@ =~= display_id_in_context_of(self@, pv));
        }
        string_of(&v)
    }
}

} // verus!
