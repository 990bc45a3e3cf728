use vstd::prelude::*;

use crate::db::categories::{
    categories_view, find_category, list_categories, max_order, named, next_category_order,
    reorder_categories, reordered, by_order,
};
use crate::db::notes::{
    find_note_by_id, get_note, list_notes, max_note_index, new_note, next_note_display_index,
    note_at, note_in_scope, note_with_id, notes_sorted, notes_view, opt_note_view,
};
use crate::db::projects::{
    at_path, by_recency, find_by_id, find_by_path, projects_view, sort_by_recency, with_id,
};
use crate::db::tasks::{
    find_task, get_open_task, in_scope, list_tasks, max_completed_index,
    max_deferred_index, max_open_index, max_sub_index,
    new_task, open_at, opt_task_view, reindex_open_tasks, renumber_updates, sorted_by_index,
    tasks_in_scope, tasks_view, open_top_level,
};
use crate::models::category::{Category, CategoryView};
use crate::models::note::{Note, NoteView};
use crate::models::project::{Project, ProjectView};
use crate::models::task::{Task, TaskStatus, TaskView};
use crate::order::{first_where, lemma_first_where};
use crate::time::representable;
use crate::cli::status::{
    apply_status, status_after, status_changes, status_fits, status_needs_reindex, StatusOutcome,
    StatusValue,
};

verus! {

/// `s` with the first element that `p` selects replaced by `x`, or with `x`
/// appended when `p` selects none: how a keyed table stores a record.
pub open spec fn upsert<A>(s: Seq<A>, p: spec_fn(A) -> bool, x: A) -> Seq<A> {
    match first_where(s, p) {
        Some(i) => s.update(i, x),
        None => s.push(x),
    }
}

/// `s` without the first element that `p` selects.
pub open spec fn remove_first<A>(s: Seq<A>, p: spec_fn(A) -> bool) -> Seq<A> {
    match first_where(s, p) {
        Some(i) => s.remove(i),
        None => s,
    }
}

/// The element of `s` that `p` selects first, if any.
pub open spec fn lookup<A>(s: Seq<A>, p: spec_fn(A) -> bool) -> Option<A> {
    match first_where(s, p) {
        Some(i) => Some(s[i]),
        None => None,
    }
}

/// The predicate "is stored under the key `(scope, id)`" of a task.
pub open spec fn task_key_is(scope: Option<u128>, id: u128) -> spec_fn(TaskView) -> bool {
    |t: TaskView| t.project_id == scope && t.id == id
}

/// The predicate "has this id" of a task.
pub open spec fn task_id_is(id: u128) -> spec_fn(TaskView) -> bool {
    |t: TaskView| t.id == id
}

/// The predicate "is stored under the key `(scope, id)`" of a note.
pub open spec fn note_key_is(scope: Option<u128>, id: u128) -> spec_fn(NoteView) -> bool {
    |n: NoteView| n.project_id == scope && n.id == id
}

/// The predicate "does not belong to project `id`" of a task.
pub open spec fn task_outside(id: u128) -> spec_fn(TaskView) -> bool {
    |t: TaskView| t.project_id != Some(id)
}

/// The predicate "does not belong to project `id`" of a note.
pub open spec fn note_outside(id: u128) -> spec_fn(NoteView) -> bool {
    |n: NoteView| n.project_id != Some(id)
}

/// The predicate "is not one of these tasks".
pub open spec fn task_not_in(ids: Seq<u128>) -> spec_fn(TaskView) -> bool {
    |t: TaskView| !ids.contains(t.id)
}

/// `p` active at `now`.
pub open spec fn touched(p: ProjectView, now: i64) -> ProjectView {
    ProjectView { last_active: now, ..p }
}

/// The projects after project `id` (if registered) was active at `now`;
/// the global list (`None`) touches nothing.
pub open spec fn touch(ps: Seq<ProjectView>, id: Option<u128>, now: i64) -> Seq<ProjectView> {
    match id {
        Some(pid) => match first_where(ps, with_id(pid)) {
            Some(i) => ps.update(i, touched(ps[i], now)),
            None => ps,
        },
        None => ps,
    }
}

/// `p` without the category `name` when it is in it.
pub open spec fn uncategorised(p: ProjectView, name: Seq<char>) -> ProjectView {
    if p.category == Some(name) {
        ProjectView { category: None, ..p }
    } else {
        p
    }
}

/// The contents of a store: its projects, tasks, notes and categories, in
/// the order the store holds them.
pub struct StoreView {
    pub projects: Seq<ProjectView>,
    pub tasks: Seq<TaskView>,
    pub notes: Seq<NoteView>,
    pub categories: Seq<CategoryView>,
}

/// The store of projects (keyed by path), tasks and notes (keyed by scope
/// and id) and categories (keyed by name), held in memory. Persisting it is
/// the caller's business.
#[derive(Debug)]
pub struct MemStore {
    projects: Vec<Project>,
    tasks: Vec<Task>,
    notes: Vec<Note>,
    categories: Vec<Category>,
}

/// No two elements of `s` have the same key.
pub open spec fn keys_unique<A, K>(s: Seq<A>, key: spec_fn(A) -> K) -> bool {
    forall|i: int, j: int| 0 <= i < s.len() && 0 <= j < s.len() && i != j ==> key(#[trigger] s[i]) != key(#[trigger] s[j])
}

/// The key of a project: its path.
pub open spec fn project_key() -> spec_fn(ProjectView) -> Seq<char> {
    |p: ProjectView| p.path
}

/// The key of a task: its scope and id.
pub open spec fn task_store_key() -> spec_fn(TaskView) -> (Option<u128>, u128) {
    |t: TaskView| (t.project_id, t.id)
}

/// The key of a note: its scope and id.
pub open spec fn note_store_key() -> spec_fn(NoteView) -> (Option<u128>, u128) {
    |n: NoteView| (n.project_id, n.id)
}

/// The key of a category: its name.
pub open spec fn category_key() -> spec_fn(CategoryView) -> Seq<char> {
    |c: CategoryView| c.name
}

/// Storing a record under its key keeps the keys unique.
proof fn lemma_upsert_unique<A, K>(s: Seq<A>, p: spec_fn(A) -> bool, key: spec_fn(A) -> K, x: A)
    requires
        keys_unique(s, key),
        forall|a: A| #[trigger] p(a) <==> key(a) == key(x),
    ensures
        keys_unique(upsert(s, p, x), key),
{
    crate::order::lemma_first_where_props(s, p);
    match first_where(s, p) {
        Some(i) => {
            let r = s.update(i, x);
            assert(p(s[i]));
            assert forall|a: int, b: int| 0 <= a < r.len() && 0 <= b < r.len() && a != b implies key(
                #[trigger] r[a],
            ) != key(#[trigger] r[b]) by {
                if a == i {
                    assert(r[b] == s[b]);
                } else if b == i {
                    assert(r[a] == s[a]);
                } else {
                    assert(r[a] == s[a] && r[b] == s[b]);
                }
            }
        },
        None => {
            let r = s.push(x);
            assert forall|a: int, b: int| 0 <= a < r.len() && 0 <= b < r.len() && a != b implies key(
                #[trigger] r[a],
            ) != key(#[trigger] r[b]) by {
                if a == s.len() {
                    assert(r[b] == s[b]);
                    assert(!p(s[b]));
                } else if b == s.len() {
                    assert(r[a] == s[a]);
                    assert(!p(s[a]));
                } else {
                    assert(r[a] == s[a] && r[b] == s[b]);
                }
            }
        },
    }
}

/// Removing a record keeps the keys unique.
proof fn lemma_remove_unique<A, K>(s: Seq<A>, key: spec_fn(A) -> K, i: int)
    requires
        keys_unique(s, key),
        0 <= i < s.len(),
    ensures
        keys_unique(s.remove(i), key),
{
    let r = s.remove(i);
    assert forall|a: int, b: int| 0 <= a < r.len() && 0 <= b < r.len() && a != b implies key(
        #[trigger] r[a],
    ) != key(#[trigger] r[b]) by {
        let a2 = if a < i { a } else { a + 1 };
        let b2 = if b < i { b } else { b + 1 };
        assert(r[a] == s[a2] && r[b] == s[b2]);
    }
}

/// Removing the first record that `p` selects keeps the keys unique; when
/// `p` selects exactly the records of one key, none of them is left.
proof fn lemma_remove_first_unique<A, K>(s: Seq<A>, p: spec_fn(A) -> bool, key: spec_fn(A) -> K, k: K)
    requires
        keys_unique(s, key),
    ensures
        keys_unique(remove_first(s, p), key),
        (forall|a: A| #[trigger] p(a) <==> key(a) == k) ==> first_where(remove_first(s, p), p) is None,
{
    crate::order::lemma_first_where_props(s, p);
    match first_where(s, p) {
        Some(i) => {
            lemma_remove_unique(s, key, i);
            let r = s.remove(i);
            if forall|a: A| #[trigger] p(a) <==> key(a) == k {
                assert forall|j: int| 0 <= j < r.len() implies !p(#[trigger] r[j]) by {
                    let j2 = if j < i { j } else { j + 1 };
                    assert(r[j] == s[j2]);
                    assert(p(s[i]));
                }
                crate::order::lemma_first_where(r, p, r.len() as int);
            }
        },
        None => {},
    }
}

/// Keeping the records that `f` selects keeps the keys unique.
proof fn lemma_filter_unique<A, K>(s: Seq<A>, f: spec_fn(A) -> bool, key: spec_fn(A) -> K)
    requires
        keys_unique(s, key),
    ensures
        keys_unique(s.filter(f), key),
    decreases s.len(),
{
    reveal(Seq::filter);
    if s.len() > 0 {
        let d = s.drop_last();
        assert(keys_unique(d, key)) by {
            assert forall|a: int, b: int| 0 <= a < d.len() && 0 <= b < d.len() && a != b implies key(
                #[trigger] d[a],
            ) != key(#[trigger] d[b]) by {
                assert(d[a] == s[a] && d[b] == s[b]);
            }
        }
        lemma_filter_unique(d, f, key);
        let fd = d.filter(f);
        if f(s.last()) {
            let r = fd.push(s.last());
            assert(s.filter(f) == r);
            assert forall|a: int| 0 <= a < fd.len() implies key(#[trigger] fd[a]) != key(s.last()) by {
                assert(fd.contains(fd[a]));
                d.lemma_filter_contains_rev(f, fd[a]);
                let k = choose|k: int| 0 <= k < d.len() && d[k] == fd[a];
                assert(d[k] == s[k]);
                assert(s[s.len() - 1] == s.last());
            }
            assert forall|a: int, b: int| 0 <= a < r.len() && 0 <= b < r.len() && a != b implies key(
                #[trigger] r[a],
            ) != key(#[trigger] r[b]) by {
                if a == fd.len() {
                    assert(key(fd[b]) != key(s.last()));
                } else if b == fd.len() {
                    assert(key(fd[a]) != key(s.last()));
                } else {
                    assert(r[a] == fd[a] && r[b] == fd[b]);
                }
            }
        } else {
            assert(s.filter(f) == fd);
        }
    }
}

/// Inserting a record of a new key keeps the keys unique.
proof fn lemma_insert_unique<A, K>(s: Seq<A>, key: spec_fn(A) -> K, j: int, x: A)
    requires
        keys_unique(s, key),
        0 <= j <= s.len(),
        forall|k: int| 0 <= k < s.len() ==> key(#[trigger] s[k]) != key(x),
    ensures
        keys_unique(s.insert(j, x), key),
{
    let r = s.insert(j, x);
    assert forall|a: int, b: int| 0 <= a < r.len() && 0 <= b < r.len() && a != b implies key(
        #[trigger] r[a],
    ) != key(#[trigger] r[b]) by {
        if a == j {
            let b2 = if b < j { b } else { b - 1 };
            assert(r[b] == s[b2]);
        } else if b == j {
            let a2 = if a < j { a } else { a - 1 };
            assert(r[a] == s[a2]);
        } else {
            let a2 = if a < j { a } else { a - 1 };
            let b2 = if b < j { b } else { b - 1 };
            assert(r[a] == s[a2] && r[b] == s[b2]);
        }
    }
}

/// Sorting categories by display order and moving one of them keeps their
/// names unique.
proof fn lemma_reordered_unique(cs: Seq<CategoryView>, sv: Seq<CategoryView>, from: int, position: int)
    requires
        keys_unique(cs, category_key()),
        by_order(cs, sv),
        0 <= from < sv.len(),
        1 <= position <= sv.len(),
    ensures
        keys_unique(reordered(sv, from, position), category_key()),
{
    let key = category_key();
    let p = choose|p: Seq<int>|
        crate::order::stable_order(crate::db::categories::order_keys(cs), p)
            && crate::order::rearranged(cs, p, sv);
    assert(keys_unique(sv, key)) by {
        assert forall|a: int, b: int| 0 <= a < sv.len() && 0 <= b < sv.len() && a != b implies key(
            #[trigger] sv[a],
        ) != key(#[trigger] sv[b]) by {
            assert(sv[a] == cs[p[a]] && sv[b] == cs[p[b]]);
            if a < b {
                assert(p[a] != p[b]);
            } else {
                assert(p[b] != p[a]);
            }
        }
    }
    lemma_remove_unique(sv, key, from);
    let rest = sv.remove(from);
    assert forall|k: int| 0 <= k < rest.len() implies key(#[trigger] rest[k]) != key(sv[from]) by {
        let k2 = if k < from { k } else { k + 1 };
        assert(rest[k] == sv[k2]);
    }
    lemma_insert_unique(rest, key, position - 1, sv[from]);
    let moved = rest.insert(position - 1, sv[from]);
    lemma_same_keys_unique(moved, reordered(sv, from, position), key);
}

/// Changing records without changing their keys keeps the keys unique.
proof fn lemma_same_keys_unique<A, K>(s: Seq<A>, r: Seq<A>, key: spec_fn(A) -> K)
    requires
        keys_unique(s, key),
        r.len() == s.len(),
        forall|i: int| 0 <= i < s.len() ==> key(#[trigger] r[i]) == key(s[i]),
    ensures
        keys_unique(r, key),
{
    assert forall|a: int, b: int| 0 <= a < r.len() && 0 <= b < r.len() && a != b implies key(
        #[trigger] r[a],
    ) != key(#[trigger] r[b]) by {
        assert(key(r[a]) == key(s[a]) && key(r[b]) == key(s[b]));
    }
}

impl MemStore {
    /// Each table holds at most one record per key, as a keyed table does.
    #[verifier::type_invariant]
    spec fn keys_are_unique(self) -> bool {
        &&& keys_unique(projects_view(self.projects@), project_key())
        &&& keys_unique(tasks_view(self.tasks@), task_store_key())
        &&& keys_unique(notes_view(self.notes@), note_store_key())
        &&& keys_unique(categories_view(self.categories@), category_key())
    }
}

impl View for MemStore {
    type V = StoreView;

    closed spec fn view(&self) -> StoreView {
        StoreView {
            projects: projects_view(self.projects@),
            tasks: tasks_view(self.tasks@),
            notes: notes_view(self.notes@),
            categories: categories_view(self.categories@),
        }
    }
}

impl MemStore {
    fn take_projects(&mut self) -> (v: Vec<Project>)
        ensures
            v@ == old(self).projects@,
            final(self).projects@.len() == 0,
            final(self).tasks == old(self).tasks,
            final(self).notes == old(self).notes,
            final(self).categories == old(self).categories,
    {
        proof {
            use_type_invariant(&*self);
        }
        let mut v: Vec<Project> = Vec::new();
        assert(projects_view(v@) =~= Seq::empty());
        std::mem::swap(&mut v, &mut self.projects);
        v
    }

    fn take_tasks(&mut self) -> (v: Vec<Task>)
        ensures
            v@ == old(self).tasks@,
            final(self).tasks@.len() == 0,
            final(self).projects == old(self).projects,
            final(self).notes == old(self).notes,
            final(self).categories == old(self).categories,
    {
        proof {
            use_type_invariant(&*self);
        }
        let mut v: Vec<Task> = Vec::new();
        assert(tasks_view(v@) =~= Seq::empty());
        std::mem::swap(&mut v, &mut self.tasks);
        v
    }

    fn take_notes(&mut self) -> (v: Vec<Note>)
        ensures
            v@ == old(self).notes@,
            final(self).notes@.len() == 0,
            final(self).projects == old(self).projects,
            final(self).tasks == old(self).tasks,
            final(self).categories == old(self).categories,
    {
        proof {
            use_type_invariant(&*self);
        }
        let mut v: Vec<Note> = Vec::new();
        assert(notes_view(v@) =~= Seq::empty());
        std::mem::swap(&mut v, &mut self.notes);
        v
    }

    fn take_categories(&mut self) -> (v: Vec<Category>)
        ensures
            v@ == old(self).categories@,
            final(self).categories@.len() == 0,
            final(self).projects == old(self).projects,
            final(self).tasks == old(self).tasks,
            final(self).notes == old(self).notes,
    {
        proof {
            use_type_invariant(&*self);
        }
        let mut v: Vec<Category> = Vec::new();
        assert(categories_view(v@) =~= Seq::empty());
        std::mem::swap(&mut v, &mut self.categories);
        v
    }
}


/// The tasks of a scope, in store order.
pub open spec fn scope_tasks(s: StoreView, scope: Option<u128>) -> Seq<TaskView> {
    s.tasks.filter(in_scope(scope))
}

/// The notes of a scope, in store order.
pub open spec fn scope_notes(s: StoreView, scope: Option<u128>) -> Seq<NoteView> {
    s.notes.filter(note_in_scope(scope))
}

impl MemStore {
    /// An empty store.
    pub fn new() -> (s: Self)
        ensures
            s@.projects.len() == 0,
            s@.tasks.len() == 0,
            s@.notes.len() == 0,
            s@.categories.len() == 0,
    {
        let s = MemStore {
            projects: Vec::new(),
            tasks: Vec::new(),
            notes: Vec::new(),
            categories: Vec::new(),
        };
        assert(s@.projects =~= Seq::<ProjectView>::empty());
        assert(s@.tasks =~= Seq::<TaskView>::empty());
        assert(s@.notes =~= Seq::<NoteView>::empty());
        assert(s@.categories =~= Seq::<CategoryView>::empty());
        s
    }

    /// All projects, in store order.
    pub fn all_projects(&self) -> (r: &Vec<Project>)
        ensures
            projects_view(r@) == self@.projects,
    {
        &self.projects
    }

    /// All tasks, in store order.
    pub fn all_tasks(&self) -> (r: &Vec<Task>)
        ensures
            tasks_view(r@) == self@.tasks,
    {
        &self.tasks
    }

    /// All notes, in store order.
    pub fn all_notes(&self) -> (r: &Vec<Note>)
        ensures
            notes_view(r@) == self@.notes,
    {
        &self.notes
    }

    /// All categories, in store order.
    pub fn all_categories(&self) -> (r: &Vec<Category>)
        ensures
            categories_view(r@) == self@.categories,
    {
        &self.categories
    }

    // ── Projects ────────────────────────────────────────────────────────────

    /// Store `p` under its path, replacing the project registered there.
    pub fn put_project(&mut self, p: Project)
        ensures
            final(self)@ == (StoreView {
                projects: upsert(old(self)@.projects, at_path(p@.path), p@),
                ..old(self)@
            }),
    {
        proof {
            use_type_invariant(&*self);
        }
        let ghost s = projects_view(self.projects@);
        let found = find_by_path(&self.projects, p.path.as_str());
        let ghost key = p@.path;
        let mut ps = self.take_projects();
        match found {
            Some(i) => {
                ps.set(i, p);
            },
            None => {
                ps.push(p);
            },
        }
        assert(projects_view(ps@) =~= upsert(s, at_path(key), p@));
        proof {
            lemma_upsert_unique(s, at_path(key), project_key(), p@);
        }
        self.projects = ps;
    }

    /// Register a new project at the given canonical path; a project
    /// registered there before is replaced.
    pub fn create_project(&mut self, name: &str, path: &str) -> (p: Project)
        ensures
            p@.name == name@,
            p@.path == path@,
            p@.labels.len() == 0,
            p@.category is None,
            p@.git_remote is None,
            p@.created_at == p@.last_active,
            final(self)@ == (StoreView {
                projects: upsert(old(self)@.projects, at_path(path@), p@),
                ..old(self)@
            }),
    {
        let p = Project::new(name, path);
        self.put_project(p.clone());
        p
    }

    /// Look up a project by its exact registered path.
    pub fn get_project_by_path(&self, path: &str) -> (r: Option<Project>)
        ensures
            match r {
                Some(p) => lookup(self@.projects, at_path(path@)) == Some(p@),
                None => lookup(self@.projects, at_path(path@)) is None,
            },
    {
        match find_by_path(&self.projects, path) {
            Some(i) => Some(self.projects[i].clone()),
            None => None,
        }
    }

    /// Return all registered projects, most recently active first.
    pub fn list_projects(&self) -> (r: Vec<Project>)
        ensures
            by_recency(self@.projects, projects_view(r@)),
    {
        sort_by_recency(&self.projects)
    }

    /// Persist changes to an existing project (stored under its path).
    pub fn update_project(&mut self, project: &Project)
        ensures
            final(self)@ == (StoreView {
                projects: upsert(old(self)@.projects, at_path(project@.path), project@),
                ..old(self)@
            }),
    {
        self.put_project(project.clone());
    }

    /// Move a project to a new path: the record under the old path goes,
    /// the project is stored under its new path. Tasks and notes (keyed by
    /// project id) are untouched.
    pub fn relocate_project(&mut self, old_path: &str, project: &Project)
        ensures
            final(self)@ == (StoreView {
                projects: upsert(
                    remove_first(old(self)@.projects, at_path(old_path@)),
                    at_path(project@.path),
                    project@,
                ),
                ..old(self)@
            }),
            old_path@ != project@.path ==> lookup(final(self)@.projects, at_path(old_path@)) is None,
            lookup(final(self)@.projects, at_path(project@.path)) == Some(project@),
    {
        proof {
            use_type_invariant(&*self);
        }
        let ghost s = projects_view(self.projects@);
        let found = find_by_path(&self.projects, old_path);
        let mut ps = self.take_projects();
        match found {
            Some(i) => {
                ps.remove(i);
            },
            None => {},
        }
        assert(projects_view(ps@) =~= remove_first(s, at_path(old_path@)));
        proof {
            lemma_remove_first_unique(s, at_path(old_path@), project_key(), old_path@);
        }
        self.projects = ps;
        let ghost mid = projects_view(self.projects@);
        self.put_project(project.clone());
        proof {
            lemma_lookup_upsert(mid, at_path(project@.path), project@);
            if old_path@ != project@.path {
                lemma_lookup_upsert_other(mid, at_path(project@.path), at_path(old_path@), project@);
            }
        }
    }

    /// Set `last_active` of the project with id `project_id` to `now`.
    /// No-ops silently if the id is not found.
    pub fn touch_project(&mut self, project_id: u128, now: i64)
        ensures
            final(self)@ == (StoreView {
                projects: touch(old(self)@.projects, Some(project_id), now),
                ..old(self)@
            }),
    {
        proof {
            use_type_invariant(&*self);
        }
        let ghost s = projects_view(self.projects@);
        let found = find_by_id(&self.projects, project_id);
        let mut ps = self.take_projects();
        match found {
            Some(i) => {
                let mut p = ps[i].clone();
                p.last_active = now;
                ps.set(i, p);
            },
            None => {},
        }
        assert(projects_view(ps@) =~= touch(s, Some(project_id), now));
        proof {
            lemma_same_keys_unique(s, projects_view(ps@), project_key());
        }
        self.projects = ps;
    }

    fn touch_scope(&mut self, scope: Option<u128>, now: i64)
        ensures
            final(self)@ == (StoreView {
                projects: touch(old(self)@.projects, scope, now),
                ..old(self)@
            }),
    {
        match scope {
            Some(pid) => self.touch_project(pid, now),
            None => {},
        }
    }

    /// Delete a project and all its tasks and notes.
    pub fn delete_project(&mut self, project: &Project)
        ensures
            final(self)@ == (StoreView {
                projects: remove_first(old(self)@.projects, at_path(project@.path)),
                tasks: old(self)@.tasks.filter(task_outside(project@.id)),
                notes: old(self)@.notes.filter(note_outside(project@.id)),
                categories: old(self)@.categories,
            }),
            lookup(final(self)@.projects, at_path(project@.path)) is None,
    {
        proof {
            use_type_invariant(&*self);
        }
        let ghost s = projects_view(self.projects@);
        let found = find_by_path(&self.projects, project.path.as_str());
        let mut ps = self.take_projects();
        match found {
            Some(i) => {
                ps.remove(i);
            },
            None => {},
        }
        assert(projects_view(ps@) =~= remove_first(s, at_path(project@.path)));
        proof {
            lemma_remove_first_unique(s, at_path(project@.path), project_key(), project@.path);
        }
        self.projects = ps;
        let id = project.id;
        let ghost ts = tasks_view(self.tasks@);
        let mut kept: Vec<Task> = Vec::new();
        let mut i: usize = 0;
        while i < self.tasks.len()
            invariant
                i <= self.tasks.len(),
                ts == tasks_view(self.tasks@),
                tasks_view(kept@) == ts.take(i as int).filter(task_outside(id)),
            decreases self.tasks.len() - i,
        {
            proof {
                reveal(Seq::filter);
                assert(ts.take(i as int + 1).drop_last() =~= ts.take(i as int));
            }
            if self.tasks[i].project_id != Some(id) {
                kept.push(self.tasks[i].clone());
                assert(tasks_view(kept@) =~= ts.take(i as int).filter(task_outside(id)).push(
                    ts[i as int],
                ));
            }
            i = i + 1;
        }
        assert(ts.take(ts.len() as int) =~= ts);
        proof {
            use_type_invariant(&*self);
            lemma_filter_unique(ts, task_outside(id), task_store_key());
        }
        self.tasks = kept;
        let ghost ns = notes_view(self.notes@);
        let mut kept_notes: Vec<Note> = Vec::new();
        let mut j: usize = 0;
        while j < self.notes.len()
            invariant
                j <= self.notes.len(),
                ns == notes_view(self.notes@),
                notes_view(kept_notes@) == ns.take(j as int).filter(note_outside(id)),
            decreases self.notes.len() - j,
        {
            proof {
                reveal(Seq::filter);
                assert(ns.take(j as int + 1).drop_last() =~= ns.take(j as int));
            }
            if self.notes[j].project_id != Some(id) {
                kept_notes.push(self.notes[j].clone());
                assert(notes_view(kept_notes@) =~= ns.take(j as int).filter(note_outside(id)).push(
                    ns[j as int],
                ));
            }
            j = j + 1;
        }
        assert(ns.take(ns.len() as int) =~= ns);
        proof {
            use_type_invariant(&*self);
            lemma_filter_unique(ns, note_outside(id), note_store_key());
        }
        self.notes = kept_notes;
    }
}

/// `s` with each task of `us` stored under its key, in order.
pub open spec fn upsert_tasks(s: Seq<TaskView>, us: Seq<TaskView>) -> Seq<TaskView>
    decreases us.len(),
{
    if us.len() == 0 {
        s
    } else {
        let prev = upsert_tasks(s, us.drop_last());
        upsert(prev, task_key_is(us.last().project_id, us.last().id), us.last())
    }
}

/// The predicate "survives removing task `id`": neither the task nor one
/// of its subtasks.
pub open spec fn survives_removal(id: u128) -> spec_fn(TaskView) -> bool {
    |t: TaskView| t.id != id && t.parent_id != Some(id)
}

impl MemStore {
    // ── Tasks ───────────────────────────────────────────────────────────────

    fn find_task_key(&self, scope: Option<u128>, id: u128) -> (r: Option<usize>)
        ensures
            match r {
                Some(i) => i < self.tasks.len() && first_where(self@.tasks, task_key_is(scope, id))
                    == Some(i as int),
                None => first_where(self@.tasks, task_key_is(scope, id)) is None,
            },
    {
        let ghost s = tasks_view(self.tasks@);
        let mut i: usize = 0;
        while i < self.tasks.len()
            invariant
                i <= self.tasks.len(),
                s == tasks_view(self.tasks@),
                forall|k: int| 0 <= k < i ==> !task_key_is(scope, id)(#[trigger] s[k]),
            decreases self.tasks.len() - i,
        {
            if self.tasks[i].project_id == scope && self.tasks[i].id == id {
                proof {
                    lemma_first_where(s, task_key_is(scope, id), i as int);
                }
                return Some(i);
            }
            i = i + 1;
        }
        proof {
            lemma_first_where(s, task_key_is(scope, id), i as int);
        }
        None
    }

    /// Store `t` under its key (scope and id), replacing the task stored there.
    pub fn put_task(&mut self, t: Task)
        ensures
            final(self)@ == (StoreView {
                tasks: upsert(old(self)@.tasks, task_key_is(t@.project_id, t@.id), t@),
                ..old(self)@
            }),
    {
        proof {
            use_type_invariant(&*self);
        }
        let ghost s = tasks_view(self.tasks@);
        let ghost tv = t@;
        let found = self.find_task_key(t.project_id, t.id);
        let mut ts = self.take_tasks();
        match found {
            Some(i) => {
                ts.set(i, t);
            },
            None => {
                ts.push(t);
            },
        }
        assert(tasks_view(ts@) =~= upsert(s, task_key_is(tv.project_id, tv.id), tv));
        proof {
            lemma_upsert_unique(s, task_key_is(tv.project_id, tv.id), task_store_key(), tv);
        }
        self.tasks = ts;
    }

    /// The tasks of a scope, in store order.
    pub fn scope_tasks(&self, project_id: Option<u128>) -> (r: Vec<Task>)
        ensures
            tasks_view(r@) == scope_tasks(self@, project_id),
    {
        tasks_in_scope(&self.tasks, project_id)
    }

    /// Add a new task to a project (or the global list when `project_id`
    /// is `None`), active at `now`. A top-level task takes the next open
    /// display index of its scope; a subtask of `parent_id` takes display
    /// index 0 and the next sub-index among that parent's subtasks.
    pub fn add_task(&mut self, project_id: Option<u128>, content: &str, parent_id: Option<u128>, now: i64) -> (t: Task)
        requires
            parent_id is None ==> max_open_index(scope_tasks(old(self)@, project_id)) < u32::MAX,
            parent_id matches Some(p) ==> max_sub_index(scope_tasks(old(self)@, project_id), p)
                < u32::MAX,
        ensures
            t@.project_id == project_id,
            t@.content == content@,
            t@.status == TaskStatus::Open,
            t@.progress == 0,
            t@.completed_index is None,
            t@.deferred_index is None,
            t@.parent_id == parent_id,
            t@.tags.len() == 0,
            t@.created_at == t@.updated_at,
            representable(t@.created_at),
            match parent_id {
                None => t@.display_index == max_open_index(scope_tasks(old(self)@, project_id)) + 1
                    && t@.sub_index is None,
                Some(p) => t@.display_index == 0 && t@.sub_index == Some(
                    (max_sub_index(scope_tasks(old(self)@, project_id), p) + 1) as u32,
                ),
            },
            final(self)@ == (StoreView {
                tasks: upsert(old(self)@.tasks, task_key_is(project_id, t@.id), t@),
                projects: touch(old(self)@.projects, project_id, now),
                ..old(self)@
            }),
    {
        let scope = self.scope_tasks(project_id);
        let t = new_task(&scope, project_id, content, parent_id);
        self.put_task(t.clone());
        self.touch_scope(project_id, now);
        t
    }

    /// Retrieve an open task by its display index within a scope.
    pub fn get_open_task(&self, project_id: Option<u128>, display_index: u32) -> (r: Option<Task>)
        ensures
            opt_task_view(r) == find_task(scope_tasks(self@, project_id), open_at(display_index)),
    {
        let scope = self.scope_tasks(project_id);
        get_open_task(&scope, display_index)
    }

    /// Retrieve a task by its id, in any scope.
    pub fn get_task_by_id(&self, id: u128) -> (r: Option<Task>)
        ensures
            opt_task_view(r) == find_task(self@.tasks, task_id_is(id)),
    {
        let ghost s = tasks_view(self.tasks@);
        let mut i: usize = 0;
        while i < self.tasks.len()
            invariant
                i <= self.tasks.len(),
                s == tasks_view(self.tasks@),
                forall|k: int| 0 <= k < i ==> !task_id_is(id)(#[trigger] s[k]),
            decreases self.tasks.len() - i,
        {
            if self.tasks[i].id == id {
                proof {
                    lemma_first_where(s, task_id_is(id), i as int);
                }
                return Some(self.tasks[i].clone());
            }
            i = i + 1;
        }
        proof {
            lemma_first_where(s, task_id_is(id), i as int);
        }
        None
    }

    /// All tasks of a project (or the global list), ordered by display index.
    pub fn list_tasks(&self, project_id: Option<u128>) -> (r: Vec<Task>)
        ensures
            sorted_by_index(scope_tasks(self@, project_id), tasks_view(r@)),
    {
        list_tasks(&self.tasks, project_id)
    }

    /// Persist changes to an existing task (stored under its scope and id);
    /// its project becomes active at `now`.
    pub fn update_task(&mut self, task: &Task, now: i64)
        ensures
            final(self)@ == (StoreView {
                tasks: upsert(old(self)@.tasks, task_key_is(task@.project_id, task@.id), task@),
                projects: touch(old(self)@.projects, task@.project_id, now),
                ..old(self)@
            }),
    {
        self.put_task(task.clone());
        self.touch_scope(task.project_id, now);
    }

    /// Remove a task together with its subtasks.
    pub fn delete_task(&mut self, id: u128)
        ensures
            final(self)@ == (StoreView {
                tasks: old(self)@.tasks.filter(survives_removal(id)),
                ..old(self)@
            }),
    {
        let ghost ts = tasks_view(self.tasks@);
        let mut kept: Vec<Task> = Vec::new();
        let mut i: usize = 0;
        while i < self.tasks.len()
            invariant
                i <= self.tasks.len(),
                ts == tasks_view(self.tasks@),
                tasks_view(kept@) == ts.take(i as int).filter(survives_removal(id)),
            decreases self.tasks.len() - i,
        {
            proof {
                reveal(Seq::filter);
                assert(ts.take(i as int + 1).drop_last() =~= ts.take(i as int));
            }
            if self.tasks[i].id != id && self.tasks[i].parent_id != Some(id) {
                kept.push(self.tasks[i].clone());
                assert(tasks_view(kept@) =~= ts.take(i as int).filter(survives_removal(id)).push(
                    ts[i as int],
                ));
            }
            i = i + 1;
        }
        assert(ts.take(ts.len() as int) =~= ts);
        proof {
            use_type_invariant(&*self);
            lemma_filter_unique(ts, survives_removal(id), task_store_key());
        }
        self.tasks = kept;
    }

    /// The next available display index for open tasks in a scope.
    pub fn next_open_display_index(&self, project_id: Option<u128>) -> (r: u32)
        requires
            max_open_index(scope_tasks(self@, project_id)) < u32::MAX,
        ensures
            r == max_open_index(scope_tasks(self@, project_id)) + 1,
    {
        let scope = self.scope_tasks(project_id);
        crate::db::tasks::next_open_display_index(&scope)
    }

    /// The next available index for completed tasks in a scope.
    pub fn next_completed_index(&self, project_id: Option<u128>) -> (r: u32)
        requires
            max_completed_index(scope_tasks(self@, project_id)) < u32::MAX,
        ensures
            r == max_completed_index(scope_tasks(self@, project_id)) + 1,
    {
        let scope = self.scope_tasks(project_id);
        crate::db::tasks::next_completed_index(&scope)
    }

    /// The next available index for deferred tasks in a scope.
    pub fn next_deferred_index(&self, project_id: Option<u128>) -> (r: u32)
        requires
            max_deferred_index(scope_tasks(self@, project_id)) < u32::MAX,
        ensures
            r == max_deferred_index(scope_tasks(self@, project_id)) + 1,
    {
        let scope = self.scope_tasks(project_id);
        crate::db::tasks::next_deferred_index(&scope)
    }

    /// Reassign sequential display indices (1, 2, …) to the open top-level
    /// tasks of a scope, ordered by their current display index; each task
    /// whose index changes is stored again, updated at `now`, and the
    /// project becomes active at `now` when any did.
    pub fn reindex_open_tasks(&mut self, project_id: Option<u128>, now: i64)
        requires
            old(self)@.tasks.len() < u32::MAX,
        ensures
            reindexed(old(self)@, final(self)@, project_id, now),
    {
        proof {
            use_type_invariant(&*self);
        }
        let scope = self.scope_tasks(project_id);
        proof {
            old(self)@.tasks.lemma_filter_len(in_scope(project_id));
        }
        let updates = reindex_open_tasks(&scope, now);
        let ghost sorted = choose|sorted: Seq<TaskView>|
            sorted_by_index(tasks_view(scope@).filter(open_top_level()), sorted) && tasks_view(updates@)
                == renumber_updates(sorted, now);
        proof {
            lemma_sorted_scope_members(old(self)@.tasks, project_id, sorted);
            lemma_upsert_renumbered(old(self)@.tasks, sorted, project_id, now);
        }
        let ghost us = tasks_view(updates@);
        let ghost start = self@;
        let mut k: usize = 0;
        while k < updates.len()
            invariant
                k <= updates.len(),
                us == tasks_view(updates@),
                self@ == (StoreView { tasks: upsert_tasks(start.tasks, us.take(k as int)), ..start }),
            decreases updates.len() - k,
        {
            assert(us.take(k as int + 1).drop_last() =~= us.take(k as int));
            self.put_task(updates[k].clone());
            k = k + 1;
        }
        assert(us.take(us.len() as int) =~= us);
        if updates.len() > 0 {
            self.touch_scope(project_id, now);
        }
        assert(renumber_updates(sorted, now) == us);
    }

    /// Change the status of `task`, a task of the scope `project_id`, as
    /// `moco status` does: the changed task is stored (its project active
    /// at `now`), and when it left the open list the scope's open
    /// top-level tasks are renumbered 1, 2, …. Opening an open task changes
    /// nothing. Returns the task as changed and what was done.
    pub fn set_status(&mut self, project_id: Option<u128>, task: &Task, value: StatusValue, now: i64) -> (r: (Task, StatusOutcome))
        requires
            status_fits(task@, value, scope_tasks(old(self)@, project_id)),
            old(self)@.tasks.len() + 1 < u32::MAX,
        ensures
            r.0@ == status_after(task@, value, scope_tasks(old(self)@, project_id), now),
            r.1.changed == status_changes(task@, value),
            r.1.reindex == status_needs_reindex(task@, value),
            !r.1.changed ==> final(self)@ == old(self)@,
            r.1.changed && !r.1.reindex ==> final(self)@ == stored_task(old(self)@, r.0@, now),
            r.1.reindex ==> reindexed(stored_task(old(self)@, r.0@, now), final(self)@, project_id, now),
    {
        let scope = self.scope_tasks(project_id);
        let mut t = task.clone();
        let outcome = apply_status(&mut t, value, &scope, now);
        if !outcome.changed {
            return (t, outcome);
        }
        let ghost before = self@;
        self.update_task(&t, now);
        proof {
            crate::order::lemma_first_where_props(before.tasks, task_key_is(t@.project_id, t@.id));
        }
        if outcome.reindex {
            self.reindex_open_tasks(project_id, now);
        }
        (t, outcome)
    }
}

/// The store after `t` is stored under its key, its project active at `now`.
pub open spec fn stored_task(s: StoreView, t: TaskView, now: i64) -> StoreView {
    StoreView {
        tasks: upsert(s.tasks, task_key_is(t.project_id, t.id), t),
        projects: touch(s.projects, t.project_id, now),
        ..s
    }
}

/// `after` is `before` with the open top-level tasks of `scope` renumbered
/// 1, 2, … in display-index order, each moved task stored again, updated at
/// `now`, and the project active at `now` when any moved.
/// After it, a lookup of each of those tasks finds it numbered by its
/// position (`renumbered`), and a lookup of any other key finds what it
/// found before.
pub open spec fn reindexed(before: StoreView, after: StoreView, scope: Option<u128>, now: i64) -> bool {
    exists|sorted: Seq<TaskView>|
        #![trigger renumber_updates(sorted, now)]
        sorted_by_index(scope_tasks(before, scope).filter(open_top_level()), sorted) && after == (
        StoreView {
            tasks: upsert_tasks(before.tasks, renumber_updates(sorted, now)),
            projects: if renumber_updates(sorted, now).len() > 0 {
                touch(before.projects, scope, now)
            } else {
                before.projects
            },
            ..before
        }) && (forall|k: int|
            0 <= k < sorted.len() ==> lookup(after.tasks, task_key_is(scope, #[trigger] sorted[k].id))
                == Some(renumbered(sorted, now)[k])) && (forall|sc: Option<u128>, id: u128|
            (sc != scope || forall|k: int| 0 <= k < sorted.len() ==> sorted[k].id != id) ==> #[trigger] lookup(
                after.tasks,
                task_key_is(sc, id),
            ) == lookup(before.tasks, task_key_is(sc, id)))
}

/// `p` with the category `name` cleared, for each project in it.
pub open spec fn without_category(ps: Seq<ProjectView>, name: Seq<char>) -> Seq<ProjectView> {
    ps.map_values(|p: ProjectView| uncategorised(p, name))
}

impl MemStore {
    /// The projects that carry `label` (exactly), most recently active
    /// first, each with its tasks ordered by display index.
    pub fn list_tasks_by_label(&self, label: &String) -> (r: Vec<(Project, Vec<Task>)>)
        ensures
            exists|ps: Seq<ProjectView>|
                by_recency(self@.projects, ps) && r@.len() == ps.filter(
                    crate::db::projects::labelled(label@),
                ).len() && forall|k: int|
                    0 <= k < r@.len() ==> (#[trigger] r@[k]).0@ == ps.filter(
                        crate::db::projects::labelled(label@),
                    )[k] && sorted_by_index(scope_tasks(self@, Some(r@[k].0.id)), tasks_view(r@[k].1@)),
    {
        let projects = self.list_projects();
        let labelled = crate::db::projects::projects_with_label(&projects, label);
        let ghost lv = projects_view(labelled@);
        let mut r: Vec<(Project, Vec<Task>)> = Vec::new();
        let mut i: usize = 0;
        while i < labelled.len()
            invariant
                i <= labelled.len(),
                lv == projects_view(labelled@),
                r@.len() == i,
                forall|k: int|
                    0 <= k < i ==> (#[trigger] r@[k]).0@ == lv[k] && sorted_by_index(
                        scope_tasks(self@, Some(r@[k].0.id)),
                        tasks_view(r@[k].1@),
                    ),
            decreases labelled.len() - i,
        {
            let p = labelled[i].clone();
            let tasks = self.list_tasks(Some(p.id));
            r.push((p, tasks));
            i = i + 1;
        }
        r
    }

    /// The tasks of a scope that carry `tag`, ordered by display index.
    pub fn list_tasks_by_tag(&self, project_id: Option<u128>, tag: &String) -> (r: Vec<Task>)
        ensures
            exists|sorted: Seq<TaskView>|
                sorted_by_index(scope_tasks(self@, project_id), sorted) && tasks_view(r@)
                    == sorted.filter(crate::db::tasks::has_tag(tag@)),
    {
        let sorted = self.list_tasks(project_id);
        crate::db::tasks::list_tasks_by_tag(&sorted, tag)
    }

    // ── Notes ───────────────────────────────────────────────────────────────

    fn find_note_key(&self, scope: Option<u128>, id: u128) -> (r: Option<usize>)
        ensures
            match r {
                Some(i) => i < self.notes.len() && first_where(self@.notes, note_key_is(scope, id))
                    == Some(i as int),
                None => first_where(self@.notes, note_key_is(scope, id)) is None,
            },
    {
        let ghost s = notes_view(self.notes@);
        let mut i: usize = 0;
        while i < self.notes.len()
            invariant
                i <= self.notes.len(),
                s == notes_view(self.notes@),
                forall|k: int| 0 <= k < i ==> !note_key_is(scope, id)(#[trigger] s[k]),
            decreases self.notes.len() - i,
        {
            if self.notes[i].project_id == scope && self.notes[i].id == id {
                proof {
                    lemma_first_where(s, note_key_is(scope, id), i as int);
                }
                return Some(i);
            }
            i = i + 1;
        }
        proof {
            lemma_first_where(s, note_key_is(scope, id), i as int);
        }
        None
    }

    /// Store `n` under its key (scope and id), replacing the note stored there.
    pub fn put_note(&mut self, n: Note)
        ensures
            final(self)@ == (StoreView {
                notes: upsert(old(self)@.notes, note_key_is(n@.project_id, n@.id), n@),
                ..old(self)@
            }),
    {
        proof {
            use_type_invariant(&*self);
        }
        let ghost s = notes_view(self.notes@);
        let ghost nv = n@;
        let found = self.find_note_key(n.project_id, n.id);
        let mut ns = self.take_notes();
        match found {
            Some(i) => {
                ns.set(i, n);
            },
            None => {
                ns.push(n);
            },
        }
        assert(notes_view(ns@) =~= upsert(s, note_key_is(nv.project_id, nv.id), nv));
        proof {
            lemma_upsert_unique(s, note_key_is(nv.project_id, nv.id), note_store_key(), nv);
        }
        self.notes = ns;
    }

    /// The notes of a scope, in store order.
    pub fn scope_notes(&self, project_id: Option<u128>) -> (r: Vec<Note>)
        ensures
            notes_view(r@) == scope_notes(self@, project_id),
    {
        let ghost s = notes_view(self.notes@);
        let mut r: Vec<Note> = Vec::new();
        let mut i: usize = 0;
        while i < self.notes.len()
            invariant
                i <= self.notes.len(),
                s == notes_view(self.notes@),
                notes_view(r@) == s.take(i as int).filter(note_in_scope(project_id)),
            decreases self.notes.len() - i,
        {
            proof {
                reveal(Seq::filter);
                assert(s.take(i as int + 1).drop_last() =~= s.take(i as int));
            }
            if self.notes[i].project_id == project_id {
                r.push(self.notes[i].clone());
                assert(notes_view(r@) =~= s.take(i as int).filter(note_in_scope(project_id)).push(
                    s[i as int],
                ));
            }
            i = i + 1;
        }
        assert(s.take(s.len() as int) =~= s);
        r
    }

    /// Add a note to a project (or the global list) with the next display
    /// index of its scope.
    pub fn add_note(&mut self, project_id: Option<u128>, title: &str, content: &str) -> (n: Note)
        requires
            max_note_index(scope_notes(old(self)@, project_id)) < u32::MAX,
        ensures
            n@.project_id == project_id,
            n@.title == title@,
            n@.content == content@,
            n@.display_index == max_note_index(scope_notes(old(self)@, project_id)) + 1,
            n@.created_at == n@.updated_at,
            final(self)@ == (StoreView {
                notes: upsert(old(self)@.notes, note_key_is(project_id, n@.id), n@),
                ..old(self)@
            }),
    {
        let scope = self.scope_notes(project_id);
        let n = new_note(&scope, project_id, title, content);
        self.put_note(n.clone());
        n
    }

    /// Retrieve a note by its display index within a scope.
    pub fn get_note(&self, project_id: Option<u128>, display_index: u32) -> (r: Option<Note>)
        ensures
            opt_note_view(r) == lookup(scope_notes(self@, project_id), note_at(display_index)),
    {
        let scope = self.scope_notes(project_id);
        get_note(&scope, display_index)
    }

    /// All notes of a scope, ordered by display index.
    pub fn list_notes(&self, project_id: Option<u128>) -> (r: Vec<Note>)
        ensures
            notes_sorted(scope_notes(self@, project_id), notes_view(r@)),
    {
        list_notes(&self.notes, project_id)
    }

    /// Persist changes to an existing note (stored under its scope and id).
    pub fn update_note(&mut self, note: &Note)
        ensures
            final(self)@ == (StoreView {
                notes: upsert(old(self)@.notes, note_key_is(note@.project_id, note@.id), note@),
                ..old(self)@
            }),
    {
        self.put_note(note.clone());
    }

    /// Delete the first note with the given id, in any scope.
    pub fn delete_note(&mut self, note_id: u128)
        ensures
            final(self)@ == (StoreView {
                notes: remove_first(old(self)@.notes, note_with_id(note_id)),
                ..old(self)@
            }),
    {
        proof {
            use_type_invariant(&*self);
        }
        let ghost s = notes_view(self.notes@);
        let found = find_note_by_id(&self.notes, note_id);
        let mut ns = self.take_notes();
        match found {
            Some(i) => {
                ns.remove(i);
            },
            None => {},
        }
        assert(notes_view(ns@) =~= remove_first(s, note_with_id(note_id)));
        proof {
            lemma_remove_first_unique(s, note_with_id(note_id), note_store_key(), (None::<u128>, note_id));
        }
        self.notes = ns;
    }

    /// The next available display index for notes in a scope.
    pub fn next_note_display_index(&self, project_id: Option<u128>) -> (r: u32)
        requires
            max_note_index(scope_notes(self@, project_id)) < u32::MAX,
        ensures
            r == max_note_index(scope_notes(self@, project_id)) + 1,
    {
        let scope = self.scope_notes(project_id);
        next_note_display_index(&scope)
    }

    // ── Categories ──────────────────────────────────────────────────────────

    /// Store `c` under its name, replacing the category stored there.
    pub fn put_category(&mut self, c: Category)
        ensures
            final(self)@ == (StoreView {
                categories: upsert(old(self)@.categories, named(c@.name), c@),
                ..old(self)@
            }),
    {
        proof {
            use_type_invariant(&*self);
        }
        let ghost s = categories_view(self.categories@);
        let ghost cv = c@;
        let found = find_category(&self.categories, c.name.as_str());
        let mut cs = self.take_categories();
        match found {
            Some(i) => {
                cs.set(i, c);
            },
            None => {
                cs.push(c);
            },
        }
        assert(categories_view(cs@) =~= upsert(s, named(cv.name), cv));
        proof {
            lemma_upsert_unique(s, named(cv.name), category_key(), cv);
        }
        self.categories = cs;
    }

    /// Register a new category, last in display order.
    pub fn create_category(&mut self, name: &str) -> (c: Category)
        requires
            max_order(old(self)@.categories) < u32::MAX,
        ensures
            c@.name == name@,
            c@.order == max_order(old(self)@.categories) + 1,
            final(self)@ == (StoreView {
                categories: upsert(old(self)@.categories, named(name@), c@),
                ..old(self)@
            }),
    {
        let order = next_category_order(&self.categories);
        let c = Category::new(name, order);
        self.put_category(c.clone());
        c
    }

    /// Look up a category by name.
    pub fn get_category(&self, name: &str) -> (r: Option<Category>)
        ensures
            match r {
                Some(c) => lookup(self@.categories, named(name@)) == Some(c@),
                None => lookup(self@.categories, named(name@)) is None,
            },
    {
        match find_category(&self.categories, name) {
            Some(i) => Some(self.categories[i].clone()),
            None => None,
        }
    }

    /// All categories in display order.
    pub fn list_categories(&self) -> (r: Vec<Category>)
        ensures
            by_order(self@.categories, categories_view(r@)),
    {
        list_categories(&self.categories)
    }

    /// Remove a category; projects assigned to it lose their category.
    pub fn delete_category(&mut self, name: &str)
        ensures
            final(self)@ == (StoreView {
                categories: remove_first(old(self)@.categories, named(name@)),
                projects: without_category(old(self)@.projects, name@),
                ..old(self)@
            }),
    {
        proof {
            use_type_invariant(&*self);
        }
        let ghost cs = categories_view(self.categories@);
        let found = find_category(&self.categories, name);
        let mut cats = self.take_categories();
        match found {
            Some(i) => {
                cats.remove(i);
            },
            None => {},
        }
        assert(categories_view(cats@) =~= remove_first(cs, named(name@)));
        proof {
            lemma_remove_first_unique(cs, named(name@), category_key(), name@);
        }
        self.categories = cats;
        proof {
            use_type_invariant(&*self);
        }
        let ghost ps = projects_view(self.projects@);
        let mut projects = self.take_projects();
        let mut i: usize = 0;
        while i < projects.len()
            invariant
                i <= projects.len(),
                ps.len() == projects.len(),
                forall|k: int| 0 <= k < i ==> #[trigger] projects@[k]@ == uncategorised(ps[k], name@),
                forall|k: int| i <= k < ps.len() ==> #[trigger] projects@[k]@ == ps[k],
            decreases projects.len() - i,
        {
            let in_it = match &projects[i].category {
                Some(c) => crate::text::str_eq(c.as_str(), name),
                None => false,
            };
            if in_it {
                let mut p = projects[i].clone();
                p.category = None;
                projects.set(i, p);
            }
            i = i + 1;
        }
        assert(projects_view(projects@) =~= without_category(ps, name@));
        proof {
            lemma_same_keys_unique(ps, projects_view(projects@), project_key());
        }
        self.projects = projects;
    }

    /// Move category `name` to the 1-based `position` of the display order
    /// and renumber all categories 1, 2, ….
    pub fn reorder_category(&mut self, name: &str, position: usize)
        requires
            1 <= position <= old(self)@.categories.len(),
            old(self)@.categories.len() < u32::MAX,
            lookup(old(self)@.categories, named(name@)) is Some,
        ensures
            exists|sorted: Seq<CategoryView>|
                by_order(old(self)@.categories, sorted) && first_where(sorted, named(name@)) is Some
                    && final(self)@ == (StoreView {
                    categories: reordered(sorted, first_where(sorted, named(name@))->0, position as int),
                    ..old(self)@
                }),
    {
        let sorted = list_categories(&self.categories);
        proof {
            let cs = old(self)@.categories;
            let sv = categories_view(sorted@);
            crate::order::lemma_first_where_props(cs, named(name@));
            let i = first_where(cs, named(name@))->0;
            let p = choose|p: Seq<int>|
                crate::order::stable_order(crate::db::categories::order_keys(cs), p)
                    && crate::order::rearranged(cs, p, sv);
            crate::order::lemma_permutation_onto(p, cs.len(), i);
            let k = choose|k: int| 0 <= k < cs.len() && p[k] == i;
            assert(sv[k] == cs[i]);
            crate::order::lemma_first_where_props(sv, named(name@));
            use_type_invariant(&*self);
            lemma_reordered_unique(cs, sv, first_where(sv, named(name@))->0, position as int);
        }
        let r = reorder_categories(&sorted, name, position);
        self.categories = r;
    }
}

// ── Laws ────────────────────────────────────────────────────────────────────

/// A record stored under a key is what a lookup of that key finds.
pub proof fn lemma_lookup_upsert<A>(s: Seq<A>, p: spec_fn(A) -> bool, x: A)
    requires
        p(x),
    ensures
        lookup(upsert(s, p, x), p) == Some(x),
{
    crate::order::lemma_first_where_props(s, p);
    let t = upsert(s, p, x);
    match first_where(s, p) {
        Some(i) => {
            assert forall|k: int| 0 <= k < i implies !p(#[trigger] t[k]) by {
                assert(t[k] == s[k]);
            }
            lemma_first_where(t, p, i);
        },
        None => {
            assert forall|k: int| 0 <= k < s.len() implies !p(#[trigger] t[k]) by {
                assert(t[k] == s[k]);
            }
            lemma_first_where(t, p, s.len() as int);
        },
    }
}

/// Storing a record under one key leaves what a lookup of another key finds.
pub proof fn lemma_lookup_upsert_other<A>(s: Seq<A>, p: spec_fn(A) -> bool, q: spec_fn(A) -> bool, x: A)
    requires
        !q(x),
        forall|y: A| #[trigger] q(y) ==> !p(y),
    ensures
        lookup(upsert(s, p, x), q) == lookup(s, q),
{
    crate::order::lemma_first_where_props(s, p);
    crate::order::lemma_first_where_props(s, q);
    let t = upsert(s, p, x);
    let j = match first_where(s, q) {
        Some(j) => j,
        None => s.len() as int,
    };
    match first_where(s, p) {
        Some(i) => {
            assert(p(s[i]));
            assert(!q(s[i]));
            assert forall|k: int| 0 <= k < j implies !q(#[trigger] t[k]) by {
                if k != i {
                    assert(t[k] == s[k]);
                }
            }
            if j < s.len() {
                assert(t[j] == s[j]);
            }
            lemma_first_where(t, q, j);
        },
        None => {
            let jt = if j < s.len() { j } else { t.len() as int };
            assert forall|k: int| 0 <= k < jt implies !q(#[trigger] t[k]) by {
                if k < s.len() {
                    assert(t[k] == s[k]);
                } else {
                    assert(t[k] == x);
                }
            }
            if j < s.len() {
                assert(t[j] == s[j]);
            }
            lemma_first_where(t, q, jt);
        },
    }
}

/// Reading a project back by its path after storing it (`create_project`,
/// `update_project`, `relocate_project`) gives the stored project, and the
/// projects at other paths are as they were.
pub proof fn lemma_project_read_after_write(ps: Seq<ProjectView>, p: ProjectView, path: Seq<char>)
    ensures
        lookup(upsert(ps, at_path(p.path), p), at_path(p.path)) == Some(p),
        path != p.path ==> lookup(upsert(ps, at_path(p.path), p), at_path(path)) == lookup(
            ps,
            at_path(path),
        ),
{
    lemma_lookup_upsert(ps, at_path(p.path), p);
    if path != p.path {
        assert forall|y: ProjectView| #[trigger] at_path(path)(y) implies !at_path(p.path)(y) by {}
        lemma_lookup_upsert_other(ps, at_path(p.path), at_path(path), p);
    }
}

/// Reading a task back by its key after storing it (`add_task`,
/// `update_task`) gives the stored task, and tasks under other keys are as
/// they were.
pub proof fn lemma_task_read_after_write(ts: Seq<TaskView>, t: TaskView, scope: Option<u128>, id: u128)
    ensures
        lookup(upsert(ts, task_key_is(t.project_id, t.id), t), task_key_is(t.project_id, t.id))
            == Some(t),
        (scope, id) != (t.project_id, t.id) ==> lookup(
            upsert(ts, task_key_is(t.project_id, t.id), t),
            task_key_is(scope, id),
        ) == lookup(ts, task_key_is(scope, id)),
{
    lemma_lookup_upsert(ts, task_key_is(t.project_id, t.id), t);
    if (scope, id) != (t.project_id, t.id) {
        assert forall|y: TaskView| #[trigger] task_key_is(scope, id)(y) implies !task_key_is(
            t.project_id,
            t.id,
        )(y) by {}
        lemma_lookup_upsert_other(ts, task_key_is(t.project_id, t.id), task_key_is(scope, id), t);
    }
}

/// Filtering by a weaker predicate first changes nothing.
proof fn lemma_filter_filter<A>(s: Seq<A>, p: spec_fn(A) -> bool, q: spec_fn(A) -> bool)
    requires
        forall|x: A| #[trigger] q(x) ==> p(x),
    ensures
        s.filter(p).filter(q) == s.filter(q),
    decreases s.len(),
{
    reveal(Seq::filter);
    if s.len() > 0 {
        lemma_filter_filter(s.drop_last(), p, q);
        if p(s.last()) {
            assert(s.filter(p) == s.drop_last().filter(p).push(s.last()));
            assert(s.filter(p).drop_last() =~= s.drop_last().filter(p));
        }
    }
}

/// Deleting a project removes every task and note of it and leaves the
/// tasks and notes of every other scope as they were.
pub proof fn lemma_delete_project_scopes(
    ts: Seq<TaskView>,
    ns: Seq<NoteView>,
    id: u128,
    other: Option<u128>,
)
    ensures
        forall|k: int|
            0 <= k < ts.filter(task_outside(id)).len() ==> (#[trigger] ts.filter(
                task_outside(id),
            )[k]).project_id != Some(id),
        forall|k: int|
            0 <= k < ns.filter(note_outside(id)).len() ==> (#[trigger] ns.filter(
                note_outside(id),
            )[k]).project_id != Some(id),
        other != Some(id) ==> ts.filter(task_outside(id)).filter(in_scope(other)) == ts.filter(
            in_scope(other),
        ),
        other != Some(id) ==> ns.filter(note_outside(id)).filter(note_in_scope(other)) == ns.filter(
            note_in_scope(other),
        ),
{
    broadcast use vstd::seq_lib::group_filter_ensures;

    if other != Some(id) {
        lemma_filter_filter(ts, task_outside(id), in_scope(other));
        lemma_filter_filter(ns, note_outside(id), note_in_scope(other));
    }
}

/// A new top-level task's display index is above every open index of its
/// scope, so it never collides with an open task.
pub proof fn lemma_new_index_fresh(scope: Seq<TaskView>)
    ensures
        forall|k: int|
            0 <= k < scope.len() && (#[trigger] scope[k]).status == TaskStatus::Open
                ==> scope[k].display_index < max_open_index(scope) + 1,
{
    crate::db::tasks::lemma_max_open_index_is_max(scope);
}

/// A subtask (display index 0) added to a scope leaves the sequence of
/// open display indices as it was: the next top-level task takes the index
/// it would have taken before.
pub proof fn lemma_subtask_keeps_open_sequence(scope: Seq<TaskView>, t: TaskView)
    requires
        t.display_index == 0,
    ensures
        max_open_index(scope.push(t)) == max_open_index(scope),
{
    assert(scope.push(t).drop_last() =~= scope);
}

/// Renumbering rewrites exactly the tasks not yet at their 1-based
/// position, each to its position, in order: after it the open tasks are
/// numbered 1, 2, … with no gap.
pub proof fn lemma_renumber_fills_gaps(sorted: Seq<TaskView>, now: i64)
    requires
        sorted.len() < u32::MAX,
    ensures
        forall|u: TaskView|
            #[trigger] renumber_updates(sorted, now).contains(u) ==> exists|k: int|
                0 <= k < sorted.len() && sorted[k].display_index != k + 1 && u
                    == crate::db::tasks::with_index(sorted[k], (k + 1) as u32, now),
        forall|k: int|
            0 <= k < sorted.len() && #[trigger] sorted[k].display_index != k + 1
                ==> renumber_updates(sorted, now).contains(
                crate::db::tasks::with_index(sorted[k], (k + 1) as u32, now),
            ),
    decreases sorted.len(),
{
    if sorted.len() > 0 {
        let prev = sorted.drop_last();
        lemma_renumber_fills_gaps(prev, now);
        let n = sorted.len() as int;
        let us = renumber_updates(sorted, now);
        let pus = renumber_updates(prev, now);
        assert forall|u: TaskView| #[trigger] us.contains(u) implies exists|k: int|
            0 <= k < sorted.len() && sorted[k].display_index != k + 1 && u
                == crate::db::tasks::with_index(sorted[k], (k + 1) as u32, now) by {
            if pus.contains(u) {
                let k = choose|k: int|
                    0 <= k < prev.len() && prev[k].display_index != k + 1 && u
                        == crate::db::tasks::with_index(prev[k], (k + 1) as u32, now);
                assert(sorted[k] == prev[k]);
            } else {
                assert(sorted.last().display_index != n);
                assert(u == crate::db::tasks::with_index(sorted[n - 1], n as u32, now));
            }
        }
        assert forall|k: int|
            0 <= k < sorted.len() && #[trigger] sorted[k].display_index != k + 1 implies us.contains(
            crate::db::tasks::with_index(sorted[k], (k + 1) as u32, now),
        ) by {
            if k < n - 1 {
                assert(sorted[k] == prev[k]);
                assert(prev[k].display_index != k + 1);
                let w = crate::db::tasks::with_index(prev[k], (k + 1) as u32, now);
                assert(pus.contains(w));
                let j = choose|j: int| 0 <= j < pus.len() && pus[j] == w;
                if sorted.last().display_index as int != n {
                    assert(us == pus.push(crate::db::tasks::with_index(sorted.last(), n as u32, now)));
                    assert(us[j] == w);
                }
            } else {
                assert(us == pus.push(crate::db::tasks::with_index(sorted.last(), n as u32, now)));
                assert(us[pus.len() as int] == crate::db::tasks::with_index(sorted[k], (k + 1) as u32, now));
            }
        }
    }
}

/// A project touched at a time later than every other project's activity
/// comes first when the projects are listed by recency.
pub proof fn lemma_touched_first(ps: Seq<ProjectView>, i: int, r: Seq<ProjectView>)
    requires
        0 <= i < ps.len(),
        forall|j: int| 0 <= j < ps.len() && j != i ==> #[trigger] ps[j].last_active < ps[i].last_active,
        by_recency(ps, r),
    ensures
        r.len() > 0,
        r[0] == ps[i],
{
    let keys = crate::db::projects::recency_keys(ps);
    let p = choose|p: Seq<int>| crate::order::stable_order(keys, p) && crate::order::rearranged(ps, p, r);
    crate::order::lemma_permutation_onto(p, ps.len(), i);
    let j = choose|j: int| 0 <= j < ps.len() && p[j] == i;
    if j != 0 {
        assert(p[0] != p[j]);
        assert(keys[p[0]] < keys[p[j]] || (keys[p[0]] == keys[p[j]] && p[0] < p[j]));
        assert(ps[p[0]].last_active < ps[i].last_active);
        assert(keys[p[0]] == -(ps[p[0]].last_active as int));
        assert(keys[p[j]] == -(ps[i].last_active as int));
        assert(false);
    }
    assert(r[0] == ps[p[0]]);
}

/// A project never active (its `last_active` at the epoch, as older records
/// have it) is listed after every project that has been active since.
pub proof fn lemma_never_active_last(ps: Seq<ProjectView>, i: int, r: Seq<ProjectView>)
    requires
        0 <= i < ps.len(),
        ps[i].last_active == 0,
        forall|j: int| 0 <= j < ps.len() && j != i ==> #[trigger] ps[j].last_active > 0,
        by_recency(ps, r),
    ensures
        r.len() == ps.len(),
        r[r.len() - 1] == ps[i],
{
    let keys = crate::db::projects::recency_keys(ps);
    let p = choose|p: Seq<int>| crate::order::stable_order(keys, p) && crate::order::rearranged(ps, p, r);
    crate::order::lemma_permutation_onto(p, ps.len(), i);
    let j = choose|j: int| 0 <= j < ps.len() && p[j] == i;
    let last = ps.len() - 1;
    if j != last {
        assert(p[j] != p[last]);
        assert(keys[p[j]] < keys[p[last]] || (keys[p[j]] == keys[p[last]] && p[j] < p[last]));
        assert(ps[p[last]].last_active > 0);
        assert(keys[p[last]] == -(ps[p[last]].last_active as int));
        assert(keys[p[j]] == -(ps[i].last_active as int));
        assert(false);
    }
    assert(r[last] == ps[p[last]]);
}

/// `s` numbered 1, 2, … in order: each task whose display index is not its
/// 1-based position renumbered to it, updated at `now`; the others as they are.
pub open spec fn renumbered(s: Seq<TaskView>, now: i64) -> Seq<TaskView> {
    Seq::new(
        s.len(),
        |k: int|
            if s[k].display_index == k + 1 {
                s[k]
            } else {
                crate::db::tasks::with_index(s[k], (k + 1) as u32, now)
            },
    )
}

/// In a table whose keys are unique, a lookup of a stored task's key finds it.
proof fn lemma_lookup_member(s: Seq<TaskView>, x: TaskView)
    requires
        keys_unique(s, task_store_key()),
        s.contains(x),
    ensures
        lookup(s, task_key_is(x.project_id, x.id)) == Some(x),
{
    let p = task_key_is(x.project_id, x.id);
    let j = choose|j: int| 0 <= j < s.len() && s[j] == x;
    crate::order::lemma_first_where_props(s, p);
    assert(p(s[j]));
    let i = first_where(s, p)->0;
    if i != j {
        assert(task_store_key()(s[i]) != task_store_key()(s[j]));
    }
}

/// Storing the renumbering updates of `sorted`, tasks of one scope with
/// distinct ids that the table holds, leaves each of them numbered by its
/// position and every other key as it was.
proof fn lemma_upsert_renumbered(tasks: Seq<TaskView>, sorted: Seq<TaskView>, scope: Option<u128>, now: i64)
    requires
        sorted.len() < u32::MAX,
        forall|k: int|
            0 <= k < sorted.len() ==> (#[trigger] sorted[k]).project_id == scope && lookup(
                tasks,
                task_key_is(scope, sorted[k].id),
            ) == Some(sorted[k]),
        forall|j: int, k: int| 0 <= j < k < sorted.len() ==> (#[trigger] sorted[j]).id != (#[trigger] sorted[k]).id,
    ensures
        forall|k: int|
            0 <= k < sorted.len() ==> lookup(
                upsert_tasks(tasks, renumber_updates(sorted, now)),
                task_key_is(scope, #[trigger] sorted[k].id),
            ) == Some(renumbered(sorted, now)[k]),
        forall|sc: Option<u128>, id: u128|
            (sc != scope || forall|k: int| 0 <= k < sorted.len() ==> sorted[k].id != id) ==> #[trigger] lookup(
                upsert_tasks(tasks, renumber_updates(sorted, now)),
                task_key_is(sc, id),
            ) == lookup(tasks, task_key_is(sc, id)),
    decreases sorted.len(),
{
    if sorted.len() == 0 {
        assert(renumber_updates(sorted, now) =~= Seq::<TaskView>::empty());
        assert(upsert_tasks(tasks, renumber_updates(sorted, now)) == tasks);
    } else {
        let n = sorted.len() as int;
        let prev = sorted.drop_last();
        let t = sorted.last();
        assert forall|k: int| 0 <= k < prev.len() implies (#[trigger] prev[k]).project_id == scope
            && lookup(tasks, task_key_is(scope, prev[k].id)) == Some(prev[k]) by {
            assert(prev[k] == sorted[k]);
        }
        assert forall|j: int, k: int| 0 <= j < k < prev.len() implies (#[trigger] prev[j]).id
            != (#[trigger] prev[k]).id by {
            assert(prev[j] == sorted[j] && prev[k] == sorted[k]);
        }
        lemma_upsert_renumbered(tasks, prev, scope, now);
        let us_p = renumber_updates(prev, now);
        let base = upsert_tasks(tasks, us_p);
        assert(sorted[n - 1] == t);
        assert forall|k: int| 0 <= k < prev.len() implies prev[k].id != t.id by {
            assert(prev[k] == sorted[k]);
            assert(sorted[k].id != sorted[n - 1].id);
        }
        assert(lookup(base, task_key_is(scope, t.id)) == lookup(tasks, task_key_is(scope, t.id)));
        assert(lookup(tasks, task_key_is(scope, t.id)) == Some(t));
        let r = renumbered(sorted, now);
        let rp = renumbered(prev, now);
        assert forall|k: int| 0 <= k < prev.len() implies r[k] == rp[k] by {
            assert(prev[k] == sorted[k]);
        }
        if t.display_index as int == n {
            assert(renumber_updates(sorted, now) == us_p);
            assert forall|k: int| 0 <= k < sorted.len() implies lookup(
                upsert_tasks(tasks, renumber_updates(sorted, now)),
                task_key_is(scope, #[trigger] sorted[k].id),
            ) == Some(r[k]) by {
                if k < n - 1 {
                    assert(prev[k] == sorted[k]);
                }
            }
            assert forall|sc: Option<u128>, id: u128|
                (sc != scope || forall|k: int| 0 <= k < sorted.len() ==> sorted[k].id != id) implies #[trigger] lookup(
                    upsert_tasks(tasks, renumber_updates(sorted, now)),
                    task_key_is(sc, id),
                ) == lookup(tasks, task_key_is(sc, id)) by {
                if sc == scope {
                    assert forall|k: int| 0 <= k < prev.len() implies prev[k].id != id by {
                        assert(prev[k] == sorted[k]);
                    }
                }
            }
        } else {
            let w = crate::db::tasks::with_index(t, n as u32, now);
            let us = renumber_updates(sorted, now);
            assert(us == us_p.push(w));
            assert(us.drop_last() =~= us_p);
            assert(upsert_tasks(tasks, us) == upsert(base, task_key_is(scope, t.id), w));
            lemma_lookup_upsert(base, task_key_is(scope, t.id), w);
            assert forall|k: int| 0 <= k < sorted.len() implies lookup(
                upsert_tasks(tasks, renumber_updates(sorted, now)),
                task_key_is(scope, #[trigger] sorted[k].id),
            ) == Some(r[k]) by {
                if k < n - 1 {
                    assert(prev[k] == sorted[k]);
                    assert(sorted[k].id != t.id);
                    lemma_lookup_upsert_other(base, task_key_is(scope, t.id), task_key_is(scope, sorted[k].id), w);
                }
            }
            assert forall|sc: Option<u128>, id: u128|
                (sc != scope || forall|k: int| 0 <= k < sorted.len() ==> sorted[k].id != id) implies #[trigger] lookup(
                    upsert_tasks(tasks, renumber_updates(sorted, now)),
                    task_key_is(sc, id),
                ) == lookup(tasks, task_key_is(sc, id)) by {
                if sc == scope {
                    assert forall|k: int| 0 <= k < prev.len() implies prev[k].id != id by {
                        assert(prev[k] == sorted[k]);
                    }
                    assert(sorted[n - 1].id != id);
                }
                lemma_lookup_upsert_other(base, task_key_is(scope, t.id), task_key_is(sc, id), w);
            }
        }
    }
}

/// The open top-level tasks of a scope, sorted by display index, are tasks
/// of that scope with distinct ids that the table holds under their keys.
proof fn lemma_sorted_scope_members(tasks: Seq<TaskView>, scope: Option<u128>, sorted: Seq<TaskView>)
    requires
        keys_unique(tasks, task_store_key()),
        sorted_by_index(tasks.filter(in_scope(scope)).filter(open_top_level()), sorted),
    ensures
        sorted.len() <= tasks.len(),
        forall|k: int|
            0 <= k < sorted.len() ==> (#[trigger] sorted[k]).project_id == scope && lookup(
                tasks,
                task_key_is(scope, sorted[k].id),
            ) == Some(sorted[k]),
        forall|j: int, k: int| 0 <= j < k < sorted.len() ==> (#[trigger] sorted[j]).id != (#[trigger] sorted[k]).id,
{
    broadcast use vstd::seq_lib::group_filter_ensures;

    let f1 = tasks.filter(in_scope(scope));
    let f = f1.filter(open_top_level());
    lemma_filter_unique(tasks, in_scope(scope), task_store_key());
    lemma_filter_unique(f1, open_top_level(), task_store_key());
    tasks.lemma_filter_len(in_scope(scope));
    f1.lemma_filter_len(open_top_level());
    let p = choose|p: Seq<int>|
        crate::order::stable_order(crate::db::tasks::index_keys(f), p) && crate::order::rearranged(f, p, sorted);
    assert forall|k: int| 0 <= k < sorted.len() implies (#[trigger] sorted[k]).project_id == scope && lookup(
        tasks,
        task_key_is(scope, sorted[k].id),
    ) == Some(sorted[k]) by {
        let x = sorted[k];
        assert(x == f[p[k]]);
        assert(f.contains(x));
        f1.lemma_filter_contains_rev(open_top_level(), x);
        let i = choose|i: int| 0 <= i < f1.len() && f1[i] == x;
        assert(in_scope(scope)(f1[i]));
        tasks.lemma_filter_contains_rev(in_scope(scope), x);
        lemma_lookup_member(tasks, x);
    }
    assert forall|j: int, k: int| 0 <= j < k < sorted.len() implies (#[trigger] sorted[j]).id
        != (#[trigger] sorted[k]).id by {
        assert(sorted[j] == f[p[j]] && sorted[k] == f[p[k]]);
        assert(p[j] != p[k]);
        assert(task_store_key()(f[p[j]]) != task_store_key()(f[p[k]]));
        assert(sorted[j].project_id == scope && sorted[k].project_id == scope);
    }
}

/// Renumbering gives the tasks display indices 1, 2, … in their order and
/// changes nothing else of them but, for a task that moves, its update time.
pub proof fn lemma_renumbered_positions(s: Seq<TaskView>, now: i64)
    requires
        s.len() < u32::MAX,
    ensures
        renumbered(s, now).len() == s.len(),
        forall|k: int|
            0 <= k < s.len() ==> (#[trigger] renumbered(s, now)[k]).display_index == k + 1 && renumbered(s, now)[k]
                == (TaskView { display_index: (k + 1) as u32, updated_at: renumbered(s, now)[k].updated_at, ..s[k] }),
{
}

/// Removing a task leaves no task with its id and none of its subtasks,
/// and keeps every other task.
pub proof fn lemma_delete_task_effect(ts: Seq<TaskView>, id: u128)
    ensures
        forall|x: TaskView| #[trigger] ts.filter(survives_removal(id)).contains(x) ==> x.id != id && x.parent_id != Some(id)
            && ts.contains(x),
        forall|k: int|
            0 <= k < ts.len() && ts[k].id != id && ts[k].parent_id != Some(id) ==> ts.filter(survives_removal(id)).contains(
                #[trigger] ts[k],
            ),
{
    broadcast use vstd::seq_lib::group_filter_ensures;

    assert forall|x: TaskView| #[trigger] ts.filter(survives_removal(id)).contains(x) implies x.id != id && x.parent_id
        != Some(id) && ts.contains(x) by {
        let f = ts.filter(survives_removal(id));
        let i = choose|i: int| 0 <= i < f.len() && f[i] == x;
        assert(survives_removal(id)(f[i]));
        ts.lemma_filter_contains_rev(survives_removal(id), x);
    }
    assert forall|k: int|
        0 <= k < ts.len() && ts[k].id != id && ts[k].parent_id != Some(id) implies ts.filter(survives_removal(id)).contains(
        #[trigger] ts[k],
    ) by {
        ts.lemma_filter_contains(survives_removal(id), k);
    }
}

} // verus!
