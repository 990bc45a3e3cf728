use vstd::prelude::*;

use crate::ident::{id_to_string, uuid_text};
use crate::models::task::{Task, TaskStatus, TaskView};
use crate::text::{chars_of, chars_eq, push_all, string_of, string_views};
use crate::time::representable;
use crate::order::{first_where, lemma_first_where, rearranged, stable_order, stable_sort_order};

verus! {

broadcast use vstd::seq_lib::group_filter_ensures;

/// The models of a list of tasks.
pub open spec fn tasks_view(v: Seq<Task>) -> Seq<TaskView> {
    v.map_values(|t: Task| t@)
}

/// Largest display index among open tasks (0 when there is none).
pub open spec fn max_open_index(s: Seq<TaskView>) -> nat
    decreases s.len(),
{
    if s.len() == 0 {
        0
    } else {
        let m = max_open_index(s.drop_last());
        let t = s.last();
        if t.status == TaskStatus::Open && t.display_index > m {
            t.display_index as nat
        } else {
            m
        }
    }
}

/// Largest completed index (0 when no task has one).
pub open spec fn max_completed_index(s: Seq<TaskView>) -> nat
    decreases s.len(),
{
    if s.len() == 0 {
        0
    } else {
        let m = max_completed_index(s.drop_last());
        match s.last().completed_index {
            Some(c) => if c > m { c as nat } else { m },
            None => m,
        }
    }
}

/// Largest deferred index (0 when no task has one).
pub open spec fn max_deferred_index(s: Seq<TaskView>) -> nat
    decreases s.len(),
{
    if s.len() == 0 {
        0
    } else {
        let m = max_deferred_index(s.drop_last());
        match s.last().deferred_index {
            Some(c) => if c > m { c as nat } else { m },
            None => m,
        }
    }
}

/// Largest sub-index among the subtasks of `parent` (0 when it has none).
pub open spec fn max_sub_index(s: Seq<TaskView>, parent: u128) -> nat
    decreases s.len(),
{
    if s.len() == 0 {
        0
    } else {
        let m = max_sub_index(s.drop_last(), parent);
        let t = s.last();
        if t.parent_id == Some(parent) {
            match t.sub_index {
                Some(c) => if c > m { c as nat } else { m },
                None => m,
            }
        } else {
            m
        }
    }
}

pub proof fn lemma_max_open_index_is_max(s: Seq<TaskView>)
    ensures
        forall|i: int| 0 <= i < s.len() && s[i].status == TaskStatus::Open ==> s[i].display_index <= max_open_index(s),
        max_open_index(s) == 0 || exists|i: int| 0 <= i < s.len() && s[i].status == TaskStatus::Open && s[i].display_index == max_open_index(s),
    decreases s.len(),
{
    if s.len() > 0 {
        lemma_max_open_index_is_max(s.drop_last());
        assert forall|i: int| 0 <= i < s.len() - 1 implies s[i] == s.drop_last()[i] by {}
        if max_open_index(s.drop_last()) > 0 && max_open_index(s) == max_open_index(s.drop_last()) {
            let i = choose|i: int| 0 <= i < s.drop_last().len() && s.drop_last()[i].status == TaskStatus::Open && s.drop_last()[i].display_index == max_open_index(s.drop_last());
            assert(s[i] == s.drop_last()[i]);
        }
    }
}

/// The largest completed index bounds every completed index of the list.
pub proof fn lemma_max_completed_index_is_max(s: Seq<TaskView>)
    ensures
        forall|i: int| 0 <= i < s.len() && (#[trigger] s[i]).completed_index is Some ==> s[i].completed_index->0
            <= max_completed_index(s),
    decreases s.len(),
{
    if s.len() > 0 {
        lemma_max_completed_index_is_max(s.drop_last());
        assert forall|i: int| 0 <= i < s.len() - 1 implies s[i] == s.drop_last()[i] by {}
    }
}

/// The largest deferred index bounds every deferred index of the list.
pub proof fn lemma_max_deferred_index_is_max(s: Seq<TaskView>)
    ensures
        forall|i: int| 0 <= i < s.len() && (#[trigger] s[i]).deferred_index is Some ==> s[i].deferred_index->0
            <= max_deferred_index(s),
    decreases s.len(),
{
    if s.len() > 0 {
        lemma_max_deferred_index_is_max(s.drop_last());
        assert forall|i: int| 0 <= i < s.len() - 1 implies s[i] == s.drop_last()[i] by {}
    }
}

/// The largest sub-index among a parent's subtasks bounds each of them, so
/// a new subtask numbered one above it takes a sub-index no sibling has.
pub proof fn lemma_max_sub_index_is_max(s: Seq<TaskView>, parent: u128)
    ensures
        forall|i: int|
            0 <= i < s.len() && (#[trigger] s[i]).parent_id == Some(parent) && s[i].sub_index is Some
                ==> s[i].sub_index->0 <= max_sub_index(s, parent),
    decreases s.len(),
{
    if s.len() > 0 {
        lemma_max_sub_index_is_max(s.drop_last(), parent);
        assert forall|i: int| 0 <= i < s.len() - 1 implies s[i] == s.drop_last()[i] by {}
    }
}

/// Largest display index among the open tasks of the list.
pub fn max_open_display_index(tasks: &Vec<Task>) -> (m: u32)
    ensures
        m == max_open_index(tasks_view(tasks@)),
{
    let mut m: u32 = 0;
    let mut i: usize = 0;
    while i < tasks.len()
        invariant
            i <= tasks.len(),
            m == max_open_index(tasks_view(tasks@.take(i as int))),
        decreases tasks.len() - i,
    {
        assert(tasks_view(tasks@.take(i as int + 1)).drop_last() =~= tasks_view(tasks@.take(i as int)));
        if tasks[i].status == TaskStatus::Open && tasks[i].display_index > m {
            m = tasks[i].display_index;
        }
        i = i + 1;
    }
    assert(tasks@.take(tasks.len() as int) =~= tasks@);
    m
}

/// Next available display index for open tasks in a scope: one more than the
/// largest open display index (1 when there is no open task).
pub fn next_open_display_index(tasks: &Vec<Task>) -> (r: u32)
    requires
        max_open_index(tasks_view(tasks@)) < u32::MAX,
    ensures
        r == max_open_index(tasks_view(tasks@)) + 1,
{
    max_open_display_index(tasks) + 1
}

/// Largest completed index in the list.
pub fn max_completed(tasks: &Vec<Task>) -> (m: u32)
    ensures
        m == max_completed_index(tasks_view(tasks@)),
{
    let mut m: u32 = 0;
    let mut i: usize = 0;
    while i < tasks.len()
        invariant
            i <= tasks.len(),
            m == max_completed_index(tasks_view(tasks@.take(i as int))),
        decreases tasks.len() - i,
    {
        assert(tasks_view(tasks@.take(i as int + 1)).drop_last() =~= tasks_view(tasks@.take(i as int)));
        match tasks[i].completed_index {
            Some(c) => {
                if c > m {
                    m = c;
                }
            },
            None => {},
        }
        i = i + 1;
    }
    assert(tasks@.take(tasks.len() as int) =~= tasks@);
    m
}

/// Next available index for completed tasks in a scope.
pub fn next_completed_index(tasks: &Vec<Task>) -> (r: u32)
    requires
        max_completed_index(tasks_view(tasks@)) < u32::MAX,
    ensures
        r == max_completed_index(tasks_view(tasks@)) + 1,
{
    max_completed(tasks) + 1
}

/// Largest deferred index in the list.
pub fn max_deferred(tasks: &Vec<Task>) -> (m: u32)
    ensures
        m == max_deferred_index(tasks_view(tasks@)),
{
    let mut m: u32 = 0;
    let mut i: usize = 0;
    while i < tasks.len()
        invariant
            i <= tasks.len(),
            m == max_deferred_index(tasks_view(tasks@.take(i as int))),
        decreases tasks.len() - i,
    {
        assert(tasks_view(tasks@.take(i as int + 1)).drop_last() =~= tasks_view(tasks@.take(i as int)));
        match tasks[i].deferred_index {
            Some(c) => {
                if c > m {
                    m = c;
                }
            },
            None => {},
        }
        i = i + 1;
    }
    assert(tasks@.take(tasks.len() as int) =~= tasks@);
    m
}

/// Next available index for deferred tasks in a scope.
pub fn next_deferred_index(tasks: &Vec<Task>) -> (r: u32)
    requires
        max_deferred_index(tasks_view(tasks@)) < u32::MAX,
    ensures
        r == max_deferred_index(tasks_view(tasks@)) + 1,
{
    max_deferred(tasks) + 1
}

/// Largest sub-index among the subtasks of `parent`.
pub fn max_sub(tasks: &Vec<Task>, parent: u128) -> (m: u32)
    ensures
        m == max_sub_index(tasks_view(tasks@), parent),
{
    let mut m: u32 = 0;
    let mut i: usize = 0;
    while i < tasks.len()
        invariant
            i <= tasks.len(),
            m == max_sub_index(tasks_view(tasks@.take(i as int)), parent),
        decreases tasks.len() - i,
    {
        assert(tasks_view(tasks@.take(i as int + 1)).drop_last() =~= tasks_view(tasks@.take(i as int)));
        if tasks[i].parent_id == Some(parent) {
            match tasks[i].sub_index {
                Some(c) => {
                    if c > m {
                        m = c;
                    }
                },
                None => {},
            }
        }
        i = i + 1;
    }
    assert(tasks@.take(tasks.len() as int) =~= tasks@);
    m
}

/// The predicate "open with this display index".
pub open spec fn open_at(idx: u32) -> spec_fn(TaskView) -> bool {
    |t: TaskView| t.status == TaskStatus::Open && t.display_index == idx
}

/// The predicate "top-level, completed with this completed index".
pub open spec fn completed_at(idx: u32) -> spec_fn(TaskView) -> bool {
    |t: TaskView| t.status == TaskStatus::Complete && t.completed_index == Some(idx) && t.parent_id is None
}

/// The predicate "top-level, deferred with this deferred index".
pub open spec fn deferred_at(idx: u32) -> spec_fn(TaskView) -> bool {
    |t: TaskView| t.status == TaskStatus::Defer && t.deferred_index == Some(idx) && t.parent_id is None
}

/// The predicate "subtask of `parent` with this sub-index".
pub open spec fn child_at(parent: u128, sub: u32) -> spec_fn(TaskView) -> bool {
    |t: TaskView| t.parent_id == Some(parent) && t.sub_index == Some(sub)
}

/// The first task of `s` that satisfies `p`, if any.
pub open spec fn find_task(s: Seq<TaskView>, p: spec_fn(TaskView) -> bool) -> Option<TaskView> {
    match first_where(s, p) {
        Some(i) => Some(s[i]),
        None => None,
    }
}

/// A found task with its model.
pub open spec fn opt_task_view(o: Option<Task>) -> Option<TaskView> {
    match o {
        Some(t) => Some(t@),
        None => None,
    }
}

/// Which lookup a search runs.
pub enum Lookup {
    Open(u32),
    Completed(u32),
    Deferred(u32),
    Child(u128, u32),
}

pub open spec fn lookup_pred(l: Lookup) -> spec_fn(TaskView) -> bool {
    match l {
        Lookup::Open(i) => open_at(i),
        Lookup::Completed(i) => completed_at(i),
        Lookup::Deferred(i) => deferred_at(i),
        Lookup::Child(p, s) => child_at(p, s),
    }
}

fn matches_lookup(t: &Task, l: &Lookup) -> (b: bool)
    ensures
        b == lookup_pred(*l)(t@),
{
    match l {
        Lookup::Open(i) => t.status == TaskStatus::Open && t.display_index == *i,
        Lookup::Completed(i) => t.status == TaskStatus::Complete && t.completed_index == Some(*i) && t.parent_id.is_none(),
        Lookup::Deferred(i) => t.status == TaskStatus::Defer && t.deferred_index == Some(*i) && t.parent_id.is_none(),
        Lookup::Child(p, s) => t.parent_id == Some(*p) && t.sub_index == Some(*s),
    }
}

/// The first task of the list that the lookup selects.
pub fn find_first(tasks: &Vec<Task>, l: Lookup) -> (r: Option<Task>)
    ensures
        opt_task_view(r) == find_task(tasks_view(tasks@), lookup_pred(l)),
{
    let ghost s = tasks_view(tasks@);
    let mut i: usize = 0;
    while i < tasks.len()
        invariant
            i <= tasks.len(),
            s == tasks_view(tasks@),
            forall|k: int| 0 <= k < i ==> !lookup_pred(l)(#[trigger] s[k]),
        decreases tasks.len() - i,
    {
        if matches_lookup(&tasks[i], &l) {
            proof {
                lemma_first_where(s, lookup_pred(l), i as int);
            }
            return Some(tasks[i].clone());
        }
        i = i + 1;
    }
    proof {
        lemma_first_where(s, lookup_pred(l), i as int);
    }
    None
}

/// Retrieve an open task by its display index: the first open task of the
/// list with that index.
pub fn get_open_task(tasks: &Vec<Task>, display_index: u32) -> (r: Option<Task>)
    ensures
        opt_task_view(r) == find_task(tasks_view(tasks@), open_at(display_index)),
{
    find_first(tasks, Lookup::Open(display_index))
}

/// The predicate "belongs to this scope".
pub open spec fn in_scope(scope: Option<u128>) -> spec_fn(TaskView) -> bool {
    |t: TaskView| t.project_id == scope
}

/// Display indices as sort keys.
pub open spec fn index_keys(s: Seq<TaskView>) -> Seq<int> {
    s.map_values(|t: TaskView| t.display_index as int)
}

/// `r` is `s` stably sorted by display index.
pub open spec fn sorted_by_index(s: Seq<TaskView>, r: Seq<TaskView>) -> bool {
    exists|p: Seq<int>| stable_order(index_keys(s), p) && rearranged(s, p, r)
}

/// The tasks of `all` that belong to `scope`, in the order `all` holds them.
pub fn tasks_in_scope(all: &Vec<Task>, scope: Option<u128>) -> (r: Vec<Task>)
    ensures
        tasks_view(r@) == tasks_view(all@).filter(in_scope(scope)),
{
    let ghost s = tasks_view(all@);
    let mut r: Vec<Task> = Vec::new();
    let mut i: usize = 0;
    while i < all.len()
        invariant
            i <= all.len(),
            s == tasks_view(all@),
            tasks_view(r@) == s.take(i as int).filter(in_scope(scope)),
        decreases all.len() - i,
    {
        proof {
            reveal(Seq::filter);
            assert(s.take(i as int + 1).drop_last() =~= s.take(i as int));
        }
        if all[i].project_id == scope {
            r.push(all[i].clone());
            assert(tasks_view(r@) =~= s.take(i as int).filter(in_scope(scope)).push(s[i as int]));
        }
        i = i + 1;
    }
    assert(s.take(all.len() as int) =~= s);
    r
}

/// `v` stably sorted by display index.
pub fn sort_by_index(v: &Vec<Task>) -> (r: Vec<Task>)
    ensures
        sorted_by_index(tasks_view(v@), tasks_view(r@)),
{
    let mut keys: Vec<i128> = Vec::new();
    let mut i: usize = 0;
    while i < v.len()
        invariant
            i <= v.len(),
            keys@.len() == i,
            forall|k: int| 0 <= k < i ==> keys@[k] == v@[k].display_index as i128,
        decreases v.len() - i,
    {
        keys.push(v[i].display_index as i128);
        i = i + 1;
    }
    let p = stable_sort_order(&keys);
    let ghost pv = p@.map_values(|i: usize| i as int);
    assert(keys@.map_values(|k: i128| k as int) =~= index_keys(tasks_view(v@)));
    let mut r: Vec<Task> = Vec::new();
    let mut k: usize = 0;
    while k < p.len()
        invariant
            k <= p.len(),
            p.len() == v.len(),
            pv == p@.map_values(|i: usize| i as int),
            forall|a: int| 0 <= a < p.len() ==> 0 <= #[trigger] pv[a] < v.len(),
            r@.len() == k,
            forall|a: int| 0 <= a < k ==> #[trigger] r@[a]@ == v@[pv[a]]@,
        decreases p.len() - k,
    {
        assert(pv[k as int] == p@[k as int]);
        r.push(v[p[k]].clone());
        k = k + 1;
    }
    assert(rearranged(tasks_view(v@), pv, tasks_view(r@)));
    r
}

/// All tasks of a scope (a project, or the global list when `scope` is
/// `None`), ordered by display index; tasks with equal indices keep the
/// order in which the store holds them.
pub fn list_tasks(all: &Vec<Task>, scope: Option<u128>) -> (r: Vec<Task>)
    ensures
        sorted_by_index(tasks_view(all@).filter(in_scope(scope)), tasks_view(r@)),
{
    let v = tasks_in_scope(all, scope);
    sort_by_index(&v)
}


/// The predicate "open top-level task".
pub open spec fn open_top_level() -> spec_fn(TaskView) -> bool {
    |t: TaskView| t.status == TaskStatus::Open && t.parent_id is None
}

/// `t` renumbered to display index `k`, updated at `now`.
pub open spec fn with_index(t: TaskView, k: u32, now: i64) -> TaskView {
    TaskView { display_index: k, updated_at: now, ..t }
}

/// The updates that renumber `s` as 1, 2, …: each task whose display index
/// is not its 1-based position, renumbered, in order.
pub open spec fn renumber_updates(s: Seq<TaskView>, now: i64) -> Seq<TaskView>
    decreases s.len(),
{
    if s.len() == 0 {
        seq![]
    } else {
        let prev = renumber_updates(s.drop_last(), now);
        let t = s.last();
        if t.display_index as int == s.len() {
            prev
        } else {
            prev.push(with_index(t, s.len() as u32, now))
        }
    }
}

/// Copy of `t` with another display index and update time.
fn renumbered(t: &Task, k: u32, now: i64) -> (r: Task)
    ensures
        r@ == with_index(t@, k, now),
{
    let mut r = t.clone();
    r.display_index = k;
    r.updated_at = now;
    r
}

/// Reassign sequential display indices (1, 2, …) to the open top-level tasks
/// of a scope, ordered by their current display index. Returns the tasks whose
/// index changed, renumbered and stamped `now`, for the caller to persist.
pub fn reindex_open_tasks(tasks: &Vec<Task>, now: i64) -> (r: Vec<Task>)
    requires
        tasks.len() < u32::MAX,
    ensures
        exists|sorted: Seq<TaskView>|
            sorted_by_index(tasks_view(tasks@).filter(open_top_level()), sorted) && tasks_view(r@)
                == renumber_updates(sorted, now),
{
    let ghost s = tasks_view(tasks@);
    let mut open: Vec<Task> = Vec::new();
    let mut i: usize = 0;
    while i < tasks.len()
        invariant
            i <= tasks.len(),
            s == tasks_view(tasks@),
            tasks_view(open@) == s.take(i as int).filter(open_top_level()),
        decreases tasks.len() - i,
    {
        proof {
            reveal(Seq::filter);
            assert(s.take(i as int + 1).drop_last() =~= s.take(i as int));
        }
        if tasks[i].status == TaskStatus::Open && tasks[i].parent_id.is_none() {
            open.push(tasks[i].clone());
            assert(tasks_view(open@) =~= s.take(i as int).filter(open_top_level()).push(s[i as int]));
        }
        i = i + 1;
    }
    assert(s.take(tasks.len() as int) =~= s);
    let sorted = sort_by_index(&open);
    let ghost sv = tasks_view(sorted@);
    proof {
        s.lemma_filter_len(open_top_level());
    }
    let mut r: Vec<Task> = Vec::new();
    let mut k: usize = 0;
    while k < sorted.len()
        invariant
            k <= sorted.len(),
            sorted.len() < u32::MAX,
            sv == tasks_view(sorted@),
            tasks_view(r@) == renumber_updates(sv.take(k as int), now),
        decreases sorted.len() - k,
    {
        let new_index = (k + 1) as u32;
        assert(sv.take(k as int + 1).drop_last() =~= sv.take(k as int));
        assert(sv.take(k as int + 1).last() == sorted@[k as int]@);
        if sorted[k].display_index != new_index {
            r.push(renumbered(&sorted[k], new_index, now));
            assert(tasks_view(r@) =~= renumber_updates(sv.take(k as int), now).push(with_index(sorted@[k as int]@, new_index, now)));
        }
        k = k + 1;
    }
    assert(sv.take(sorted.len() as int) =~= sv);
    r
}

/// The predicate "has this tag".
pub open spec fn has_tag(tag: Seq<char>) -> spec_fn(TaskView) -> bool {
    |t: TaskView| t.tags.contains(tag)
}

/// Whether `list` holds `item`.
pub fn contains_string(list: &Vec<String>, item: &String) -> (b: bool)
    ensures
        b == string_views(list@).contains(item@),
{
    let ghost m = string_views(list@);
    let mut i: usize = 0;
    while i < list.len()
        invariant
            i <= list.len(),
            m == string_views(list@),
            forall|k: int| 0 <= k < i ==> m[k] != item@,
        decreases list.len() - i,
    {
        if list[i] == *item {
            assert(m[i as int] == item@);
            return true;
        }
        i = i + 1;
    }
    false
}

/// The tasks of the list that carry `tag`, in list order.
pub fn list_tasks_by_tag(tasks: &Vec<Task>, tag: &String) -> (r: Vec<Task>)
    ensures
        tasks_view(r@) == tasks_view(tasks@).filter(has_tag(tag@)),
{
    let ghost s = tasks_view(tasks@);
    let mut r: Vec<Task> = Vec::new();
    let mut i: usize = 0;
    while i < tasks.len()
        invariant
            i <= tasks.len(),
            s == tasks_view(tasks@),
            tasks_view(r@) == s.take(i as int).filter(has_tag(tag@)),
        decreases tasks.len() - i,
    {
        proof {
            reveal(Seq::filter);
            assert(s.take(i as int + 1).drop_last() =~= s.take(i as int));
        }
        if contains_string(&tasks[i].tags, tag) {
            r.push(tasks[i].clone());
            assert(tasks_view(r@) =~= s.take(i as int).filter(has_tag(tag@)).push(s[i as int]));
        }
        i = i + 1;
    }
    assert(s.take(tasks.len() as int) =~= s);
    r
}

/// A new task for a scope whose current tasks are `scope_tasks`. A top-level
/// task gets the next open display index; a subtask of `parent` gets display
/// index 0 and the next sub-index among that parent's subtasks.
pub fn new_task(scope_tasks: &Vec<Task>, project_id: Option<u128>, content: &str, parent_id: Option<u128>) -> (t: Task)
    requires
        parent_id is None ==> max_open_index(tasks_view(scope_tasks@)) < u32::MAX,
        parent_id matches Some(p) ==> max_sub_index(tasks_view(scope_tasks@), p) < u32::MAX,
    ensures
        t@.project_id == project_id,
        t@.content == content@,
        t@.status == TaskStatus::Open,
        t@.progress == 0,
        t@.completed_index is None,
        t@.deferred_index is None,
        t@.parent_id == parent_id,
        t@.tags.len() == 0,
        t@.created_at == t@.updated_at,
        representable(t@.created_at),
        match parent_id {
            None => t@.display_index == max_open_index(tasks_view(scope_tasks@)) + 1 && t@.sub_index is None,
            Some(p) => t@.display_index == 0 && t@.sub_index == Some((max_sub_index(tasks_view(scope_tasks@), p) + 1) as u32),
        },
{
    match parent_id {
        None => {
            let idx = next_open_display_index(scope_tasks);
            Task::new(project_id, content, idx, None)
        },
        Some(p) => {
            let sub = max_sub(scope_tasks, p) + 1;
            let mut t = Task::new(project_id, content, 0, Some(p));
            t.sub_index = Some(sub);
            t
        },
    }
}

/// The predicate "subtask of `parent`".
pub open spec fn child_of(parent: u128) -> spec_fn(TaskView) -> bool {
    |t: TaskView| t.parent_id == Some(parent)
}

/// Ids of the tasks that removing task `id` deletes: the task itself, then
/// its subtasks in list order.
pub fn task_and_subtask_ids(tasks: &Vec<Task>, id: u128) -> (r: Vec<u128>)
    ensures
        r@ == seq![id] + tasks_view(tasks@).filter(child_of(id)).map_values(|t: TaskView| t.id),
{
    let ghost s = tasks_view(tasks@);
    let mut r: Vec<u128> = vec![id];
    let mut i: usize = 0;
    while i < tasks.len()
        invariant
            i <= tasks.len(),
            s == tasks_view(tasks@),
            r@ == seq![id] + s.take(i as int).filter(child_of(id)).map_values(|t: TaskView| t.id),
        decreases tasks.len() - i,
    {
        proof {
            reveal(Seq::filter);
            assert(s.take(i as int + 1).drop_last() =~= s.take(i as int));
        }
        if tasks[i].parent_id == Some(id) {
            r.push(tasks[i].id);
            assert(r@ =~= seq![id] + s.take(i as int).filter(child_of(id)).push(s[i as int]).map_values(|t: TaskView| t.id));
        }
        i = i + 1;
    }
    assert(s.take(tasks.len() as int) =~= s);
    r
}

/// The literal scope key of the global list.
pub open spec fn global_scope() -> Seq<char> {
    seq!['g', 'l', 'o', 'b', 'a', 'l']
}

/// Key prefix of a scope: the project's id in hyphenated form, or `"global"`.
pub open spec fn scope_key_of(scope: Option<u128>) -> Seq<char> {
    match scope {
        Some(id) => uuid_text(id),
        None => global_scope(),
    }
}

/// Storage key of a task or note: `"<scope>/<id>"`.
pub open spec fn item_key_of(scope: Option<u128>, id: u128) -> Seq<char> {
    scope_key_of(scope) + seq!['/'] + uuid_text(id)
}

/// Key prefix of a scope: the project's id, or `"global"`.
pub fn scope_key(project_id: Option<u128>) -> (s: String)
    ensures
        s@ == scope_key_of(project_id),
{
    match project_id {
        Some(id) => id_to_string(id),
        None => {
            let v = vec!['g', 'l', 'o', 'b', 'a', 'l'];
            string_of(&v)
        },
    }
}

/// Storage key of a task: `"<scope>/<task id>"`.
pub fn task_key(project_id: Option<u128>, task_id: u128) -> (s: String)
    ensures
        s@ == item_key_of(project_id, task_id),
{
    let scope = scope_key(project_id);
    let id = id_to_string(task_id);
    let mut v: Vec<char> = chars_of(scope.as_str());
    v.push('/');
    let idv = chars_of(id.as_str());
    push_all(&mut v, &idv);
    string_of(&v)
}

/// Whether a storage key lies in a scope: it starts with `"<scope>/"`.
pub fn key_in_scope(key: &str, project_id: Option<u128>) -> (b: bool)
    ensures
        b == (key@.len() >= scope_key_of(project_id).len() + 1 && key@.take(
            scope_key_of(project_id).len() as int + 1,
        ) == scope_key_of(project_id) + seq!['/']),
{
    let scope = scope_key(project_id);
    let mut prefix = chars_of(scope.as_str());
    prefix.push('/');
    assert(prefix@ =~= scope_key_of(project_id) + seq!['/']);
    let k = chars_of(key);
    if k.len() < prefix.len() {
        return false;
    }
    let head = crate::text::slice_chars(&k, 0, prefix.len());
    assert(head@ =~= key@.take(prefix@.len() as int));
    chars_eq(&head, &prefix)
}

} // verus!
