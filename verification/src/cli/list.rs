use vstd::prelude::*;

use crate::cli::export::{children_of, filter_status, with_status};
use crate::db::tasks::{child_of, tasks_view};
use crate::models::project::Project;
use crate::models::task::{display_id_in_context_of, has_status_index, Task, TaskStatus, TaskView};
use crate::text::{
    chars_of, lemma_occurs_in_concat, lemma_occurs_in_self, lemma_occurs_in_trans, occurs_in, push_all,
    push_str, string_of,
};
use crate::tui::browser::{content_preview, pad_start, pad_start_chars, preview, preview_cut_ok};

verus! {

/// Arguments of `moco list`.
pub struct ListArgs {
    /// List global tasks instead of the current project's tasks.
    pub global: bool,
    /// List the tasks of every project that has this label.
    pub label: Option<String>,
    /// Only list tasks that carry this tag.
    pub tag: Option<String>,
}

/// Number of filled cells of a progress bar.
pub open spec fn filled_cells(progress: u8, width: nat) -> nat {
    (progress as nat * width) / 100
}

/// A compact progress bar, e.g. `[████████░░░░░░░░░░░░]`: `width` cells
/// between brackets, of which `progress * width / 100` (rounded down) are filled.
pub open spec fn bar(progress: u8, width: nat) -> Seq<char> {
    let filled = filled_cells(progress, width);
    seq!['['] + Seq::new(filled, |i: int| '█') + Seq::new((width - filled) as nat, |i: int| '░') + seq![']']
}

/// Render a compact progress bar, e.g. `[████████░░░░░░░░░░░░]`.
pub fn progress_bar(progress: u8, width: usize) -> (s: String)
    requires
        progress as nat * width <= usize::MAX,
        filled_cells(progress, width as nat) <= width,
    ensures
        s@ == bar(progress, width as nat),
{
    let filled = ((progress as usize) * width) / 100;
    let empty = width - filled;
    let mut v: Vec<char> = vec!['['];
    let mut i: usize = 0;
    while i < filled
        invariant
            i <= filled,
            v@ == seq!['['] + Seq::new(i as nat, |k: int| '█'),
        decreases filled - i,
    {
        v.push('█');
        assert(v@ =~= seq!['['] + Seq::new((i + 1) as nat, |k: int| '█'));
        i = i + 1;
    }
    let mut j: usize = 0;
    while j < empty
        invariant
            j <= empty,
            v@ == seq!['['] + Seq::new(filled as nat, |k: int| '█') + Seq::new(j as nat, |k: int| '░'),
        decreases empty - j,
    {
        v.push('░');
        assert(v@ =~= seq!['['] + Seq::new(filled as nat, |k: int| '█') + Seq::new((j + 1) as nat, |k: int| '░'));
        j = j + 1;
    }
    v.push(']');
    assert(v@ =~= bar(progress, width as nat));
    string_of(&v)
}

/// The label of the scope a listing shows: `project '<name>'`, or `global`.
pub open spec fn scope_label_of(project_name: Option<Seq<char>>) -> Seq<char> {
    match project_name {
        Some(n) => "project '"@ + n + "'"@,
        None => "global"@,
    }
}

/// The label of the scope a listing shows.
pub fn scope_label(project: Option<&Project>) -> (r: String)
    ensures
        r@ == scope_label_of(
            match project {
                Some(p) => Some(p@.name),
                None => None,
            },
        ),
{
    match project {
        Some(p) => {
            let mut v: Vec<char> = Vec::new();
            push_str(&mut v, "project '");
            push_str(&mut v, p.name.as_str());
            push_str(&mut v, "'");
            string_of(&v)
        },
        None => "global".to_string(),
    }
}

/// One line of a listing: the id right-aligned in five columns, the
/// twenty-cell progress bar and the content preview (fifty bytes); a
/// subtask's line is indented under its `parent` with a tree connector and
/// shows the subtask's id in the context of that parent (`S#1.2`).
pub open spec fn list_row(t: TaskView, parent: Option<TaskView>) -> Seq<char> {
    (if parent is Some {
        "        └─ "@
    } else {
        "  "@
    }) + pad_start(display_id_in_context_of(t, parent), 5) + "  "@ + bar(t.progress, 20) + "  "@ + content_preview(
        t.content,
        50,
    ) + "\n"@
}

/// The subtasks `cs` of `parent` and, beneath each, its own subtasks, as
/// listing lines; nesting stops after `fuel` levels.
pub open spec fn subtree_rows(cs: Seq<TaskView>, all: Seq<TaskView>, fuel: nat, parent: TaskView) -> Seq<char>
    decreases fuel, cs.len(),
{
    if cs.len() == 0 {
        seq![]
    } else {
        subtree_rows(cs.drop_last(), all, fuel, parent) + list_row(cs.last(), Some(parent)) + if fuel > 0 {
            subtree_rows(all.filter(child_of(cs.last().id)), all, (fuel - 1) as nat, cs.last())
        } else {
            seq![]
        }
    }
}

/// The lines of a status section: each top-level task, then its subtasks
/// (of any status) beneath it. Nesting stops at the number of tasks, a
/// depth that distinct task ids never reach.
pub open spec fn section_rows(section: Seq<TaskView>, all: Seq<TaskView>) -> Seq<char>
    decreases section.len(),
{
    if section.len() == 0 {
        seq![]
    } else {
        let t = section.last();
        section_rows(section.drop_last(), all) + if t.parent_id is Some {
            seq![]
        } else {
            list_row(t, None) + subtree_rows(all.filter(child_of(t.id)), all, all.len(), t)
        }
    }
}

/// A status section of a listing: its name, a rule of sixty `─`, its
/// lines, a blank line; nothing when no task has the status.
pub open spec fn list_section(name: Seq<char>, tasks: Seq<TaskView>, s: TaskStatus) -> Seq<char> {
    let ts = tasks.filter(with_status(s));
    if ts.len() == 0 {
        seq![]
    } else {
        name + "\n"@ + Seq::new(60, |i: int| '─') + "\n"@ + section_rows(ts, tasks) + "\n"@
    }
}

/// What `moco list` prints for the tasks of a scope.
pub open spec fn listing(label: Seq<char>, tasks: Seq<TaskView>) -> Seq<char> {
    if tasks.len() == 0 {
        "No tasks for "@ + label + ".\n"@
    } else {
        "Tasks for "@ + label + ":\n\n"@ + list_section("Open"@, tasks, TaskStatus::Open)
            + list_section("Completed"@, tasks, TaskStatus::Complete) + list_section(
            "Deferred"@,
            tasks,
            TaskStatus::Defer,
        )
    }
}

/// Every task of a listing can be shown: it has its status index, its
/// progress bar fits its twenty cells and its preview cut falls between characters.
pub open spec fn listable(s: Seq<TaskView>) -> bool {
    forall|i: int|
        0 <= i < s.len() ==> has_status_index(#[trigger] s[i]) && filled_cells(s[i].progress, 20) <= 20
            && preview_cut_ok(s[i].content, 50)
}

proof fn lemma_filter_listable(s: Seq<TaskView>, p: spec_fn(TaskView) -> bool)
    requires
        listable(s),
    ensures
        listable(s.filter(p)),
    decreases s.len(),
{
    reveal(Seq::filter);
    if s.len() > 0 {
        assert forall|i: int| 0 <= i < s.drop_last().len() implies #[trigger] s.drop_last()[i] == s[i] by {}
        lemma_filter_listable(s.drop_last(), p);
        assert(listable(s.drop_last().filter(p)));
        if p(s.last()) {
            assert forall|i: int| 0 <= i < s.filter(p).len() implies has_status_index(
                #[trigger] s.filter(p)[i],
            ) && filled_cells(s.filter(p)[i].progress, 20) <= 20 && preview_cut_ok(s.filter(p)[i].content, 50) by {
                if i < s.drop_last().filter(p).len() {
                    assert(s.filter(p)[i] == s.drop_last().filter(p)[i]);
                } else {
                    assert(s.filter(p)[i] == s.last());
                }
            }
        }
    }
}

fn push_row(out: &mut Vec<char>, t: &Task, parent: Option<&Task>)
    requires
        has_status_index(t@),
        parent matches Some(p) ==> has_status_index(p@),
        filled_cells(t@.progress, 20) <= 20,
        preview_cut_ok(t@.content, 50),
    ensures
        final(out)@ == old(out)@ + list_row(
            t@,
            match parent {
                Some(p) => Some(p@),
                None => None,
            },
        ),
{
    let ghost o = out@;
    let ghost pv = match parent {
        Some(p) => Some(p@),
        None => None::<TaskView>,
    };
    match parent {
        Some(_) => push_str(out, "        └─ "),
        None => push_str(out, "  "),
    }
    let id = pad_start_chars(&chars_of(t.display_id_in_context(parent).as_str()), 5);
    push_all(out, &id);
    push_str(out, "  ");
    push_str(out, progress_bar(t.progress, 20).as_str());
    push_str(out, "  ");
    push_str(out, preview(t.content.as_str(), 50).as_str());
    push_str(out, "\n");
    assert(out@ =~= o + list_row(t@, pv));
}

fn push_subtree(out: &mut Vec<char>, cs: &Vec<Task>, all: &Vec<Task>, fuel: usize, parent: &Task)
    requires
        listable(tasks_view(cs@)),
        listable(tasks_view(all@)),
        has_status_index(parent@),
    ensures
        final(out)@ == old(out)@ + subtree_rows(tasks_view(cs@), tasks_view(all@), fuel as nat, parent@),
    decreases fuel,
{
    let ghost o = out@;
    let ghost cv = tasks_view(cs@);
    let ghost av = tasks_view(all@);
    let mut i: usize = 0;
    assert(cv.take(0) =~= Seq::<TaskView>::empty());
    while i < cs.len()
        invariant
            i <= cs.len(),
            cv == tasks_view(cs@),
            av == tasks_view(all@),
            listable(cv),
            listable(av),
            has_status_index(parent@),
            out@ == o + subtree_rows(cv.take(i as int), av, fuel as nat, parent@),
        decreases cs.len() - i,
    {
        let t = &cs[i];
        assert(cv[i as int] == t@);
        assert(cv.take(i as int + 1).drop_last() =~= cv.take(i as int));
        assert(cv.take(i as int + 1).last() == t@);
        let ghost before = out@;
        push_row(out, t, Some(parent));
        if fuel > 0 {
            let children = children_of(all, t.id);
            proof {
                lemma_filter_listable(av, child_of(t.id));
            }
            push_subtree(out, &children, all, fuel - 1, t);
        }
        assert(out@ =~= o + subtree_rows(cv.take(i as int + 1), av, fuel as nat, parent@));
        i = i + 1;
    }
    assert(cv.take(cs.len() as int) =~= cv);
}

fn push_section_rows(out: &mut Vec<char>, section: &Vec<Task>, all: &Vec<Task>)
    requires
        listable(tasks_view(section@)),
        listable(tasks_view(all@)),
    ensures
        final(out)@ == old(out)@ + section_rows(tasks_view(section@), tasks_view(all@)),
{
    let ghost o = out@;
    let ghost sv = tasks_view(section@);
    let ghost av = tasks_view(all@);
    let mut i: usize = 0;
    assert(sv.take(0) =~= Seq::<TaskView>::empty());
    while i < section.len()
        invariant
            i <= section.len(),
            sv == tasks_view(section@),
            av == tasks_view(all@),
            listable(sv),
            listable(av),
            out@ == o + section_rows(sv.take(i as int), av),
        decreases section.len() - i,
    {
        let t = &section[i];
        assert(sv[i as int] == t@);
        assert(sv.take(i as int + 1).drop_last() =~= sv.take(i as int));
        assert(sv.take(i as int + 1).last() == t@);
        if t.parent_id.is_none() {
            push_row(out, t, None);
            let children = children_of(all, t.id);
            proof {
                lemma_filter_listable(av, child_of(t.id));
            }
            push_subtree(out, &children, all, all.len(), t);
        }
        assert(out@ =~= o + section_rows(sv.take(i as int + 1), av));
        i = i + 1;
    }
    assert(sv.take(section.len() as int) =~= sv);
}

fn push_list_section(out: &mut Vec<char>, name: &str, tasks: &Vec<Task>, s: TaskStatus)
    requires
        listable(tasks_view(tasks@)),
    ensures
        final(out)@ == old(out)@ + list_section(name@, tasks_view(tasks@), s),
{
    let ghost o = out@;
    let ts = filter_status(tasks, s);
    if ts.len() > 0 {
        proof {
            lemma_filter_listable(tasks_view(tasks@), with_status(s));
        }
        push_str(out, name);
        push_str(out, "\n");
        let mut k: usize = 0;
        let ghost mid = out@;
        while k < 60
            invariant
                k <= 60,
                out@ == mid + Seq::new(k as nat, |i: int| '─'),
            decreases 60 - k,
        {
            out.push('─');
            assert(out@ =~= mid + Seq::new((k + 1) as nat, |i: int| '─'));
            k = k + 1;
        }
        push_str(out, "\n");
        push_section_rows(out, &ts, tasks);
        push_str(out, "\n");
        assert(out@ =~= o + list_section(name@, tasks_view(tasks@), s));
    } else {
        assert(out@ =~= o + list_section(name@, tasks_view(tasks@), s));
    }
}

/// What `moco list` prints for the tasks of a scope (as ordered by the
/// store) under the scope label `label`: the open, completed and deferred
/// sections, each task with its subtasks beneath it.
pub fn render_task_listing(label: &str, tasks: &Vec<Task>) -> (r: String)
    requires
        listable(tasks_view(tasks@)),
    ensures
        r@ == listing(label@, tasks_view(tasks@)),
{
    let mut out: Vec<char> = Vec::new();
    if tasks.len() == 0 {
        push_str(&mut out, "No tasks for ");
        push_str(&mut out, label);
        push_str(&mut out, ".\n");
        return string_of(&out);
    }
    push_str(&mut out, "Tasks for ");
    push_str(&mut out, label);
    push_str(&mut out, ":\n\n");
    push_list_section(&mut out, "Open", tasks, TaskStatus::Open);
    push_list_section(&mut out, "Completed", tasks, TaskStatus::Complete);
    push_list_section(&mut out, "Deferred", tasks, TaskStatus::Defer);
    assert(out@ =~= listing(label@, tasks_view(tasks@)));
    string_of(&out)
}

/// The lines of a top-level task in a listing: its own line, then its subtasks.
pub open spec fn task_block(t: TaskView, all: Seq<TaskView>) -> Seq<char> {
    list_row(t, None) + subtree_rows(all.filter(child_of(t.id)), all, all.len(), t)
}

proof fn lemma_rows_have_block(section: Seq<TaskView>, all: Seq<TaskView>, m: int)
    requires
        0 <= m < section.len(),
        section[m].parent_id is None,
    ensures
        occurs_in(task_block(section[m], all), section_rows(section, all)),
    decreases section.len(),
{
    let n = section.len() as int;
    let prev = section.drop_last();
    let blk = task_block(section[m], all);
    let before = section_rows(prev, all);
    if m == n - 1 {
        lemma_occurs_in_self(blk);
        lemma_occurs_in_concat(blk, blk, before, seq![]);
        assert(before + blk + seq![] =~= section_rows(section, all));
    } else {
        assert(prev[m] == section[m]);
        lemma_rows_have_block(prev, all, m);
        let t = section.last();
        let last = if t.parent_id is Some {
            seq![]
        } else {
            list_row(t, None) + subtree_rows(all.filter(child_of(t.id)), all, all.len(), t)
        };
        lemma_occurs_in_concat(blk, before, seq![], last);
        assert(seq![] + before + last =~= section_rows(section, all));
    }
}

proof fn lemma_subtree_has_row(cs: Seq<TaskView>, all: Seq<TaskView>, fuel: nat, parent: TaskView, m: int)
    requires
        0 <= m < cs.len(),
    ensures
        occurs_in(list_row(cs[m], Some(parent)), subtree_rows(cs, all, fuel, parent)),
    decreases cs.len(),
{
    let n = cs.len() as int;
    let prev = cs.drop_last();
    let row = list_row(cs[m], Some(parent));
    let before = subtree_rows(prev, all, fuel, parent);
    let tail = if fuel > 0 {
        subtree_rows(all.filter(child_of(cs.last().id)), all, (fuel - 1) as nat, cs.last())
    } else {
        seq![]
    };
    assert(subtree_rows(cs, all, fuel, parent) == before + list_row(cs.last(), Some(parent)) + tail);
    if m == n - 1 {
        lemma_occurs_in_self(row);
        lemma_occurs_in_concat(row, row, before, tail);
    } else {
        assert(prev[m] == cs[m]);
        lemma_subtree_has_row(prev, all, fuel, parent, m);
        lemma_occurs_in_concat(row, before, seq![], list_row(cs.last(), Some(parent)) + tail);
        assert(seq![] + before + (list_row(cs.last(), Some(parent)) + tail) =~= subtree_rows(cs, all, fuel, parent));
    }
}

/// The section of a task's status, with its heading, is in the listing.
proof fn lemma_heading_in_listing(label: Seq<char>, tasks: Seq<TaskView>, k: int)
    requires
        0 <= k < tasks.len(),
    ensures
        occurs_in(crate::cli::export::status_heading(tasks[k].status) + "\n"@, listing(label, tasks)),
{
    let st = tasks[k].status;
    let ts = tasks.filter(with_status(st));
    tasks.lemma_filter_contains(with_status(st), k);
    let name = crate::cli::export::status_heading(st);
    let rule = Seq::new(60, |i: int| '─');
    let rows = section_rows(ts, tasks);
    let sec = list_section(name, tasks, st);
    assert(sec == name + "\n"@ + rule + "\n"@ + rows + "\n"@);
    let hd = name + "\n"@;
    lemma_occurs_in_self(hd);
    lemma_occurs_in_concat(hd, hd, seq![], rule + "\n"@ + rows + "\n"@);
    assert(seq![] + hd + (rule + "\n"@ + rows + "\n"@) =~= sec);
    let head = "Tasks for "@ + label + ":\n\n"@;
    let so = list_section("Open"@, tasks, TaskStatus::Open);
    let sc = list_section("Completed"@, tasks, TaskStatus::Complete);
    let sd = list_section("Deferred"@, tasks, TaskStatus::Defer);
    let doc = listing(label, tasks);
    assert(doc == head + so + sc + sd);
    lemma_occurs_in_self(sec);
    match st {
        TaskStatus::Open => {
            lemma_occurs_in_concat(sec, sec, head, sc + sd);
            assert(head + sec + (sc + sd) =~= doc);
        },
        TaskStatus::Complete => {
            lemma_occurs_in_concat(sec, sec, head + so, sd);
            assert(head + so + sec + sd =~= doc);
        },
        TaskStatus::Defer => {
            lemma_occurs_in_concat(sec, sec, head + so + sc, seq![]);
            assert(head + so + sc + sec + seq![] =~= doc);
        },
    }
    lemma_occurs_in_trans(hd, sec, doc);
}

/// Every top-level task of a scope is listed, whatever its status, in the
/// section of that status; each of its subtasks, whatever its own status,
/// is listed beneath it with its id in the parent's context.
pub proof fn lemma_listing_shows_every_task(label: Seq<char>, tasks: Seq<TaskView>, k: int)
    requires
        0 <= k < tasks.len(),
        tasks[k].parent_id is None,
    ensures
        occurs_in(list_row(tasks[k], None), listing(label, tasks)),
        occurs_in(crate::cli::export::status_heading(tasks[k].status) + "\n"@, listing(label, tasks)),
        forall|j: int|
            0 <= j < tasks.len() && tasks[j].parent_id == Some(tasks[k].id) ==> occurs_in(
                list_row(#[trigger] tasks[j], Some(tasks[k])),
                listing(label, tasks),
            ),
{
    let t = tasks[k];
    let st = t.status;
    let ts = tasks.filter(with_status(st));
    tasks.lemma_filter_contains(with_status(st), k);
    let m = choose|m: int| 0 <= m < ts.len() && ts[m] == t;
    lemma_rows_have_block(ts, tasks, m);
    let blk = task_block(t, tasks);
    let rows = section_rows(ts, tasks);
    let name = match st {
        TaskStatus::Open => "Open"@,
        TaskStatus::Complete => "Completed"@,
        TaskStatus::Defer => "Deferred"@,
    };
    let rule = Seq::new(60, |i: int| '─');
    let sec = list_section(name, tasks, st);
    assert(sec == name + "\n"@ + rule + "\n"@ + rows + "\n"@);
    lemma_occurs_in_self(rows);
    lemma_occurs_in_concat(rows, rows, name + "\n"@ + rule + "\n"@, "\n"@);
    let head = "Tasks for "@ + label + ":\n\n"@;
    let so = list_section("Open"@, tasks, TaskStatus::Open);
    let sc = list_section("Completed"@, tasks, TaskStatus::Complete);
    let sd = list_section("Deferred"@, tasks, TaskStatus::Defer);
    let doc = listing(label, tasks);
    assert(doc == head + so + sc + sd);
    lemma_occurs_in_self(sec);
    match st {
        TaskStatus::Open => {
            lemma_occurs_in_concat(sec, sec, head, sc + sd);
            assert(head + sec + (sc + sd) =~= doc);
        },
        TaskStatus::Complete => {
            lemma_occurs_in_concat(sec, sec, head + so, sd);
            assert(head + so + sec + sd =~= doc);
        },
        TaskStatus::Defer => {
            lemma_occurs_in_concat(sec, sec, head + so + sc, seq![]);
            assert(head + so + sc + sec + seq![] =~= doc);
        },
    }
    lemma_heading_in_listing(label, tasks, k);
    lemma_occurs_in_trans(rows, sec, doc);
    lemma_occurs_in_trans(blk, rows, doc);
    let row = list_row(t, None);
    let sub = subtree_rows(tasks.filter(child_of(t.id)), tasks, tasks.len(), t);
    lemma_occurs_in_self(row);
    lemma_occurs_in_concat(row, row, seq![], sub);
    assert(seq![] + row + sub =~= blk);
    lemma_occurs_in_trans(row, blk, doc);
    lemma_occurs_in_self(sub);
    lemma_occurs_in_concat(sub, sub, row, seq![]);
    assert(row + sub + seq![] =~= blk);
    lemma_occurs_in_trans(sub, blk, doc);
    assert forall|j: int|
        0 <= j < tasks.len() && tasks[j].parent_id == Some(t.id) implies occurs_in(
            list_row(#[trigger] tasks[j], Some(t)),
            doc,
        ) by {
        let children = tasks.filter(child_of(t.id));
        tasks.lemma_filter_contains(child_of(t.id), j);
        let m2 = choose|m2: int| 0 <= m2 < children.len() && children[m2] == tasks[j];
        lemma_subtree_has_row(children, tasks, tasks.len(), t, m2);
        lemma_occurs_in_trans(list_row(tasks[j], Some(t)), sub, doc);
    }
}

/// A progress bar of `width` cells between brackets fills, from the left,
/// the largest number of cells `f` with `f / width` not above the progress
/// fraction (`100 * f <= progress * width < 100 * (f + 1)`), and leaves the
/// rest empty: none for 0%, all for 100%.
pub proof fn lemma_bar_shape(progress: u8, width: nat)
    requires
        progress <= 100,
    ensures
        ({
            let b = bar(progress, width);
            let f = filled_cells(progress, width);
            &&& f <= width
            &&& 100 * f <= progress * width < 100 * (f + 1)
            &&& b.len() == width + 2
            &&& b[0] == '[' && b[width + 1int] == ']'
            &&& forall|i: int| 1 <= i <= f ==> b[i] == '█'
            &&& forall|i: int| f < i <= width ==> b[i] == '░'
            &&& progress == 0 ==> f == 0
            &&& progress == 100 ==> f == width
        }),
{
    let f = filled_cells(progress, width);
    let pw = progress as nat * width;
    assert(pw <= 100 * width) by (nonlinear_arith)
        requires
            progress <= 100,
            pw == progress as nat * width,
    ;
    assert(f <= width);
    let b = bar(progress, width);
    assert forall|i: int| 1 <= i <= f implies b[i] == '█' by {
        assert(b[i] == Seq::new(f, |k: int| '█')[i - 1]);
    }
    assert forall|i: int| f < i <= width implies b[i] == '░' by {
        assert(b[i] == Seq::new((width - f) as nat, |k: int| '░')[i - 1 - f]);
    }
    if progress == 100 {
        assert(pw == 100 * width);
    }
}

} // verus!
