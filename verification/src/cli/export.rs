use vstd::prelude::*;

use crate::models::task::{has_status_index, display_id_in_context_of, Task, TaskStatus, TaskView};
use crate::db::tasks::{child_of, tasks_view};
use crate::db::notes::notes_view;
use crate::models::note::{note_display_id, Note, NoteView};
use crate::text::{decimal, first_line, lines, push_all, push_decimal, push_str, split_lines, string_of, trim, trim_chars, chars_of, is_blank,
    occurs_in, lemma_occurs_in_concat, lemma_occurs_in_self, lemma_occurs_in_trans};

verus! {

broadcast use vstd::seq_lib::group_filter_ensures;

/// Arguments of `moco export`.
pub struct ExportArgs {
    /// Export the global task list instead of the current project.
    pub global: bool,
}

/// Whether `c` is alphanumeric in Unicode's sense (`char::is_alphanumeric`).
pub uninterp spec fn alphanumeric(c: char) -> bool;

/// Tests a character with std's `char::is_alphanumeric` (Unicode `Alphabetic`
/// or `Numeric`), whose tables the contract names rather than restates; for
/// ASCII it states what the documentation says: letters and digits only.
#[verifier::external_body]
pub(crate) fn is_alphanumeric(c: char) -> (b: bool)
    ensures
        b == alphanumeric(c),
        (c as u32) < 128 ==> (b == (('a' <= c && c <= 'z') || ('A' <= c && c <= 'Z') || ('0' <= c && c <= '9'))),
{
    c.is_alphanumeric()
}

/// The file-name form of a project name: alphanumeric characters, `-` and `_`
/// stay, every other character becomes `-`.
pub open spec fn sanitized(name: Seq<char>) -> Seq<char> {
    name.map_values(|c: char| if alphanumeric(c) || c == '-' || c == '_' { c } else { '-' })
}

/// The file a project's tasks are exported to: its sanitized name with
/// `.md`.
pub fn export_file_name(name: &str) -> (r: String)
    ensures
        r@ == sanitized(name@) + ".md"@,
{
    let mut v = chars_of(sanitize_filename(name).as_str());
    crate::text::push_str(&mut v, ".md");
    string_of(&v)
}

/// Sanitizing a sanitized name changes nothing, and a sanitized name keeps
/// the length of the name.
pub proof fn lemma_sanitized_idempotent(name: Seq<char>)
    ensures
        sanitized(sanitized(name)) == sanitized(name),
        sanitized(name).len() == name.len(),
{
    assert(sanitized(sanitized(name)) =~= sanitized(name));
}

/// Make a project name safe to use as a file name.
pub fn sanitize_filename(name: &str) -> (r: String)
    ensures
        r@ == sanitized(name@),
{
    let cs = chars_of(name);
    let mut out: Vec<char> = Vec::new();
    let mut i: usize = 0;
    while i < cs.len()
        invariant
            i <= cs.len(),
            cs@ == name@,
            out@ == sanitized(cs@.take(i as int)),
        decreases cs.len() - i,
    {
        let c = cs[i];
        if is_alphanumeric(c) || c == '-' || c == '_' {
            out.push(c);
        } else {
            out.push('-');
        }
        assert(out@ =~= sanitized(cs@.take(i as int + 1)));
        i = i + 1;
    }
    assert(cs@.take(cs.len() as int) =~= cs@);
    string_of(&out)
}

/// `2 * depth` spaces.
pub open spec fn indent(depth: nat) -> Seq<char> {
    Seq::new(2 * depth, |i: int| ' ')
}

/// Checkbox of a status: `[ ]`, `[x]` or `[-]`.
pub open spec fn checkbox(s: TaskStatus) -> Seq<char> {
    match s {
        TaskStatus::Open => seq!['[', ' ', ']'],
        TaskStatus::Complete => seq!['[', 'x', ']'],
        TaskStatus::Defer => seq!['[', '-', ']'],
    }
}

/// The lines of `s` after the first.
pub open spec fn rest_lines(s: Seq<char>) -> Seq<Seq<char>> {
    if lines(s).len() == 0 {
        seq![]
    } else {
        lines(s).skip(1)
    }
}

/// The body lines of a task as a blockquote: each line that is not blank,
/// as `"<indent>  > <line>\n"`.
pub open spec fn render_body(body: Seq<Seq<char>>, ind: Seq<char>) -> Seq<char>
    decreases body.len(),
{
    if body.len() == 0 {
        seq![]
    } else {
        let line = body.last();
        render_body(body.drop_last(), ind) + if trim(line).len() == 0 {
            seq![]
        } else {
            ind + seq![' ', ' ', '>', ' '] + line + seq!['\n']
        }
    }
}

/// The list item of a task: `"<indent>- <checkbox> <id> <title> (<progress>%)\n"`
/// where the title is the trimmed first line of the content and a subtask's
/// id is given in the context of its `parent` (`S#1.2`).
pub open spec fn item_line(t: TaskView, depth: nat, parent: Option<TaskView>) -> Seq<char> {
    indent(depth) + seq!['-', ' '] + checkbox(t.status) + seq![' '] + display_id_in_context_of(t, parent) + seq![' ']
        + trim(first_line(t.content)) + seq![' ', '('] + decimal(t.progress as nat) + seq!['%', ')', '\n']
}

/// The Markdown of a list of tasks (the subtasks of `parent`, if given) at
/// a nesting depth: each task as a list item, its body as a blockquote,
/// then its subtasks one level deeper. At depth 0 subtasks are skipped
/// (they appear under their parent). Nesting stops at the number of tasks,
/// a depth that distinct task ids never reach.
pub open spec fn render_list(section: Seq<TaskView>, all: Seq<TaskView>, depth: nat, parent: Option<TaskView>) -> Seq<char>
    decreases all.len() - depth, section.len(),
{
    if section.len() == 0 {
        seq![]
    } else {
        render_list(section.drop_last(), all, depth, parent) + render_item(section.last(), all, depth, parent)
    }
}

/// The Markdown of one task of a list; see `render_list`.
pub open spec fn render_item(t: TaskView, all: Seq<TaskView>, depth: nat, parent: Option<TaskView>) -> Seq<char>
    decreases all.len() - depth, 0nat,
{
    if t.parent_id is Some && depth == 0 {
        seq![]
    } else {
        let children = all.filter(child_of(t.id));
        item_line(t, depth, parent) + render_body(rest_lines(t.content), indent(depth)) + if children.len()
            > 0 && depth < all.len() {
            render_list(children, all, depth + 1, Some(t))
        } else {
            seq![]
        }
    }
}

/// The predicate "has this status".
pub open spec fn with_status(s: TaskStatus) -> spec_fn(TaskView) -> bool {
    |t: TaskView| t.status == s
}

/// A status section: `"## <name>\n\n"`, the rendered tasks, a blank line;
/// nothing when the section is empty.
pub open spec fn section(name: Seq<char>, tasks: Seq<TaskView>, s: TaskStatus) -> Seq<char> {
    let ts = tasks.filter(with_status(s));
    if ts.len() == 0 {
        seq![]
    } else {
        seq!['#', '#', ' '] + name + seq!['\n', '\n'] + render_list(ts, tasks, 0, None) + seq!['\n']
    }
}

/// The Markdown document of a task list.
pub open spec fn markdown(title: Seq<char>, tasks: Seq<TaskView>) -> Seq<char> {
    seq!['#', ' '] + title + seq!['\n', '\n'] + section("Open"@, tasks, TaskStatus::Open) + section(
        "Completed"@,
        tasks,
        TaskStatus::Complete,
    ) + section("Deferred"@, tasks, TaskStatus::Defer)
}

/// Every task shows its status index.
pub open spec fn all_indexed(s: Seq<TaskView>) -> bool {
    forall|i: int| 0 <= i < s.len() ==> has_status_index(#[trigger] s[i])
}

pub(crate) proof fn lemma_filter_indexed(s: Seq<TaskView>, p: spec_fn(TaskView) -> bool)
    requires
        all_indexed(s),
    ensures
        all_indexed(s.filter(p)),
    decreases s.len(),
{
    reveal(Seq::filter);
    if s.len() > 0 {
        assert forall|i: int| 0 <= i < s.drop_last().len() implies has_status_index(#[trigger] s.drop_last()[i]) by {
            assert(s.drop_last()[i] == s[i]);
        }
        lemma_filter_indexed(s.drop_last(), p);
        assert(has_status_index(s[s.len() - 1]));
    }
}

fn push_indent(out: &mut Vec<char>, depth: usize)
    ensures
        final(out)@ == old(out)@ + indent(depth as nat),
{
    let ghost o = out@;
    let mut i: usize = 0;
    while i < depth
        invariant
            i <= depth,
            out@ == o + indent(i as nat),
        decreases depth - i,
    {
        out.push(' ');
        out.push(' ');
        assert(out@ =~= o + indent((i + 1) as nat));
        i = i + 1;
    }
}

/// The tasks of `all` with status `s`, in order.
pub(crate) fn filter_status(all: &Vec<Task>, s: TaskStatus) -> (r: Vec<Task>)
    ensures
        tasks_view(r@) == tasks_view(all@).filter(with_status(s)),
{
    let ghost v = tasks_view(all@);
    let mut r: Vec<Task> = Vec::new();
    let mut i: usize = 0;
    while i < all.len()
        invariant
            i <= all.len(),
            v == tasks_view(all@),
            tasks_view(r@) == v.take(i as int).filter(with_status(s)),
        decreases all.len() - i,
    {
        proof {
            reveal(Seq::filter);
            assert(v.take(i as int + 1).drop_last() =~= v.take(i as int));
        }
        if all[i].status == s {
            r.push(all[i].clone());
            assert(tasks_view(r@) =~= v.take(i as int).filter(with_status(s)).push(v[i as int]));
        }
        i = i + 1;
    }
    assert(v.take(all.len() as int) =~= v);
    r
}

/// The subtasks of `parent` in `all`, in order.
pub(crate) fn children_of(all: &Vec<Task>, parent: u128) -> (r: Vec<Task>)
    ensures
        tasks_view(r@) == tasks_view(all@).filter(child_of(parent)),
{
    let ghost v = tasks_view(all@);
    let mut r: Vec<Task> = Vec::new();
    let mut i: usize = 0;
    while i < all.len()
        invariant
            i <= all.len(),
            v == tasks_view(all@),
            tasks_view(r@) == v.take(i as int).filter(child_of(parent)),
        decreases all.len() - i,
    {
        proof {
            reveal(Seq::filter);
            assert(v.take(i as int + 1).drop_last() =~= v.take(i as int));
        }
        if all[i].parent_id == Some(parent) {
            r.push(all[i].clone());
            assert(tasks_view(r@) =~= v.take(i as int).filter(child_of(parent)).push(v[i as int]));
        }
        i = i + 1;
    }
    assert(v.take(all.len() as int) =~= v);
    r
}

fn push_body(out: &mut Vec<char>, content: &Vec<char>, depth: usize)
    ensures
        final(out)@ == old(out)@ + render_body(rest_lines(content@), indent(depth as nat)),
{
    let ls = split_lines(content);
    let ghost all_lines = lines(content@);
    let ghost ind = indent(depth as nat);
    let ghost o = out@;
    if ls.len() == 0 {
        assert(out@ =~= o + render_body(rest_lines(content@), ind));
        return;
    }
    let mut i: usize = 1;
    assert(all_lines.skip(1).take(0) =~= Seq::<Seq<char>>::empty());
    while i < ls.len()
        invariant
            1 <= i <= ls.len(),
            ls@.len() == all_lines.len(),
            forall|k: int| 0 <= k < ls@.len() ==> #[trigger] ls@[k]@ == all_lines[k],
            all_lines == lines(content@),
            ind == indent(depth as nat),
            out@ == o + render_body(all_lines.skip(1).take(i - 1), ind),
        decreases ls.len() - i,
    {
        let line = &ls[i];
        assert(line@ == all_lines[i as int]);
        assert(all_lines.skip(1).take(i as int).drop_last() =~= all_lines.skip(1).take(i - 1));
        assert(all_lines.skip(1).take(i as int).last() == all_lines[i as int]);
        if !is_blank(line) {
            push_indent(out, depth);
            out.push(' ');
            out.push(' ');
            out.push('>');
            out.push(' ');
            push_all(out, line);
            out.push('\n');
        }
        assert(out@ =~= o + render_body(all_lines.skip(1).take(i as int), ind));
        i = i + 1;
    }
    assert(all_lines.skip(1).take(i - 1) =~= all_lines.skip(1));
}

fn checkbox_chars(st: TaskStatus) -> (v: Vec<char>)
    ensures
        v@ == checkbox(st),
{
    let v = match st {
        TaskStatus::Open => vec!['[', ' ', ']'],
        TaskStatus::Complete => vec!['[', 'x', ']'],
        TaskStatus::Defer => vec!['[', '-', ']'],
    };
    assert(v@ =~= checkbox(st));
    v
}

fn title_chars(t: &Task) -> (v: Vec<char>)
    ensures
        v@ == trim(first_line(t@.content)),
{
    let content = chars_of(t.content.as_str());
    let ls = split_lines(&content);
    if ls.len() > 0 {
        trim_chars(&ls[0])
    } else {
        let v: Vec<char> = Vec::new();
        assert(v@ =~= trim(first_line(t@.content)));
        v
    }
}

fn push_item_line(out: &mut Vec<char>, t: &Task, depth: usize, parent: Option<&Task>)
    requires
        has_status_index(t@),
        parent matches Some(p) ==> has_status_index(p@),
    ensures
        final(out)@ == old(out)@ + item_line(
            t@,
            depth as nat,
            match parent {
                Some(p) => Some(p@),
                None => None,
            },
        ),
{
    let ghost o = out@;
    let ghost pv = match parent {
        Some(p) => Some(p@),
        None => None::<TaskView>,
    };
    let mut head: Vec<char> = Vec::new();
    push_indent(&mut head, depth);
    head.push('-');
    head.push(' ');
    let cb = checkbox_chars(t.status);
    push_all(&mut head, &cb);
    head.push(' ');
    let id = t.display_id_in_context(parent);
    let idc = chars_of(id.as_str());
    push_all(&mut head, &idc);
    head.push(' ');
    assert(head@ =~= indent(depth as nat) + seq!['-', ' '] + checkbox(t@.status) + seq![' '] + display_id_in_context_of(t@, pv) + seq![' ']);
    let title = title_chars(t);
    let mut tail: Vec<char> = vec![' ', '('];
    push_decimal(&mut tail, t.progress as u64);
    tail.push('%');
    tail.push(')');
    tail.push('\n');
    assert(tail@ =~= seq![' ', '('] + decimal(t@.progress as nat) + seq!['%', ')', '\n']);
    push_all(out, &head);
    push_all(out, &title);
    push_all(out, &tail);
    assert(out@ =~= o + item_line(t@, depth as nat, pv));
}

/// Append the Markdown of `section` at nesting `depth` (see `render_list`).
fn render_task_list(out: &mut Vec<char>, section: &Vec<Task>, all: &Vec<Task>, depth: usize, parent: Option<&Task>)
    requires
        all_indexed(tasks_view(section@)),
        all_indexed(tasks_view(all@)),
        depth <= all.len(),
        parent matches Some(p) ==> has_status_index(p@),
    ensures
        final(out)@ == old(out)@ + render_list(
            tasks_view(section@),
            tasks_view(all@),
            depth as nat,
            match parent {
                Some(p) => Some(p@),
                None => None,
            },
        ),
    decreases all.len() - depth,
{
    let ghost pv = match parent {
        Some(p) => Some(p@),
        None => None::<TaskView>,
    };
    let ghost o = out@;
    let ghost sv = tasks_view(section@);
    let ghost av = tasks_view(all@);
    let mut i: usize = 0;
    assert(sv.take(0) =~= Seq::<TaskView>::empty());
    while i < section.len()
        invariant
            i <= section.len(),
            sv == tasks_view(section@),
            av == tasks_view(all@),
            all_indexed(sv),
            all_indexed(av),
            depth <= all.len(),
            parent matches Some(p) ==> has_status_index(p@),
            pv == match parent {
                Some(p) => Some(p@),
                None => None::<TaskView>,
            },
            out@ == o + render_list(sv.take(i as int), av, depth as nat, pv),
        decreases section.len() - i,
    {
        let task = &section[i];
        assert(sv[i as int] == task@);
        assert(sv.take(i as int + 1).drop_last() =~= sv.take(i as int));
        assert(sv.take(i as int + 1).last() == task@);
        let ghost before = out@;
        if !(task.parent_id.is_some() && depth == 0) {
            assert(has_status_index(sv[i as int]));
            push_item_line(out, task, depth, parent);
            let content = chars_of(task.content.as_str());
            push_body(out, &content, depth);
            let children = children_of(all, task.id);
            if children.len() > 0 && depth < all.len() {
                proof {
                    lemma_filter_indexed(av, child_of(task.id));
                }
                render_task_list(out, &children, all, depth + 1, Some(task));
            }
            assert(out@ =~= before + render_item(task@, av, depth as nat, pv));
        } else {
            assert(render_item(task@, av, depth as nat, pv) =~= Seq::<char>::empty());
        }
        assert(out@ =~= o + render_list(sv.take(i as int + 1), av, depth as nat, pv));
        i = i + 1;
    }
    assert(sv.take(section.len() as int) =~= sv);
}

fn push_section(out: &mut Vec<char>, name: &str, tasks: &Vec<Task>, s: TaskStatus)
    requires
        all_indexed(tasks_view(tasks@)),
    ensures
        final(out)@ == old(out)@ + section(name@, tasks_view(tasks@), s),
{
    let ghost o = out@;
    let ts = filter_status(tasks, s);
    if ts.len() > 0 {
        proof {
            lemma_filter_indexed(tasks_view(tasks@), with_status(s));
        }
        out.push('#');
        out.push('#');
        out.push(' ');
        push_str(out, name);
        out.push('\n');
        out.push('\n');
        render_task_list(out, &ts, tasks, 0, None);
        out.push('\n');
        assert(out@ =~= o + section(name@, tasks_view(tasks@), s));
    } else {
        assert(out@ =~= o + section(name@, tasks_view(tasks@), s));
    }
}

/// Render tasks as a Markdown document: a `# <title>` heading, then the
/// open, completed and deferred sections, each listing its tasks with
/// checkbox, id, title and progress, the body as a blockquote and subtasks
/// nested beneath their parent.
pub fn render_markdown(title: &str, tasks: &Vec<Task>) -> (r: String)
    requires
        all_indexed(tasks_view(tasks@)),
    ensures
        r@ == markdown(title@, tasks_view(tasks@)),
{
    let mut out: Vec<char> = Vec::new();
    out.push('#');
    out.push(' ');
    push_str(&mut out, title);
    out.push('\n');
    out.push('\n');
    push_section(&mut out, "Open", tasks, TaskStatus::Open);
    push_section(&mut out, "Completed", tasks, TaskStatus::Complete);
    push_section(&mut out, "Deferred", tasks, TaskStatus::Defer);
    assert(out@ =~= markdown(title@, tasks_view(tasks@)));
    string_of(&out)
}

/// The list item of a note: `"- N#<index> <title>\n"`, then every line of
/// its content that is not blank as a blockquote.
pub open spec fn note_item(n: NoteView) -> Seq<char> {
    seq!['-', ' '] + note_display_id(n) + seq![' '] + n.title + seq!['\n'] + render_body(
        lines(n.content),
        indent(0),
    )
}

/// The items of a list of notes, in order.
pub open spec fn note_items(ns: Seq<NoteView>) -> Seq<char>
    decreases ns.len(),
{
    if ns.len() == 0 {
        seq![]
    } else {
        note_items(ns.drop_last()) + note_item(ns.last())
    }
}

/// The notes section: `"## Notes\n\n"`, one item per note, a blank line;
/// nothing when there is no note.
pub open spec fn notes_section(ns: Seq<NoteView>) -> Seq<char> {
    if ns.len() == 0 {
        seq![]
    } else {
        seq!['#', '#', ' '] + "Notes"@ + seq!['\n', '\n'] + note_items(ns) + seq!['\n']
    }
}

/// The exported document of a scope: its task document, then its notes.
pub open spec fn export_document(title: Seq<char>, tasks: Seq<TaskView>, notes: Seq<NoteView>) -> Seq<char> {
    markdown(title, tasks) + notes_section(notes)
}

/// Append every line of `content` that is not blank as a blockquote line.
fn push_quoted(out: &mut Vec<char>, content: &Vec<char>)
    ensures
        final(out)@ == old(out)@ + render_body(lines(content@), indent(0)),
{
    let ls = split_lines(content);
    let ghost all_lines = lines(content@);
    let ghost ind = indent(0);
    let ghost o = out@;
    assert(ind =~= Seq::<char>::empty());
    let mut i: usize = 0;
    assert(all_lines.take(0) =~= Seq::<Seq<char>>::empty());
    while i < ls.len()
        invariant
            i <= ls.len(),
            ls@.len() == all_lines.len(),
            forall|k: int| 0 <= k < ls@.len() ==> #[trigger] ls@[k]@ == all_lines[k],
            all_lines == lines(content@),
            ind == indent(0),
            ind == Seq::<char>::empty(),
            out@ == o + render_body(all_lines.take(i as int), ind),
        decreases ls.len() - i,
    {
        let line = &ls[i];
        assert(line@ == all_lines[i as int]);
        assert(all_lines.take(i as int + 1).drop_last() =~= all_lines.take(i as int));
        assert(all_lines.take(i as int + 1).last() == all_lines[i as int]);
        if !is_blank(line) {
            out.push(' ');
            out.push(' ');
            out.push('>');
            out.push(' ');
            push_all(out, line);
            out.push('\n');
        }
        assert(out@ =~= o + render_body(all_lines.take(i as int + 1), ind));
        i = i + 1;
    }
    assert(all_lines.take(i as int) =~= all_lines);
}

fn push_notes_section(out: &mut Vec<char>, notes: &Vec<Note>)
    ensures
        final(out)@ == old(out)@ + notes_section(notes_view(notes@)),
{
    let ghost o = out@;
    let ghost ns = notes_view(notes@);
    if notes.len() == 0 {
        assert(out@ =~= o + notes_section(ns));
        return;
    }
    push_str(out, "## Notes");
    out.push('\n');
    out.push('\n');
    proof {
        reveal_strlit("## Notes");
    }
    let ghost head = out@;
    assert(head =~= o + seq!['#', '#', ' '] + "Notes"@ + seq!['\n', '\n']) by {
        reveal_strlit("Notes");
    }
    let mut i: usize = 0;
    assert(ns.take(0) =~= Seq::<NoteView>::empty());
    while i < notes.len()
        invariant
            i <= notes.len(),
            ns == notes_view(notes@),
            out@ == head + note_items(ns.take(i as int)),
        decreases notes.len() - i,
    {
        let n = &notes[i];
        assert(ns[i as int] == n@);
        assert(ns.take(i as int + 1).drop_last() =~= ns.take(i as int));
        assert(ns.take(i as int + 1).last() == n@);
        let ghost before = out@;
        out.push('-');
        out.push(' ');
        push_str(out, n.display_id().as_str());
        out.push(' ');
        push_str(out, n.title.as_str());
        out.push('\n');
        let content = chars_of(n.content.as_str());
        push_quoted(out, &content);
        assert(out@ =~= before + note_item(n@));
        i = i + 1;
    }
    assert(ns.take(i as int) =~= ns);
    out.push('\n');
    assert(out@ =~= o + notes_section(ns));
}

/// Render the exported document of a scope: the task document of
/// `render_markdown`, then a `## Notes` section listing each note as
/// `- N#<index> <title>` with its content as a blockquote.
pub fn render_export(title: &str, tasks: &Vec<Task>, notes: &Vec<Note>) -> (r: String)
    requires
        all_indexed(tasks_view(tasks@)),
    ensures
        r@ == export_document(title@, tasks_view(tasks@), notes_view(notes@)),
{
    let doc = render_markdown(title, tasks);
    let mut out = chars_of(doc.as_str());
    push_notes_section(&mut out, notes);
    string_of(&out)
}

/// A status section appears in the document exactly when some task has
/// that status, and then it opens with its `## <name>` heading.
pub proof fn lemma_section_present(name: Seq<char>, tasks: Seq<TaskView>, s: TaskStatus)
    ensures
        section(name, tasks, s).len() > 0 <==> exists|i: int| 0 <= i < tasks.len() && (#[trigger] tasks[i]).status == s,
        section(name, tasks, s).len() > 0 ==> section(name, tasks, s).take(name.len() + 5int) == seq!['#', '#', ' ']
            + name + seq!['\n', '\n'],
{
    let ts = tasks.filter(with_status(s));
    if exists|i: int| 0 <= i < tasks.len() && (#[trigger] tasks[i]).status == s {
        let i = choose|i: int| 0 <= i < tasks.len() && (#[trigger] tasks[i]).status == s;
        tasks.lemma_filter_contains(with_status(s), i);
        assert(ts.len() > 0);
    }
    if ts.len() > 0 {
        assert(ts.contains(ts[0]));
        tasks.lemma_filter_contains_rev(with_status(s), ts[0]);
        assert(with_status(s)(ts[0]));
        let j = choose|j: int| 0 <= j < tasks.len() && tasks[j] == ts[0];
        assert(tasks[j].status == s);
        let sec = section(name, tasks, s);
        assert(sec.take(name.len() + 5int) =~= seq!['#', '#', ' '] + name + seq!['\n', '\n']);
    }
}

/// Each item of a list is a piece of the list's Markdown.
proof fn lemma_list_has_item(section: Seq<TaskView>, all: Seq<TaskView>, depth: nat, parent: Option<TaskView>, m: int)
    requires
        0 <= m < section.len(),
    ensures
        occurs_in(render_item(section[m], all, depth, parent), render_list(section, all, depth, parent)),
    decreases section.len(),
{
    let n = section.len() as int;
    let prev = section.drop_last();
    let item = render_item(section[m], all, depth, parent);
    let before = render_list(prev, all, depth, parent);
    if m == n - 1 {
        lemma_occurs_in_self(item);
        lemma_occurs_in_concat(item, item, before, seq![]);
        assert(before + item + seq![] =~= render_list(section, all, depth, parent));
    } else {
        assert(prev[m] == section[m]);
        lemma_list_has_item(prev, all, depth, parent, m);
        let last = render_item(section.last(), all, depth, parent);
        lemma_occurs_in_concat(item, before, seq![], last);
        assert(seq![] + before + last =~= render_list(section, all, depth, parent));
    }
}

/// A task's own list line is a piece of its Markdown.
proof fn lemma_item_has_line(t: TaskView, all: Seq<TaskView>, depth: nat, parent: Option<TaskView>)
    requires
        !(t.parent_id is Some && depth == 0),
    ensures
        occurs_in(item_line(t, depth, parent), render_item(t, all, depth, parent)),
{
    let line = item_line(t, depth, parent);
    let whole = render_item(t, all, depth, parent);
    let rest = whole.subrange(line.len() as int, whole.len() as int);
    assert(whole =~= seq![] + line + rest);
    lemma_occurs_in_self(line);
    lemma_occurs_in_concat(line, line, seq![], rest);
}

/// The heading word of a status's section.
pub open spec fn status_heading(s: TaskStatus) -> Seq<char> {
    match s {
        TaskStatus::Open => "Open"@,
        TaskStatus::Complete => "Completed"@,
        TaskStatus::Defer => "Deferred"@,
    }
}

/// Every task of a scope is in its exported document, whatever its status:
/// each top-level task has its list line, and each subtask of a top-level
/// task has its line, one level deeper and with its id in the parent's
/// context, in the parent's section, beneath the parent.
pub proof fn lemma_export_shows_every_task(title: Seq<char>, tasks: Seq<TaskView>, k: int)
    requires
        0 <= k < tasks.len(),
        tasks[k].parent_id is None,
    ensures
        occurs_in(item_line(tasks[k], 0, None), markdown(title, tasks)),
        occurs_in(seq!['#', '#', ' '] + status_heading(tasks[k].status) + seq!['\n', '\n'], markdown(title, tasks)),
        forall|j: int|
            0 <= j < tasks.len() && tasks[j].parent_id == Some(tasks[k].id) ==> occurs_in(
                item_line(#[trigger] tasks[j], 1, Some(tasks[k])),
                markdown(title, tasks),
            ),
{
    let t = tasks[k];
    let st = t.status;
    let ts = tasks.filter(with_status(st));
    tasks.lemma_filter_contains(with_status(st), k);
    let m = choose|m: int| 0 <= m < ts.len() && ts[m] == t;
    lemma_list_has_item(ts, tasks, 0, None, m);
    let item = render_item(t, tasks, 0, None);
    let list = render_list(ts, tasks, 0, None);
    let name = match st {
        TaskStatus::Open => "Open"@,
        TaskStatus::Complete => "Completed"@,
        TaskStatus::Defer => "Deferred"@,
    };
    let sec = section(name, tasks, st);
    lemma_occurs_in_self(list);
    lemma_occurs_in_concat(list, list, seq!['#', '#', ' '] + name + seq!['\n', '\n'], seq!['\n']);
    assert(sec == seq!['#', '#', ' '] + name + seq!['\n', '\n'] + list + seq!['\n']);
    let head = seq!['#', ' '] + title + seq!['\n', '\n'];
    let so = section("Open"@, tasks, TaskStatus::Open);
    let sc = section("Completed"@, tasks, TaskStatus::Complete);
    let sd = section("Deferred"@, tasks, TaskStatus::Defer);
    let doc = markdown(title, tasks);
    lemma_occurs_in_self(sec);
    match st {
        TaskStatus::Open => {
            lemma_occurs_in_concat(sec, sec, head, sc + sd);
            assert(head + sec + (sc + sd) =~= doc);
        },
        TaskStatus::Complete => {
            lemma_occurs_in_concat(sec, sec, head + so, sd);
            assert(head + so + sec + sd =~= doc);
        },
        TaskStatus::Defer => {
            lemma_occurs_in_concat(sec, sec, head + so + sc, seq![]);
            assert(head + so + sc + sec + seq![] =~= doc);
        },
    }
    assert(occurs_in(sec, doc));
    let hd = seq!['#', '#', ' '] + name + seq!['\n', '\n'];
    lemma_occurs_in_self(hd);
    lemma_occurs_in_concat(hd, hd, seq![], list + seq!['\n']);
    assert(seq![] + hd + (list + seq!['\n']) =~= sec);
    lemma_occurs_in_trans(hd, sec, doc);
    assert(name == status_heading(st));
    lemma_occurs_in_trans(list, sec, doc);
    lemma_occurs_in_trans(item, list, doc);
    lemma_item_has_line(t, tasks, 0, None);
    lemma_occurs_in_trans(item_line(t, 0, None), item, doc);
    assert forall|j: int|
        0 <= j < tasks.len() && tasks[j].parent_id == Some(t.id) implies occurs_in(
            item_line(#[trigger] tasks[j], 1, Some(t)),
            doc,
        ) by {
        let c = tasks[j];
        let children = tasks.filter(child_of(t.id));
        tasks.lemma_filter_contains(child_of(t.id), j);
        let m2 = choose|m2: int| 0 <= m2 < children.len() && children[m2] == c;
        let sub = render_list(children, tasks, 1, Some(t));
        lemma_list_has_item(children, tasks, 1, Some(t), m2);
        let line = item_line(t, 0, None);
        let body = render_body(rest_lines(t.content), indent(0));
        assert(item == line + body + sub);
        lemma_occurs_in_self(sub);
        lemma_occurs_in_concat(sub, sub, line + body, seq![]);
        assert(line + body + sub + seq![] =~= item);
        lemma_occurs_in_trans(sub, item, doc);
        lemma_occurs_in_trans(render_item(c, tasks, 1, Some(t)), sub, doc);
        lemma_item_has_line(c, tasks, 1, Some(t));
        lemma_occurs_in_trans(item_line(c, 1, Some(t)), render_item(c, tasks, 1, Some(t)), doc);
    }
}

} // verus!
