use vstd::prelude::*;

use crate::db::tasks::{child_at, completed_at, deferred_at, find_first, find_task, open_at, opt_task_view, tasks_view, Lookup};
use crate::models::task::{Task, TaskStatus, TaskView};
use crate::order::{first_where, lemma_first_where};
use crate::text::{
    chars_of, decimal, find_char, index_of, is_digit, lemma_decimal_digits, lemma_parse_decimal,
    parse_u32, parse_unsigned, push_all, push_str, slice_chars, string_of,
};

verus! {

/// A parsed reference to a specific task used in commands like `status` and
/// `edit`.
///
/// Accepted string formats:
/// | Input    | Meaning                                           |
/// |----------|---------------------------------------------------|
/// | `1`      | Open top-level task #1                            |
/// | `1.2`    | Open subtask S#1.2 (sub_index 2 of open parent #1)|
/// | `C1`     | Completed top-level task C#1                      |
/// | `C1.2`   | Subtask with sub_index 2 of completed parent C#1  |
/// | `D1`     | Deferred top-level task D#1                       |
/// | `D1.2`   | Subtask with sub_index 2 of deferred parent D#1   |
///
/// The prefix is case-insensitive (`c1` == `C1`).
#[derive(Debug, PartialEq, Eq, Structural, Clone, Copy)]
pub enum TaskRef {
    /// Open top-level task by display_index.
    Open(u32),
    /// Open subtask: (parent open display_index, sub_index).
    OpenSub(u32, u32),
    /// Completed top-level task by completed_index.
    Completed(u32),
    /// Subtask of a completed parent: (parent completed_index, sub_index).
    CompletedSub(u32, u32),
    /// Deferred top-level task by deferred_index.
    Deferred(u32),
    /// Subtask of a deferred parent: (parent deferred_index, sub_index).
    DeferredSub(u32, u32),
}

/// Status prefix of a reference: `'C'` for completed, `'D'` for deferred,
/// `' '` for none. A reference has a prefix when its first character is that
/// letter in either case (the only characters whose uppercase starts with it).
pub open spec fn ref_prefix(s: Seq<char>) -> char {
    if s.len() > 0 && (s[0] == 'C' || s[0] == 'c') {
        'C'
    } else if s.len() > 0 && (s[0] == 'D' || s[0] == 'd') {
        'D'
    } else {
        ' '
    }
}

/// The reference without its prefix.
pub open spec fn ref_rest(s: Seq<char>) -> Seq<char> {
    if ref_prefix(s) == ' ' {
        s
    } else {
        s.drop_first()
    }
}

/// The top-level reference with status prefix `prefix` and index `n`.
pub open spec fn top_ref(prefix: char, n: u32) -> TaskRef {
    if prefix == 'C' {
        TaskRef::Completed(n)
    } else if prefix == 'D' {
        TaskRef::Deferred(n)
    } else {
        TaskRef::Open(n)
    }
}

/// The subtask reference with status prefix `prefix`, parent index `n`
/// and sub-index `sub`.
pub open spec fn sub_ref(prefix: char, n: u32, sub: u32) -> TaskRef {
    if prefix == 'C' {
        TaskRef::CompletedSub(n, sub)
    } else if prefix == 'D' {
        TaskRef::DeferredSub(n, sub)
    } else {
        TaskRef::OpenSub(n, sub)
    }
}

/// `before + s + after`, the shape of every error message.
pub open spec fn quoted(before: Seq<char>, s: Seq<char>, after: Seq<char>) -> Seq<char> {
    before + s + after
}

/// The result of parsing a task reference: the variant it names, or the
/// user-facing error message. The part before the first `'.'` is the task (or
/// parent) index and the part after it the sub-index; each is read as
/// `str::parse::<u32>` reads it. A sub-index must be at least 1 and so must a
/// top-level index.
pub open spec fn parse_task_ref(s: Seq<char>) -> Result<TaskRef, Seq<char>> {
    if s.len() == 0 {
        Err("Task reference cannot be empty."@)
    } else {
        let prefix = ref_prefix(s);
        let rest = ref_rest(s);
        let dot = index_of(rest, '.');
        match parse_unsigned(rest.take(dot), u32::MAX as nat) {
            None => Err(quoted("Invalid task reference '"@, s, "'."@)),
            Some(n) => if dot < rest.len() {
                match parse_unsigned(rest.skip(dot + 1), u32::MAX as nat) {
                    None => Err(quoted("Invalid sub-index in task reference '"@, s, "'."@)),
                    Some(sub) => if sub == 0 {
                        Err(quoted("Sub-index in '"@, s, "' must be ≥ 1."@))
                    } else {
                        Ok(sub_ref(prefix, n as u32, sub as u32))
                    },
                }
            } else if n == 0 {
                Err(quoted("Task index in '"@, s, "' must be ≥ 1."@))
            } else {
                Ok(top_ref(prefix, n as u32))
            },
        }
    }
}

/// A parse result with its error message as a character sequence.
pub open spec fn ref_result_view(r: Result<TaskRef, String>) -> Result<TaskRef, Seq<char>> {
    match r {
        Ok(t) => Ok(t),
        Err(e) => Err(e@),
    }
}

fn message(before: &str, s: &Vec<char>, after: &str) -> (m: String)
    ensures
        m@ == quoted(before@, s@, after@),
{
    let mut v: Vec<char> = Vec::new();
    push_str(&mut v, before);
    push_all(&mut v, s);
    push_str(&mut v, after);
    string_of(&v)
}

/// Parse a task reference string into a [`TaskRef`]; on failure the error is
/// a message suitable for the user.
pub fn parse(s: &str) -> (r: Result<TaskRef, String>)
    ensures
        ref_result_view(r) == parse_task_ref(s@),
{
    let cs = chars_of(s);
    if cs.len() == 0 {
        return Err("Task reference cannot be empty.".to_owned());
    }
    let first = cs[0];
    let prefix = if first == 'C' || first == 'c' {
        'C'
    } else if first == 'D' || first == 'd' {
        'D'
    } else {
        ' '
    };
    let rest = if prefix == ' ' {
        slice_chars(&cs, 0, cs.len())
    } else {
        slice_chars(&cs, 1, cs.len())
    };
    assert(rest@ =~= ref_rest(s@));
    let dot = find_char(&rest, '.');
    let primary_str = slice_chars(&rest, 0, dot);
    assert(primary_str@ =~= rest@.take(dot as int));
    let primary = match parse_u32(&primary_str, u32::MAX) {
        Some(n) => n,
        None => {
            return Err(message("Invalid task reference '", &cs, "'."));
        },
    };
    if dot < rest.len() {
        let sub_str = slice_chars(&rest, dot + 1, rest.len());
        assert(sub_str@ =~= rest@.skip(dot + 1));
        let sub = match parse_u32(&sub_str, u32::MAX) {
            Some(n) => n,
            None => {
                return Err(message("Invalid sub-index in task reference '", &cs, "'."));
            },
        };
        if sub == 0 {
            return Err(message("Sub-index in '", &cs, "' must be ≥ 1."));
        }
        return Ok(
            if prefix == 'C' {
                TaskRef::CompletedSub(primary, sub)
            } else if prefix == 'D' {
                TaskRef::DeferredSub(primary, sub)
            } else {
                TaskRef::OpenSub(primary, sub)
            },
        );
    }
    if primary == 0 {
        return Err(message("Task index in '", &cs, "' must be ≥ 1."));
    }
    Ok(
        if prefix == 'C' {
            TaskRef::Completed(primary)
        } else if prefix == 'D' {
            TaskRef::Deferred(primary)
        } else {
            TaskRef::Open(primary)
        },
    )
}


/// The task a reference names among the tasks `s` of a scope: a top-level
/// reference names the first task with that status and index; a subtask
/// reference names the first subtask with that sub-index of the parent that
/// the first part names.
pub open spec fn resolve_ref(s: Seq<TaskView>, r: TaskRef) -> Option<TaskView> {
    match r {
        TaskRef::Open(i) => find_task(s, open_at(i)),
        TaskRef::Completed(i) => find_task(s, completed_at(i)),
        TaskRef::Deferred(i) => find_task(s, deferred_at(i)),
        TaskRef::OpenSub(p, sub) => match find_task(s, open_at(p)) {
            Some(parent) => find_task(s, child_at(parent.id, sub)),
            None => None,
        },
        TaskRef::CompletedSub(p, sub) => match find_task(s, completed_at(p)) {
            Some(parent) => find_task(s, child_at(parent.id, sub)),
            None => None,
        },
        TaskRef::DeferredSub(p, sub) => match find_task(s, deferred_at(p)) {
            Some(parent) => find_task(s, child_at(parent.id, sub)),
            None => None,
        },
    }
}

/// Resolve a [`TaskRef`] to a concrete task among `tasks`, the tasks of the
/// current scope. `None` when no task matches.
pub fn resolve(tasks: &Vec<Task>, task_ref: &TaskRef) -> (r: Option<Task>)
    ensures
        opt_task_view(r) == resolve_ref(tasks_view(tasks@), *task_ref),
{
    let (parent_lookup, sub) = match *task_ref {
        TaskRef::Open(i) => return find_first(tasks, Lookup::Open(i)),
        TaskRef::Completed(i) => return find_first(tasks, Lookup::Completed(i)),
        TaskRef::Deferred(i) => return find_first(tasks, Lookup::Deferred(i)),
        TaskRef::OpenSub(p, sub) => (Lookup::Open(p), sub),
        TaskRef::CompletedSub(p, sub) => (Lookup::Completed(p), sub),
        TaskRef::DeferredSub(p, sub) => (Lookup::Deferred(p), sub),
    };
    match find_first(tasks, parent_lookup) {
        Some(parent) => find_first(tasks, Lookup::Child(parent.id, sub)),
        None => None,
    }
}

/// The text of a reference as a user types it: the status letter (none
/// for an open task), the index, and `.` with the sub-index for a subtask,
/// e.g. `3`, `C1`, `D2.1`.
pub open spec fn ref_text(r: TaskRef) -> Seq<char> {
    match r {
        TaskRef::Open(n) => decimal(n as nat),
        TaskRef::OpenSub(n, sub) => decimal(n as nat) + seq!['.'] + decimal(sub as nat),
        TaskRef::Completed(n) => seq!['C'] + decimal(n as nat),
        TaskRef::CompletedSub(n, sub) => seq!['C'] + decimal(n as nat) + seq!['.'] + decimal(
            sub as nat,
        ),
        TaskRef::Deferred(n) => seq!['D'] + decimal(n as nat),
        TaskRef::DeferredSub(n, sub) => seq!['D'] + decimal(n as nat) + seq!['.'] + decimal(
            sub as nat,
        ),
    }
}

/// Whether a reference has the indices `parse` accepts: a top-level index
/// of at least 1, a sub-index of at least 1.
pub open spec fn valid_ref(r: TaskRef) -> bool {
    match r {
        TaskRef::Open(n) => n >= 1,
        TaskRef::Completed(n) => n >= 1,
        TaskRef::Deferred(n) => n >= 1,
        TaskRef::OpenSub(_, sub) => sub >= 1,
        TaskRef::CompletedSub(_, sub) => sub >= 1,
        TaskRef::DeferredSub(_, sub) => sub >= 1,
    }
}

proof fn lemma_index_parts(a: Seq<char>, b: Seq<char>)
    requires
        !a.contains('.'),
    ensures
        index_of(a, '.') == a.len(),
        index_of(a + seq!['.'] + b, '.') == a.len(),
        (a + seq!['.'] + b).take(a.len() as int) == a,
        (a + seq!['.'] + b).skip(a.len() as int + 1) == b,
{
    let s = a + seq!['.'] + b;
    assert forall|k: int| 0 <= k < a.len() implies !crate::text::is_char('.')(#[trigger] a[k]) by {
        if a[k] == '.' {
            assert(a.contains('.'));
        }
    }
    lemma_first_where(a, crate::text::is_char('.'), a.len() as int);
    assert forall|k: int| 0 <= k < a.len() implies !crate::text::is_char('.')(#[trigger] s[k]) by {
        assert(s[k] == a[k]);
    }
    assert(s[a.len() as int] == '.');
    lemma_first_where(s, crate::text::is_char('.'), a.len() as int);
    assert(s.take(a.len() as int) =~= a);
    assert(s.skip(a.len() as int + 1) =~= b);
}

/// `parse` reads the text of every valid reference back as that reference:
/// what `ref_text` prints is what `parse` accepts.
pub proof fn lemma_parse_ref_text(r: TaskRef)
    requires
        valid_ref(r),
    ensures
        parse_task_ref(ref_text(r)) == Ok::<TaskRef, Seq<char>>(r),
{
    let (n, sub): (u32, Option<u32>) = match r {
        TaskRef::Open(n) => (n, None),
        TaskRef::Completed(n) => (n, None),
        TaskRef::Deferred(n) => (n, None),
        TaskRef::OpenSub(n, s) => (n, Some(s)),
        TaskRef::CompletedSub(n, s) => (n, Some(s)),
        TaskRef::DeferredSub(n, s) => (n, Some(s)),
    };
    lemma_decimal_digits(n as nat);
    lemma_parse_decimal(n as nat, u32::MAX as nat);
    let dn = decimal(n as nat);
    let rest = match sub {
        Some(m) => dn + seq!['.'] + decimal(m as nat),
        None => dn,
    };
    match sub {
        Some(m) => {
            lemma_decimal_digits(m as nat);
            lemma_parse_decimal(m as nat, u32::MAX as nat);
            lemma_index_parts(dn, decimal(m as nat));
        },
        None => {
            lemma_index_parts(dn, seq![]);
            assert(rest.take(dn.len() as int) =~= dn);
        },
    }
    let text = ref_text(r);
    assert(is_digit(dn[0]));
    match r {
        TaskRef::Open(_) | TaskRef::OpenSub(_, _) => {
            assert(text =~= rest);
            assert(text[0] == dn[0]);
            assert(ref_prefix(text) == ' ');
        },
        TaskRef::Completed(_) | TaskRef::CompletedSub(_, _) => {
            assert(text =~= seq!['C'] + rest);
            assert(ref_prefix(text) == 'C');
            assert(ref_rest(text) =~= rest);
        },
        _ => {
            assert(text =~= seq!['D'] + rest);
            assert(ref_prefix(text) == 'D');
            assert(ref_rest(text) =~= rest);
        },
    }
}

/// The status prefix is case-insensitive: a reference that starts with `c`
/// or `d` names what the same reference with `C` or `D` names, and is
/// refused exactly when that one is (the message quotes the input as typed).
pub proof fn lemma_prefix_case_insensitive(s: Seq<char>)
    requires
        s.len() > 0,
        s[0] == 'c' || s[0] == 'd',
    ensures
        ({
            let upper = s.update(0, if s[0] == 'c' { 'C' } else { 'D' });
            &&& (parse_task_ref(s) is Ok <==> parse_task_ref(upper) is Ok)
            &&& (parse_task_ref(s) is Ok ==> parse_task_ref(s) == parse_task_ref(upper))
        }),
{
    let upper = s.update(0, if s[0] == 'c' { 'C' } else { 'D' });
    assert(ref_prefix(s) == ref_prefix(upper));
    assert(ref_rest(s) =~= ref_rest(upper));
}

/// Whether `x` is the kind of task the first part of `r` names, read from
/// its fields: for `n`, an open task with display index `n`; for `Cn`, a
/// completed top-level task with completed index `n`; for `Dn`, a deferred
/// top-level task with deferred index `n` (for a subtask reference, the
/// parent).
pub open spec fn first_part_names(r: TaskRef, x: TaskView) -> bool {
    match r {
        TaskRef::Open(n) | TaskRef::OpenSub(n, _) => x.status == TaskStatus::Open && x.display_index == n,
        TaskRef::Completed(n) | TaskRef::CompletedSub(n, _) => x.status == TaskStatus::Complete
            && x.completed_index == Some(n) && x.parent_id is None,
        TaskRef::Deferred(n) | TaskRef::DeferredSub(n, _) => x.status == TaskStatus::Defer
            && x.deferred_index == Some(n) && x.parent_id is None,
    }
}

/// The sub-index of a subtask reference.
pub open spec fn sub_part(r: TaskRef) -> Option<u32> {
    match r {
        TaskRef::OpenSub(_, sub) | TaskRef::CompletedSub(_, sub) | TaskRef::DeferredSub(_, sub) => Some(sub),
        _ => None,
    }
}

/// Whether `x` is the subtask with sub-index `sub` of the task with id `parent`.
pub open spec fn is_sub_of(x: TaskView, parent: u128, sub: u32) -> bool {
    x.parent_id == Some(parent) && x.sub_index == Some(sub)
}

/// Whether `s[i]` is the first task of `s` that the first part of `r` names.
pub open spec fn first_named_at(s: Seq<TaskView>, r: TaskRef, i: int) -> bool {
    &&& 0 <= i < s.len()
    &&& first_part_names(r, s[i])
    &&& forall|k: int| 0 <= k < i ==> !#[trigger] first_part_names(r, s[k])
}

/// What resolving a reference finds among the tasks `s` of a scope. A
/// top-level reference finds the first task that its text names, and
/// nothing only when no task is so named. A subtask reference finds, under
/// the first task its first part names, the first subtask with its
/// sub-index; it finds nothing only when no task is so named or that task
/// has no such subtask.
#[verifier::rlimit(30)]
pub proof fn lemma_resolve_finds_named(s: Seq<TaskView>, r: TaskRef)
    ensures
        sub_part(r) is None ==> match resolve_ref(s, r) {
            Some(x) => exists|i: int| first_named_at(s, r, i) && #[trigger] s[i] == x,
            None => forall|k: int| 0 <= k < s.len() ==> !#[trigger] first_part_names(r, s[k]),
        },
        sub_part(r) matches Some(sub) ==> match resolve_ref(s, r) {
            Some(x) => exists|i: int, j: int|
                #![trigger s[i], s[j]]
                first_named_at(s, r, i) && 0 <= j < s.len() && s[j] == x && is_sub_of(x, s[i].id, sub)
                    && forall|k: int| 0 <= k < j ==> !#[trigger] is_sub_of(s[k], s[i].id, sub),
            None => (forall|k: int| 0 <= k < s.len() ==> !#[trigger] first_part_names(r, s[k])) || exists|i: int|
                #![trigger s[i]]
                first_named_at(s, r, i) && forall|j: int| 0 <= j < s.len() ==> !#[trigger] is_sub_of(s[j], s[i].id, sub),
        },
{
    let pp = parent_pred(r);
    lemma_parent_pred(r);
    crate::order::lemma_first_where_props(s, pp);
    match first_where(s, pp) {
        Some(i) => {
            assert(first_part_names(r, s[i]));
            assert forall|k: int| 0 <= k < i implies !#[trigger] first_part_names(r, s[k]) by {
                assert(!pp(s[k]));
            }
            assert(first_named_at(s, r, i));
            assert(find_task(s, pp) == Some(s[i]));
            match sub_part(r) {
                None => {
                    assert(resolve_ref(s, r) == find_task(s, pp));
                },
                Some(sub) => {
                    let cp = child_at(s[i].id, sub);
                    assert(resolve_ref(s, r) == find_task(s, cp));
                    crate::order::lemma_first_where_props(s, cp);
                    match first_where(s, cp) {
                        Some(j) => {
                            assert(cp(s[j]));
                            assert(is_sub_of(s[j], s[i].id, sub));
                            assert forall|k: int| 0 <= k < j implies !#[trigger] is_sub_of(s[k], s[i].id, sub) by {
                                assert(!cp(s[k]));
                            }
                        },
                        None => {
                            assert forall|k: int| 0 <= k < s.len() implies !#[trigger] is_sub_of(s[k], s[i].id, sub) by {
                                assert(!cp(s[k]));
                            }
                        },
                    }
                },
            }
        },
        None => {
            assert forall|k: int| 0 <= k < s.len() implies !#[trigger] first_part_names(r, s[k]) by {
                assert(!pp(s[k]));
            }
            assert(find_task(s, pp) is None);
        },
    }
}

/// The predicate of the first part of a reference.
spec fn parent_pred(r: TaskRef) -> spec_fn(TaskView) -> bool {
    match r {
        TaskRef::Open(n) | TaskRef::OpenSub(n, _) => open_at(n),
        TaskRef::Completed(n) | TaskRef::CompletedSub(n, _) => completed_at(n),
        TaskRef::Deferred(n) | TaskRef::DeferredSub(n, _) => deferred_at(n),
    }
}

proof fn lemma_parent_pred(r: TaskRef)
    ensures
        forall|x: TaskView| #[trigger] parent_pred(r)(x) == first_part_names(r, x),
{
}

} // verus!
