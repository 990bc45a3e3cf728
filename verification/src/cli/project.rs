use vstd::prelude::*;

use crate::db::categories::categories_view;
use crate::db::projects::{in_category, projects_view};
use crate::db::tasks::tasks_view;
use crate::git::{format_git_info, git_line, opt_chars, GitInfo};
use crate::models::category::{Category, CategoryView};
use crate::models::project::{Project, ProjectView};
use crate::models::task::{Task, TaskStatus, TaskView};
use crate::order::{first_where, lemma_first_where};
use crate::text::{
    chars_eq_ignore_ascii_case, chars_of, decimal, eq_ignore_ascii_case, lowercase,
    push_decimal, push_str, str_eq, string_of, to_lowercase,
};
use crate::time::{day_month_year, format_day_month_year, representable};
use crate::workspace::{encloses, most_specific, resolve};

verus! {

broadcast use vstd::seq_lib::group_filter_ensures;

/// Arguments of `moco project list`.
pub struct ListArgs {
    /// Only show projects that have this label.
    pub label: Option<String>,
    /// Only show projects in this category.
    pub category: Option<String>,
}

/// The predicate "has no category".
pub open spec fn uncategorized() -> spec_fn(ProjectView) -> bool {
    |p: ProjectView| p.category is None
}

/// The header of the group of projects without a category.
pub open spec fn uncategorized_header() -> Seq<char> {
    "Uncategorized"@
}

/// The category groups of a project list: for each category in turn, its
/// name and its projects (in list order), skipping categories without
/// projects.
pub open spec fn category_groups(ps: Seq<ProjectView>, cs: Seq<CategoryView>) -> Seq<
    (Seq<char>, Seq<ProjectView>),
>
    decreases cs.len(),
{
    if cs.len() == 0 {
        seq![]
    } else {
        let prev = category_groups(ps, cs.drop_last());
        let members = ps.filter(in_category(cs.last().name));
        if members.len() > 0 {
            prev.push((cs.last().name, members))
        } else {
            prev
        }
    }
}

/// The groups `moco project list` shows: the category groups in category
/// order, then `Uncategorized` with the projects without a category when
/// there are any.
pub open spec fn project_groups(ps: Seq<ProjectView>, cs: Seq<CategoryView>) -> Seq<
    (Seq<char>, Seq<ProjectView>),
> {
    let loose = ps.filter(uncategorized());
    if loose.len() > 0 {
        category_groups(ps, cs).push((uncategorized_header(), loose))
    } else {
        category_groups(ps, cs)
    }
}

/// The contents of a list of groups.
pub open spec fn groups_view(gs: Seq<(String, Vec<Project>)>) -> Seq<(Seq<char>, Seq<ProjectView>)> {
    gs.map_values(|g: (String, Vec<Project>)| (g.0@, projects_view(g.1@)))
}

fn projects_where_category(projects: &Vec<Project>, name: Option<&str>) -> (r: Vec<Project>)
    ensures
        projects_view(r@) == projects_view(projects@).filter(
            match name {
                Some(n) => in_category(n@),
                None => uncategorized(),
            },
        ),
{
    let ghost pred = match name {
        Some(n) => in_category(n@),
        None => uncategorized(),
    };
    let ghost s = projects_view(projects@);
    let mut r: Vec<Project> = Vec::new();
    let mut i: usize = 0;
    while i < projects.len()
        invariant
            i <= projects.len(),
            s == projects_view(projects@),
            pred == (match name {
                Some(n) => in_category(n@),
                None => uncategorized(),
            }),
            projects_view(r@) == s.take(i as int).filter(pred),
        decreases projects.len() - i,
    {
        proof {
            reveal(Seq::filter);
            assert(s.take(i as int + 1).drop_last() =~= s.take(i as int));
        }
        let keep = match (&projects[i].category, name) {
            (Some(c), Some(n)) => str_eq(c.as_str(), n),
            (None, None) => true,
            _ => false,
        };
        if keep {
            r.push(projects[i].clone());
            assert(projects_view(r@) =~= s.take(i as int).filter(pred).push(s[i as int]));
        }
        i = i + 1;
    }
    assert(s.take(projects.len() as int) =~= s);
    r
}

/// Group projects by category for `moco project list`: the categories in
/// the given (display) order, each with its projects, empty categories
/// skipped, and `Uncategorized` last.
pub fn group_projects(projects: &Vec<Project>, categories: &Vec<Category>) -> (r: Vec<(String, Vec<Project>)>)
    ensures
        groups_view(r@) == project_groups(projects_view(projects@), categories_view(categories@)),
{
    let ghost ps = projects_view(projects@);
    let ghost cs = categories_view(categories@);
    let mut r: Vec<(String, Vec<Project>)> = Vec::new();
    let mut i: usize = 0;
    while i < categories.len()
        invariant
            i <= categories.len(),
            ps == projects_view(projects@),
            cs == categories_view(categories@),
            groups_view(r@) == category_groups(ps, cs.take(i as int)),
        decreases categories.len() - i,
    {
        assert(cs.take(i as int + 1).drop_last() =~= cs.take(i as int));
        assert(cs.take(i as int + 1).last() == categories@[i as int]@);
        let members = projects_where_category(projects, Some(categories[i].name.as_str()));
        if members.len() > 0 {
            let ghost before = r@;
            r.push((categories[i].name.clone(), members));
            assert(groups_view(r@) =~= groups_view(before).push(
                (categories@[i as int]@.name, projects_view(members@)),
            ));
        }
        i = i + 1;
    }
    assert(cs.take(categories.len() as int) =~= cs);
    let loose = projects_where_category(projects, None);
    if loose.len() > 0 {
        let ghost before = r@;
        r.push(("Uncategorized".to_string(), loose));
        assert(groups_view(r@) =~= groups_view(before).push(
            (uncategorized_header(), projects_view(loose@)),
        ));
    }
    r
}

/// Every group but the last comes from a category; the projects without a
/// category all appear, in the last group, headed `Uncategorized`.
pub proof fn lemma_uncategorized_last(ps: Seq<ProjectView>, cs: Seq<CategoryView>)
    requires
        exists|i: int| 0 <= i < ps.len() && ps[i].category is None,
    ensures
        project_groups(ps, cs).len() > 0,
        project_groups(ps, cs).last() == (uncategorized_header(), ps.filter(uncategorized())),
        forall|k: int|
            0 <= k < project_groups(ps, cs).len() - 1 ==> #[trigger] project_groups(ps, cs)[k]
                == category_groups(ps, cs)[k],
{
    let i = choose|i: int| 0 <= i < ps.len() && ps[i].category is None;
    assert(uncategorized()(ps[i]));
    assert(ps.filter(uncategorized()).contains(ps[i]));
}

/// Every project in a category group is in that category.
pub proof fn lemma_category_groups_members(ps: Seq<ProjectView>, cs: Seq<CategoryView>)
    ensures
        forall|k: int, j: int|
            0 <= k < category_groups(ps, cs).len() && 0 <= j < category_groups(ps, cs)[k].1.len()
                ==> (#[trigger] category_groups(ps, cs)[k].1[j]).category == Some(
                category_groups(ps, cs)[k].0,
            ),
    decreases cs.len(),
{
    if cs.len() > 0 {
        lemma_category_groups_members(ps, cs.drop_last());
        let prev = category_groups(ps, cs.drop_last());
        let members = ps.filter(in_category(cs.last().name));
        assert forall|j: int| 0 <= j < members.len() implies (#[trigger] members[j]).category == Some(
            cs.last().name,
        ) by {
            assert(in_category(cs.last().name)(members[j]));
        }
    }
}

/// A `last_active` as the project list shows it: `never` for a time within
/// the first second of the epoch (records that never had one), else its
/// UTC date as `DD-MM-YYYY`.
pub open spec fn last_active_text(micros: i64) -> Seq<char> {
    if 0 <= micros < 1_000_000 {
        "never"@
    } else {
        day_month_year(micros)
    }
}

/// Format a `last_active` timestamp as `DD-MM-YYYY`, or `"never"` for the
/// epoch sentinel.
pub fn format_last_active(micros: i64) -> (r: String)
    requires
        representable(micros),
    ensures
        r@ == last_active_text(micros),
{
    if 0 <= micros && micros < 1_000_000 {
        "never".to_string()
    } else {
        format_day_month_year(micros)
    }
}

/// The git line of a project in the list: the live branch and remote when
/// the directory is a repository and they say something, else nothing;
/// with no repository, the cached remote as `↑ <url> (cached)`.
pub open spec fn project_git_text(live: Option<(Option<Seq<char>>, Option<Seq<char>>)>, cached: Option<
    Seq<char>,
>) -> Option<Seq<char>> {
    match live {
        Some((branch, url)) => if git_line(branch, url).len() > 0 {
            Some(git_line(branch, url))
        } else {
            None
        },
        None => match cached {
            Some(u) => Some("↑ "@ + u + " (cached)"@),
            None => None,
        },
    }
}

/// The branch and remote of live git information.
pub open spec fn live_view(live: Option<GitInfo>) -> Option<(Option<Seq<char>>, Option<Seq<char>>)> {
    match live {
        Some(info) => Some((opt_chars(info.branch), opt_chars(info.remote_url))),
        None => None,
    }
}

/// The git line of a project in the list, from live repository information
/// (`None` outside a repository) and the cached remote.
pub fn project_git_line(live: &Option<GitInfo>, cached: &Option<String>) -> (r: Option<String>)
    ensures
        match r {
            Some(s) => project_git_text(live_view(*live), opt_chars(*cached)) == Some(s@),
            None => project_git_text(live_view(*live), opt_chars(*cached)) is None,
        },
{
    match live {
        Some(info) => {
            let s = format_git_info(info);
            if chars_of(s.as_str()).len() > 0 {
                Some(s)
            } else {
                None
            }
        },
        None => match cached {
            Some(u) => {
                let mut v: Vec<char> = Vec::new();
                push_str(&mut v, "↑ ");
                push_str(&mut v, u.as_str());
                push_str(&mut v, " (cached)");
                Some(string_of(&v))
            },
            None => None,
        },
    }
}

/// How many tasks have `status`.
pub open spec fn count_status(ts: Seq<TaskView>, status: TaskStatus) -> nat {
    ts.filter(|t: TaskView| t.status == status).len()
}

/// The task counts of a project as the list and `project info` show them:
/// `"<n> open"`, `"<n> complete"`, `"<n> deferred"`, each only when not zero.
pub open spec fn count_parts(open: nat, complete: nat, deferred: nat) -> Seq<Seq<char>> {
    (if open > 0 {
        seq![decimal(open) + " open"@]
    } else {
        seq![]
    }) + (if complete > 0 {
        seq![decimal(complete) + " complete"@]
    } else {
        seq![]
    }) + (if deferred > 0 {
        seq![decimal(deferred) + " deferred"@]
    } else {
        seq![]
    })
}

/// The number of open, completed and deferred tasks.
pub fn status_counts(tasks: &Vec<Task>) -> (r: (usize, usize, usize))
    ensures
        r.0 == count_status(tasks_view(tasks@), TaskStatus::Open),
        r.1 == count_status(tasks_view(tasks@), TaskStatus::Complete),
        r.2 == count_status(tasks_view(tasks@), TaskStatus::Defer),
{
    let ghost s = tasks_view(tasks@);
    let ghost po = |t: TaskView| t.status == TaskStatus::Open;
    let ghost pc = |t: TaskView| t.status == TaskStatus::Complete;
    let ghost pd = |t: TaskView| t.status == TaskStatus::Defer;
    let mut o: usize = 0;
    let mut c: usize = 0;
    let mut d: usize = 0;
    let mut i: usize = 0;
    while i < tasks.len()
        invariant
            i <= tasks.len(),
            s == tasks_view(tasks@),
            po == (|t: TaskView| t.status == TaskStatus::Open),
            pc == (|t: TaskView| t.status == TaskStatus::Complete),
            pd == (|t: TaskView| t.status == TaskStatus::Defer),
            o == s.take(i as int).filter(po).len(),
            c == s.take(i as int).filter(pc).len(),
            d == s.take(i as int).filter(pd).len(),
            o + c + d <= i,
        decreases tasks.len() - i,
    {
        proof {
            reveal(Seq::filter);
            assert(s.take(i as int + 1).drop_last() =~= s.take(i as int));
        }
        match tasks[i].status {
            TaskStatus::Open => {
                o = o + 1;
            },
            TaskStatus::Complete => {
                c = c + 1;
            },
            TaskStatus::Defer => {
                d = d + 1;
            },
        }
        i = i + 1;
    }
    assert(s.take(tasks.len() as int) =~= s);
    (o, c, d)
}

/// The task count texts of a project: `"<n> open"`, `"<n> complete"`,
/// `"<n> deferred"`, each only when not zero.
pub fn count_summary(open: usize, complete: usize, deferred: usize) -> (r: Vec<String>)
    ensures
        crate::text::string_views(r@) == count_parts(open as nat, complete as nat, deferred as nat),
{
    let mut r: Vec<String> = Vec::new();
    let ghost mut acc: Seq<Seq<char>> = seq![];
    if open > 0 {
        let mut v: Vec<char> = Vec::new();
        push_decimal(&mut v, open as u64);
        push_str(&mut v, " open");
        r.push(string_of(&v));
        proof {
            acc = acc.push(decimal(open as nat) + " open"@);
        }
    }
    assert(crate::text::string_views(r@) =~= acc);
    if complete > 0 {
        let mut v: Vec<char> = Vec::new();
        push_decimal(&mut v, complete as u64);
        push_str(&mut v, " complete");
        r.push(string_of(&v));
        proof {
            acc = acc.push(decimal(complete as nat) + " complete"@);
        }
    }
    assert(crate::text::string_views(r@) =~= acc);
    if deferred > 0 {
        let mut v: Vec<char> = Vec::new();
        push_decimal(&mut v, deferred as u64);
        push_str(&mut v, " deferred");
        r.push(string_of(&v));
        proof {
            acc = acc.push(decimal(deferred as nat) + " deferred"@);
        }
    }
    assert(crate::text::string_views(r@) =~= acc);
    assert(acc =~= count_parts(open as nat, complete as nat, deferred as nat));
    r
}

/// The predicate "named `name`, ignoring ASCII case".
pub open spec fn named_like(name: Seq<char>) -> spec_fn(ProjectView) -> bool {
    |p: ProjectView| eq_ignore_ascii_case(p.name, name)
}

/// The first project whose name equals `name` ignoring ASCII case
/// (`project info --name`, `project set-sync --name`).
pub fn find_project_by_name(projects: &Vec<Project>, name: &str) -> (r: Option<Project>)
    ensures
        match r {
            Some(p) => first_where(projects_view(projects@), named_like(name@)) matches Some(i)
                && p@ == projects_view(projects@)[i],
            None => first_where(projects_view(projects@), named_like(name@)) is None,
        },
{
    let ghost s = projects_view(projects@);
    let mut i: usize = 0;
    while i < projects.len()
        invariant
            i <= projects.len(),
            s == projects_view(projects@),
            forall|k: int| 0 <= k < i ==> !named_like(name@)(#[trigger] s[k]),
        decreases projects.len() - i,
    {
        if chars_eq_ignore_ascii_case(&chars_of(projects[i].name.as_str()), name) {
            proof {
                lemma_first_where(s, named_like(name@), i as int);
            }
            return Some(projects[i].clone());
        }
        i = i + 1;
    }
    proof {
        lemma_first_where(s, named_like(name@), i as int);
    }
    None
}

/// The project a command targets: with `--name`, the first project so named
/// ignoring ASCII case; without it, the project the workspace at `cwd`
/// resolves to. `missing` is the message when no project encloses `cwd`.
pub fn named_or_current(projects: &Vec<Project>, name: Option<&str>, cwd: &str, missing: &str) -> (r: Result<Project, String>)
    ensures
        match name {
            Some(n) => match first_where(projects_view(projects@), named_like(n@)) {
                Some(i) => r matches Ok(p) && p@ == projects_view(projects@)[i],
                None => r matches Err(e) && e@ == "No project named '"@ + n@ + "'."@,
            },
            None => match r {
                Ok(p) => exists|i: int|
                    most_specific(projects_view(projects@), cwd@, i) && p@ == #[trigger] projects_view(
                        projects@,
                    )[i],
                Err(e) => e@ == missing@ && forall|j: int|
                    0 <= j < projects.len() ==> !encloses(#[trigger] projects_view(projects@)[j], cwd@),
            },
        },
{
    match name {
        Some(n) => match find_project_by_name(projects, n) {
            Some(p) => Ok(p),
            None => {
                let mut v: Vec<char> = Vec::new();
                push_str(&mut v, "No project named '");
                push_str(&mut v, n);
                push_str(&mut v, "'.");
                Err(string_of(&v))
            },
        },
        None => match resolve(projects, cwd) {
            Some(p) => Ok(p),
            None => Err(missing.to_string()),
        },
    }
}

/// The predicate "named `name` once both are lowercased".
pub open spec fn named_lower(lower_name: Seq<char>) -> spec_fn(ProjectView) -> bool {
    |p: ProjectView| lowercase(p.name) == lower_name
}

/// The project named `name` (compared lowercased) for `project
/// set-category`: the only match, or the error for none or several.
pub open spec fn unique_named(ps: Seq<ProjectView>, name: Seq<char>) -> Result<ProjectView, Seq<char>> {
    let matches = ps.filter(named_lower(lowercase(name)));
    if matches.len() == 0 {
        Err("No project named '"@ + name + "' found."@)
    } else if matches.len() == 1 {
        Ok(matches[0])
    } else {
        Err("Multiple projects named '"@ + name + "' found. Rename them to disambiguate."@)
    }
}

/// Resolve the project named `name` (case-insensitively, by lowercasing
/// both) for `project set-category`.
pub fn resolve_named_project(projects: &Vec<Project>, name: &str) -> (r: Result<Project, String>)
    ensures
        match r {
            Ok(p) => unique_named(projects_view(projects@), name@) == Ok::<ProjectView, Seq<char>>(p@),
            Err(e) => unique_named(projects_view(projects@), name@) == Err::<ProjectView, Seq<char>>(e@),
        },
{
    let lower = to_lowercase(name);
    let ghost pred = named_lower(lowercase(name@));
    let ghost s = projects_view(projects@);
    let mut matches: Vec<Project> = Vec::new();
    let mut i: usize = 0;
    while i < projects.len()
        invariant
            i <= projects.len(),
            s == projects_view(projects@),
            lower@ == lowercase(name@),
            pred == named_lower(lowercase(name@)),
            projects_view(matches@) == s.take(i as int).filter(pred),
        decreases projects.len() - i,
    {
        proof {
            reveal(Seq::filter);
            assert(s.take(i as int + 1).drop_last() =~= s.take(i as int));
        }
        let pl = to_lowercase(projects[i].name.as_str());
        if str_eq(pl.as_str(), lower.as_str()) {
            matches.push(projects[i].clone());
            assert(projects_view(matches@) =~= s.take(i as int).filter(pred).push(s[i as int]));
        }
        i = i + 1;
    }
    assert(s.take(projects.len() as int) =~= s);
    if matches.len() == 0 {
        let mut v: Vec<char> = Vec::new();
        push_str(&mut v, "No project named '");
        push_str(&mut v, name);
        push_str(&mut v, "' found.");
        Err(string_of(&v))
    } else if matches.len() == 1 {
        let p = matches[0].clone();
        assert(projects_view(matches@)[0] == p@);
        Ok(p)
    } else {
        let mut v: Vec<char> = Vec::new();
        push_str(&mut v, "Multiple projects named '");
        push_str(&mut v, name);
        push_str(&mut v, "' found. Rename them to disambiguate.");
        Err(string_of(&v))
    }
}

/// Check a 1-based category position against the number of categories.
pub open spec fn reorder_check(position: nat, count: nat) -> Result<(), Seq<char>> {
    if position == 0 || position > count {
        Err("Position "@ + decimal(position) + " is out of range. Valid positions are 1–"@ + decimal(
            count,
        ) + "."@)
    } else {
        Ok(())
    }
}

/// Check the position of `project category reorder`.
pub fn check_reorder_position(position: usize, count: usize) -> (r: Result<(), String>)
    ensures
        match r {
            Ok(()) => reorder_check(position as nat, count as nat) is Ok,
            Err(e) => reorder_check(position as nat, count as nat) == Err::<(), Seq<char>>(e@),
        },
{
    if position == 0 || position > count {
        let mut v: Vec<char> = Vec::new();
        push_str(&mut v, "Position ");
        push_decimal(&mut v, position as u64);
        push_str(&mut v, " is out of range. Valid positions are 1–");
        push_decimal(&mut v, count as u64);
        push_str(&mut v, ".");
        Err(string_of(&v))
    } else {
        Ok(())
    }
}

/// Whether a category with `assigned` projects may be removed: always with
/// `--force` or when none is assigned, else the error that asks for it.
pub open spec fn removal_check(name: Seq<char>, assigned: nat, force: bool) -> Result<(), Seq<char>> {
    if assigned > 0 && !force {
        Err(decimal(assigned) + " project(s) are assigned to category '"@ + name
            + "'. Use --force to remove the category and un-assign them."@)
    } else {
        Ok(())
    }
}

/// Check `project category remove` against the projects assigned to it.
pub fn check_category_removal(name: &str, assigned: usize, force: bool) -> (r: Result<(), String>)
    ensures
        match r {
            Ok(()) => removal_check(name@, assigned as nat, force) is Ok,
            Err(e) => removal_check(name@, assigned as nat, force) == Err::<(), Seq<char>>(e@),
        },
{
    if assigned > 0 && !force {
        let mut v: Vec<char> = Vec::new();
        push_decimal(&mut v, assigned as u64);
        push_str(&mut v, " project(s) are assigned to category '");
        push_str(&mut v, name);
        push_str(&mut v, "'. Use --force to remove the category and un-assign them.");
        Err(string_of(&v))
    } else {
        Ok(())
    }
}

/// What `project move` does given the project already registered at the
/// new path, if any.
#[derive(Debug, Clone, Copy, PartialEq, Eq, Structural)]
pub enum Relocation {
    /// Another project is registered there: refuse.
    Conflict,
    /// The project itself is registered there: nothing to do.
    AlreadyThere,
    /// Nothing is registered there: move.
    Move,
}

/// Decide `project move` from the project registered at the target path.
pub fn relocation(existing: Option<&Project>, project: &Project) -> (r: Relocation)
    ensures
        r == (match existing {
            Some(e) => if e@.id != project@.id {
                Relocation::Conflict
            } else {
                Relocation::AlreadyThere
            },
            None => Relocation::Move,
        }),
{
    match existing {
        Some(e) => if e.id != project.id {
            Relocation::Conflict
        } else {
            Relocation::AlreadyThere
        },
        None => Relocation::Move,
    }
}

/// The predicate "carries a label equal to `lower` once lowercased".
pub open spec fn labelled_like(lower: Seq<char>) -> spec_fn(ProjectView) -> bool {
    |p: ProjectView| exists|i: int| 0 <= i < p.labels.len() && lowercase(#[trigger] p.labels[i]) == lower
}

/// The projects with a label equal to `label` when both are lowercased
/// (`project list --label`), in list order.
pub fn projects_labelled_like(projects: &Vec<Project>, label: &str) -> (r: Vec<Project>)
    ensures
        projects_view(r@) == projects_view(projects@).filter(labelled_like(lowercase(label@))),
{
    let lower = to_lowercase(label);
    let ghost pred = labelled_like(lowercase(label@));
    let ghost s = projects_view(projects@);
    let mut r: Vec<Project> = Vec::new();
    let mut i: usize = 0;
    while i < projects.len()
        invariant
            i <= projects.len(),
            s == projects_view(projects@),
            lower@ == lowercase(label@),
            pred == labelled_like(lowercase(label@)),
            projects_view(r@) == s.take(i as int).filter(pred),
        decreases projects.len() - i,
    {
        proof {
            reveal(Seq::filter);
            assert(s.take(i as int + 1).drop_last() =~= s.take(i as int));
        }
        let p = &projects[i];
        let mut found = false;
        let mut j: usize = 0;
        while j < p.labels.len() && !found
            invariant
                j <= p.labels.len(),
                p@ == s[i as int],
                lower@ == lowercase(label@),
                found ==> exists|k: int| 0 <= k < j && lowercase(#[trigger] p@.labels[k]) == lowercase(label@),
                !found ==> forall|k: int| 0 <= k < j ==> lowercase(#[trigger] p@.labels[k]) != lowercase(label@),
            decreases p.labels.len() - j + if found { 0int } else { 1int },
        {
            let l = to_lowercase(p.labels[j].as_str());
            assert(p@.labels[j as int] == p.labels@[j as int]@);
            if str_eq(l.as_str(), lower.as_str()) {
                found = true;
            }
            j = j + 1;
        }
        assert(found == pred(s[i as int]));
        if found {
            r.push(p.clone());
            assert(projects_view(r@) =~= s.take(i as int).filter(pred).push(s[i as int]));
        }
        i = i + 1;
    }
    assert(s.take(projects.len() as int) =~= s);
    r
}

/// The predicate "in a category equal to `name` ignoring ASCII case".
pub open spec fn in_category_like(name: Seq<char>) -> spec_fn(ProjectView) -> bool {
    |p: ProjectView| p.category matches Some(c) && eq_ignore_ascii_case(c, name)
}

/// The projects whose category equals `name` ignoring ASCII case
/// (`project list --category`), in list order.
pub fn projects_in_category_like(projects: &Vec<Project>, name: &str) -> (r: Vec<Project>)
    ensures
        projects_view(r@) == projects_view(projects@).filter(in_category_like(name@)),
{
    let ghost pred = in_category_like(name@);
    let ghost s = projects_view(projects@);
    let mut r: Vec<Project> = Vec::new();
    let mut i: usize = 0;
    while i < projects.len()
        invariant
            i <= projects.len(),
            s == projects_view(projects@),
            pred == in_category_like(name@),
            projects_view(r@) == s.take(i as int).filter(pred),
        decreases projects.len() - i,
    {
        proof {
            reveal(Seq::filter);
            assert(s.take(i as int + 1).drop_last() =~= s.take(i as int));
        }
        let keep = match &projects[i].category {
            Some(c) => chars_eq_ignore_ascii_case(&chars_of(c.as_str()), name),
            None => false,
        };
        if keep {
            r.push(projects[i].clone());
            assert(projects_view(r@) =~= s.take(i as int).filter(pred).push(s[i as int]));
        }
        i = i + 1;
    }
    assert(s.take(projects.len() as int) =~= s);
    r
}

/// The predicate "carries at least one tag".
pub open spec fn has_tags() -> spec_fn(TaskView) -> bool {
    |t: TaskView| t.tags.len() > 0
}

/// The tasks that carry at least one tag (`tag list`), in list order.
pub fn tagged_tasks(tasks: &Vec<Task>) -> (r: Vec<Task>)
    ensures
        tasks_view(r@) == tasks_view(tasks@).filter(has_tags()),
{
    let ghost s = tasks_view(tasks@);
    let mut r: Vec<Task> = Vec::new();
    let mut i: usize = 0;
    while i < tasks.len()
        invariant
            i <= tasks.len(),
            s == tasks_view(tasks@),
            tasks_view(r@) == s.take(i as int).filter(has_tags()),
        decreases tasks.len() - i,
    {
        proof {
            reveal(Seq::filter);
            assert(s.take(i as int + 1).drop_last() =~= s.take(i as int));
        }
        if tasks[i].tags.len() > 0 {
            r.push(tasks[i].clone());
            assert(tasks_view(r@) =~= s.take(i as int).filter(has_tags()).push(s[i as int]));
        }
        i = i + 1;
    }
    assert(s.take(tasks.len() as int) =~= s);
    r
}

/// The git lines of `project info`.
pub struct InfoGit {
    /// The branch line: the branch, `(detached HEAD)`, or `(no local repo)`
    /// when only a cached remote is known; `None` when nothing is shown.
    pub branch: Option<String>,
    /// Whether `branch` names a branch (and is shown in the accent colour).
    pub on_branch: bool,
    /// The remote line: `<url> (<remote name>)`, `<url> (cached)` or
    /// `(none configured)`; `None` when nothing is shown.
    pub remote: Option<String>,
    /// The remote URL to cache for the project when the live one differs.
    pub cache: Option<String>,
}

/// The git lines of `project info` from live repository information and
/// the cached remote.
pub open spec fn info_git_of(live: Option<(Option<Seq<char>>, Option<Seq<char>>, Option<Seq<char>>)>, cached: Option<Seq<char>>) -> (Option<Seq<char>>, bool, Option<Seq<char>>, Option<Seq<char>>) {
    match live {
        Some((branch, url, name)) => {
            let b = match branch {
                Some(b) => b,
                None => "(detached HEAD)"@,
            };
            let remote = match url {
                Some(u) => u + " ("@ + (match name {
                    Some(n) => n,
                    None => "remote"@,
                }) + ")"@,
                None => match cached {
                    Some(c) => c + " (cached)"@,
                    None => "(none configured)"@,
                },
            };
            let cache = match url {
                Some(u) => if cached != Some(u) {
                    Some(u)
                } else {
                    None
                },
                None => None,
            };
            (Some(b), branch is Some, Some(remote), cache)
        },
        None => match cached {
            Some(c) => (Some("(no local repo)"@), false, Some(c + " (cached)"@), None),
            None => (None, false, None, None),
        },
    }
}

/// The parts of live git information as plain values.
pub open spec fn info_view(live: Option<GitInfo>) -> Option<(Option<Seq<char>>, Option<Seq<char>>, Option<Seq<char>>)> {
    match live {
        Some(i) => Some((opt_chars(i.branch), opt_chars(i.remote_url), opt_chars(i.remote_name))),
        None => None,
    }
}

/// The git lines of `project info`.
pub fn project_info_git(live: &Option<GitInfo>, cached: &Option<String>) -> (r: InfoGit)
    ensures
        (opt_chars(r.branch), r.on_branch, opt_chars(r.remote), opt_chars(r.cache)) == info_git_of(
            info_view(*live),
            opt_chars(*cached),
        ),
{
    match live {
        Some(info) => {
            let branch = match &info.branch {
                Some(b) => b.clone(),
                None => "(detached HEAD)".to_string(),
            };
            let remote = match &info.remote_url {
                Some(u) => {
                    let mut v = chars_of(u.as_str());
                    push_str(&mut v, " (");
                    match &info.remote_name {
                        Some(n) => push_str(&mut v, n.as_str()),
                        None => push_str(&mut v, "remote"),
                    }
                    push_str(&mut v, ")");
                    string_of(&v)
                },
                None => match cached {
                    Some(c) => {
                        let mut v = chars_of(c.as_str());
                        push_str(&mut v, " (cached)");
                        string_of(&v)
                    },
                    None => "(none configured)".to_string(),
                },
            };
            let cache = match &info.remote_url {
                Some(u) => {
                    let same = match cached {
                        Some(c) => str_eq(c.as_str(), u.as_str()),
                        None => false,
                    };
                    if same {
                        None
                    } else {
                        Some(u.clone())
                    }
                },
                None => None,
            };
            InfoGit { branch: Some(branch), on_branch: info.branch.is_some(), remote: Some(remote), cache }
        },
        None => match cached {
            Some(c) => {
                let mut v = chars_of(c.as_str());
                push_str(&mut v, " (cached)");
                InfoGit {
                    branch: Some("(no local repo)".to_string()),
                    on_branch: false,
                    remote: Some(string_of(&v)),
                    cache: None,
                }
            },
            None => InfoGit { branch: None, on_branch: false, remote: None, cache: None },
        },
    }
}

} // verus!
