use vstd::prelude::*;

use crate::models::project::Project;
use crate::text::{
    chars_of, count_phrase, counted, shorten_tail, string_of, tail_cut_on_boundary,
    tail_shortened,
};
use crate::tui::browser::{browser_after_key, browser_selects, pad_end, pad_end_chars};
use crate::tui::keys::{binding_key, is_binding, Binding, KeyEvent};
use crate::tui::scroll_list::{ScrollList, ScrollListView};

verus! {

/// Outcome of handling a key event in the project browser.
#[derive(Debug, Clone, Copy, PartialEq, Eq, Structural)]
pub enum ProjectBrowserOutcome {
    /// User confirmed a selection; contains the index into the flattened project slice.
    Selected(usize),
    /// User cancelled.
    Cancelled,
    /// Event consumed; continue rendering.
    Continue,
}

/// Scrollable project list browser with category headers: its navigation
/// state, over the selectable project rows only (headers are skipped).
pub struct ProjectBrowser {
    scroll: ScrollList,
}

impl View for ProjectBrowser {
    type V = ScrollListView;

    closed spec fn view(&self) -> ScrollListView {
        self.scroll@
    }
}

/// A group of the browser: its header and its rows (project, open task
/// count, compact git text).
pub type ProjectGroup = (String, Vec<(Project, usize, Option<String>)>);

/// Number of project rows in each group.
pub open spec fn group_sizes(groups: Seq<ProjectGroup>) -> Seq<nat> {
    groups.map_values(|g: ProjectGroup| g.1.len() as nat)
}

/// Number of projects in all groups.
pub open spec fn total_items(sizes: Seq<nat>) -> nat
    decreases sizes.len(),
{
    if sizes.len() == 0 {
        0
    } else {
        sizes[0] + total_items(sizes.drop_first())
    }
}

/// Number of rows on screen: one header per group and one row per project.
pub open spec fn total_rows(sizes: Seq<nat>) -> nat
    decreases sizes.len(),
{
    if sizes.len() == 0 {
        0
    } else {
        1 + sizes[0] + total_rows(sizes.drop_first())
    }
}

/// The screen row of selectable item `idx` when every group starts with a
/// header row; past the last item, the number of rows.
pub open spec fn visual_index(sizes: Seq<nat>, idx: nat) -> nat
    decreases sizes.len(),
{
    if sizes.len() == 0 {
        0
    } else if idx < sizes[0] {
        1 + idx
    } else {
        1 + sizes[0] + visual_index(sizes.drop_first(), (idx - sizes[0]) as nat)
    }
}

impl ProjectBrowser {
    /// Create a browser for `project_count` selectable items (sum across all groups).
    pub fn new(project_count: usize) -> (b: Self)
        ensures
            b@.count == project_count,
            b@.selected == (if project_count > 0 { Some(0nat) } else { None::<nat> }),
    {
        ProjectBrowser { scroll: ScrollList::new(project_count) }
    }

    /// Handle a key event: Esc cancels, Enter selects the highlighted
    /// project, Up and Down move the highlight; anything else is consumed.
    pub fn handle_key(&mut self, key: KeyEvent) -> (r: ProjectBrowserOutcome)
        ensures
            final(self)@ == browser_after_key(old(self)@, key),
            key == binding_key(Binding::Cancel) ==> r == ProjectBrowserOutcome::Cancelled,
            key != binding_key(Binding::Cancel) ==> match r {
                ProjectBrowserOutcome::Selected(i) => browser_selects(old(self)@, key, i as nat),
                ProjectBrowserOutcome::Cancelled => false,
                ProjectBrowserOutcome::Continue => !(key == binding_key(Binding::Select)
                    && old(self)@.selected is Some),
            },
    {
        if is_binding(&key, Binding::Cancel) {
            return ProjectBrowserOutcome::Cancelled;
        }
        if is_binding(&key, Binding::Select) {
            if let Some(i) = self.scroll.selected() {
                return ProjectBrowserOutcome::Selected(i);
            }
        }
        if is_binding(&key, Binding::Up) {
            self.scroll.move_up();
        }
        if is_binding(&key, Binding::Down) {
            self.scroll.move_down();
        }
        ProjectBrowserOutcome::Continue
    }

    /// Currently highlighted selectable index (into the flattened project list).
    pub fn selected(&self) -> (r: Option<usize>)
        ensures
            match r {
                Some(i) => self@.selected == Some(i as nat),
                None => self@.selected is None,
            },
    {
        self.scroll.selected()
    }

    /// The screen row of selectable item `selectable_idx` within the grouped
    /// list, counting the header row that opens each group.
    pub fn visual_index_of(groups: &Vec<ProjectGroup>, selectable_idx: usize) -> (r: usize)
        requires
            total_rows(group_sizes(groups@)) <= usize::MAX,
        ensures
            r == visual_index(group_sizes(groups@), selectable_idx as nat),
    {
        let ghost sizes = group_sizes(groups@);
        let mut visual: usize = 0;
        let mut remaining: usize = selectable_idx;
        let mut g: usize = 0;
        assert(sizes.skip(0) =~= sizes);
        while g < groups.len()
            invariant
                g <= groups.len(),
                sizes == group_sizes(groups@),
                total_rows(sizes) <= usize::MAX,
                visual + total_rows(sizes.skip(g as int)) == total_rows(sizes),
                visual + visual_index(sizes.skip(g as int), remaining as nat) == visual_index(
                    sizes,
                    selectable_idx as nat,
                ),
            decreases groups.len() - g,
        {
            let n = groups[g].1.len();
            proof {
                assert(sizes.skip(g as int)[0] == n);
                assert(sizes.skip(g as int).drop_first() =~= sizes.skip(g as int + 1));
            }
            visual = visual + 1;
            if remaining < n {
                visual = visual + remaining;
                return visual;
            }
            remaining = remaining - n;
            visual = visual + n;
            g = g + 1;
        }
        proof {
            assert(sizes.skip(g as int).len() == 0);
        }
        visual
    }
}

/// The screen row grows with the selectable index: each selectable item
/// has a row of its own, below the earlier ones.
pub proof fn lemma_visual_index_increasing(sizes: Seq<nat>, i: nat, j: nat)
    requires
        i < j < total_items(sizes),
    ensures
        visual_index(sizes, i) < visual_index(sizes, j),
        visual_index(sizes, j) < total_rows(sizes),
    decreases sizes.len(),
{
    if sizes.len() > 0 && j >= sizes[0] {
        if i >= sizes[0] {
            lemma_visual_index_increasing(
                sizes.drop_first(),
                (i - sizes[0]) as nat,
                (j - sizes[0]) as nat,
            );
        } else {
            lemma_visual_index_below(sizes.drop_first(), (j - sizes[0]) as nat);
        }
    }
}

/// A selectable item's row lies within the list.
pub proof fn lemma_visual_index_below(sizes: Seq<nat>, j: nat)
    requires
        j < total_items(sizes),
    ensures
        visual_index(sizes, j) < total_rows(sizes),
    decreases sizes.len(),
{
    if sizes.len() > 0 && j >= sizes[0] {
        lemma_visual_index_below(sizes.drop_first(), (j - sizes[0]) as nat);
    }
}

/// The row of item `j` is never a header row: the first item of a group
/// sits right below its header.
pub proof fn lemma_first_item_below_header(sizes: Seq<nat>)
    requires
        sizes.len() > 0,
        sizes[0] > 0,
    ensures
        visual_index(sizes, 0) == 1,
{
}

/// The texts of a project row in the browser.
pub struct ProjectRow {
    /// The name left-aligned in twenty columns.
    pub name: String,
    /// The path (its last 45 bytes behind `…` when longer), left-aligned in
    /// forty-six columns.
    pub path: String,
    /// How many open tasks the project has, e.g. `"1 open task"`.
    pub open_tasks: String,
}

/// The texts of a project's row in the browser.
pub fn project_row(project: &Project, open_count: usize) -> (r: ProjectRow)
    requires
        tail_cut_on_boundary(project@.path, 45),
    ensures
        r.name@ == pad_end(project@.name, 20),
        r.path@ == pad_end(tail_shortened(project@.path, 45), 46),
        r.open_tasks@ == counted(open_count as nat, "open task"@),
{
    let name = pad_end_chars(&chars_of(project.name.as_str()), 20);
    let path = pad_end_chars(&shorten_tail(&chars_of(project.path.as_str()), 45), 46);
    ProjectRow {
        name: string_of(&name),
        path: string_of(&path),
        open_tasks: count_phrase(open_count, "open task"),
    }
}

} // verus!
