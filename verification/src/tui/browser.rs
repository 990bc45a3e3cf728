use vstd::prelude::*;

use crate::cli::list::{bar, filled_cells, progress_bar};
use crate::models::task::{display_id_of, has_status_index, Task};
use crate::text::{
    chars_of, cut_on_boundary, first_line, first_line_of, shorten, shortened, string_of, trim,
    trim_chars,
};
use crate::tui::keys::{binding_key, is_binding, Binding, KeyEvent};
use crate::tui::scroll_list::{after_down, after_up, ScrollList, ScrollListView};

verus! {

/// Outcome of handling a key event in the browser.
#[derive(Debug, Clone, Copy, PartialEq, Eq, Structural)]
pub enum BrowserOutcome {
    /// User confirmed a selection; contains the index into the task slice.
    Selected(usize),
    /// User cancelled.
    Cancelled,
    /// Event consumed; continue rendering.
    Continue,
}

/// Scrollable task list browser: its navigation state. The widget state of
/// the list on screen follows `selected`.
pub struct TaskBrowser {
    scroll: ScrollList,
}

impl View for TaskBrowser {
    type V = ScrollListView;

    closed spec fn view(&self) -> ScrollListView {
        self.scroll@
    }
}

/// The navigation state after a key press in a list browser: Up and Down
/// move the selection (wrapping), every other key leaves it.
pub open spec fn browser_after_key(v: ScrollListView, key: KeyEvent) -> ScrollListView {
    if key == binding_key(Binding::Cancel) {
        v
    } else if key == binding_key(Binding::Select) && v.selected is Some {
        v
    } else if key == binding_key(Binding::Up) {
        after_up(v)
    } else if key == binding_key(Binding::Down) {
        after_down(v)
    } else {
        v
    }
}

/// Whether a list browser answers `key` in state `v` by selecting item `i`
/// (Enter with item `i` highlighted).
pub open spec fn browser_selects(v: ScrollListView, key: KeyEvent, i: nat) -> bool {
    key == binding_key(Binding::Select) && v.selected == Some(i)
}

impl TaskBrowser {
    /// A browser over `task_count` tasks with the first one highlighted.
    pub fn new(task_count: usize) -> (b: Self)
        ensures
            b@.count == task_count,
            b@.selected == (if task_count > 0 { Some(0nat) } else { None::<nat> }),
    {
        TaskBrowser { scroll: ScrollList::new(task_count) }
    }

    /// Handle a key event: Esc cancels, Enter selects the highlighted task,
    /// Up and Down move the highlight; anything else is consumed.
    pub fn handle_key(&mut self, key: KeyEvent) -> (r: BrowserOutcome)
        ensures
            final(self)@ == browser_after_key(old(self)@, key),
            key == binding_key(Binding::Cancel) ==> r == BrowserOutcome::Cancelled,
            key != binding_key(Binding::Cancel) ==> match r {
                BrowserOutcome::Selected(i) => browser_selects(old(self)@, key, i as nat),
                BrowserOutcome::Cancelled => false,
                BrowserOutcome::Continue => !(key == binding_key(Binding::Select)
                    && old(self)@.selected is Some),
            },
    {
        if is_binding(&key, Binding::Cancel) {
            return BrowserOutcome::Cancelled;
        }
        if is_binding(&key, Binding::Select) {
            if let Some(i) = self.scroll.selected() {
                return BrowserOutcome::Selected(i);
            }
        }
        if is_binding(&key, Binding::Up) {
            self.scroll.move_up();
        }
        if is_binding(&key, Binding::Down) {
            self.scroll.move_down();
        }
        BrowserOutcome::Continue
    }

    /// Currently highlighted index.
    pub fn selected(&self) -> (r: Option<usize>)
        ensures
            match r {
                Some(i) => self@.selected == Some(i as nat),
                None => self@.selected is None,
            },
    {
        self.scroll.selected()
    }
}

/// `s` right-aligned in a field of `width` characters (`format!("{:>w$}")`).
pub open spec fn pad_start(s: Seq<char>, width: nat) -> Seq<char> {
    if s.len() >= width {
        s
    } else {
        Seq::new((width - s.len()) as nat, |i: int| ' ') + s
    }
}

/// `s` left-aligned in a field of `width` characters (`format!("{:<w$}")`).
pub open spec fn pad_end(s: Seq<char>, width: nat) -> Seq<char> {
    if s.len() >= width {
        s
    } else {
        s + Seq::new((width - s.len()) as nat, |i: int| ' ')
    }
}

/// Right-aligns `s` in a field of `width` characters.
pub fn pad_start_chars(s: &Vec<char>, width: usize) -> (r: Vec<char>)
    ensures
        r@ == pad_start(s@, width as nat),
{
    let mut r: Vec<char> = Vec::new();
    if s.len() < width {
        let n = width - s.len();
        let mut i: usize = 0;
        while i < n
            invariant
                i <= n,
                r@ == Seq::new(i as nat, |k: int| ' '),
            decreases n - i,
        {
            r.push(' ');
            assert(r@ =~= Seq::new((i + 1) as nat, |k: int| ' '));
            i = i + 1;
        }
    }
    let ghost pre = r@;
    let mut j: usize = 0;
    while j < s.len()
        invariant
            j <= s.len(),
            r@ == pre + s@.take(j as int),
        decreases s.len() - j,
    {
        r.push(s[j]);
        assert(r@ =~= pre + s@.take(j as int + 1));
        j = j + 1;
    }
    assert(s@.take(s.len() as int) =~= s@);
    assert(r@ =~= pad_start(s@, width as nat));
    r
}

/// Left-aligns `s` in a field of `width` characters.
pub fn pad_end_chars(s: &Vec<char>, width: usize) -> (r: Vec<char>)
    ensures
        r@ == pad_end(s@, width as nat),
{
    let mut r: Vec<char> = Vec::new();
    let mut j: usize = 0;
    while j < s.len()
        invariant
            j <= s.len(),
            r@ == s@.take(j as int),
        decreases s.len() - j,
    {
        r.push(s[j]);
        assert(r@ =~= s@.take(j as int + 1));
        j = j + 1;
    }
    assert(s@.take(s.len() as int) =~= s@);
    if s.len() < width {
        let n = width - s.len();
        let mut i: usize = 0;
        while i < n
            invariant
                i <= n,
                r@ == s@ + Seq::new(i as nat, |k: int| ' '),
            decreases n - i,
        {
            r.push(' ');
            assert(r@ =~= s@ + Seq::new((i + 1) as nat, |k: int| ' '));
            i = i + 1;
        }
    }
    assert(r@ =~= pad_end(s@, width as nat));
    r
}

/// The preview a list row shows of a task's content: its first line,
/// trimmed, cut to `max` bytes with `…` when longer.
pub open spec fn content_preview(content: Seq<char>, max: nat) -> Seq<char> {
    shortened(trim(first_line(content)), max)
}

/// Whether the preview cut of `content` at `max` bytes falls between two
/// characters (the cut slices a string there).
pub open spec fn preview_cut_ok(content: Seq<char>, max: nat) -> bool {
    cut_on_boundary(trim(first_line(content)), max)
}

/// The preview of `content` shown in a list row.
pub fn preview(content: &str, max: usize) -> (r: String)
    requires
        preview_cut_ok(content@, max as nat),
    ensures
        r@ == content_preview(content@, max as nat),
{
    let c = chars_of(content);
    let line = trim_chars(&first_line_of(&c));
    string_of(&shorten(&line, max))
}

/// The three cells of a task row in the browser.
pub struct TaskRow {
    /// The display id right-aligned in five columns, then two spaces.
    pub id: String,
    /// The progress bar (ten cells), then two spaces.
    pub bar: String,
    /// The first line of the content, at most forty bytes.
    pub preview: String,
}

/// The text of a task's row in the browser.
pub fn task_row(task: &Task) -> (r: TaskRow)
    requires
        has_status_index(task@),
        filled_cells(task@.progress, 10) <= 10,
        preview_cut_ok(task@.content, 40),
    ensures
        r.id@ == pad_start(display_id_of(task@), 5) + seq![' ', ' '],
        r.bar@ == bar(task@.progress, 10) + seq![' ', ' '],
        r.preview@ == content_preview(task@.content, 40),
{
    let id = chars_of(task.display_id().as_str());
    let mut id_cell = pad_start_chars(&id, 5);
    id_cell.push(' ');
    id_cell.push(' ');
    let mut bar_cell = chars_of(progress_bar(task.progress, 10).as_str());
    bar_cell.push(' ');
    bar_cell.push(' ');
    let p = preview(task.content.as_str(), 40);
    assert(id_cell@ =~= pad_start(display_id_of(task@), 5) + seq![' ', ' ']);
    assert(bar_cell@ =~= bar(task@.progress, 10) + seq![' ', ' ']);
    TaskRow { id: string_of(&id_cell), bar: string_of(&bar_cell), preview: p }
}

} // verus!
