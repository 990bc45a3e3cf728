use vstd::prelude::*;

use crate::text::{chars_of, lines, push_all, split_lines, string_of, string_views};
use crate::tui::keys::{binding_key, is_binding, Binding, KeyCode, KeyEvent};

verus! {

/// The focusable fields in the add/edit form.
/// Add new variants here to extend the form without changing control flow.
#[derive(Debug, Clone, Copy, PartialEq, Eq, Structural)]
pub enum FormField {
    Title,
    Body,
}

/// The field after `f` in focus order, wrapping around.
pub open spec fn next_field(f: FormField) -> FormField {
    match f {
        FormField::Title => FormField::Body,
        FormField::Body => FormField::Title,
    }
}

impl FormField {
    /// The next field in focus order, wrapping around.
    pub fn next(self) -> (r: Self)
        ensures
            r == next_field(self),
    {
        match self {
            FormField::Title => FormField::Body,
            FormField::Body => FormField::Title,
        }
    }

    /// The previous field in focus order; with two fields it is the next one.
    pub fn prev(self) -> (r: Self)
        ensures
            r == next_field(self),
    {
        self.next()
    }
}

/// Outcome of handling a key event in the form.
#[derive(Debug, Clone, Copy, PartialEq, Eq, Structural)]
pub enum FormOutcome {
    /// The user submitted the form.
    Submitted,
    /// The user cancelled.
    Cancelled,
    /// Event was consumed; continue rendering.
    Continue,
}

/// What the form does with a key press.
#[derive(Debug, Clone, Copy, PartialEq, Eq, Structural)]
pub enum FormAction {
    /// Ctrl+S: submit the form.
    Submit,
    /// Esc: cancel.
    Cancel,
    /// Tab or Shift+BackTab: move the focus to this field.
    Focus(FormField),
    /// Enter in the title: dropped, the title stays one line.
    Ignore,
    /// Any other key: handed to the text area of this field.
    Edit(FormField),
}

/// What the form does with `key` while `focused` has the focus.
pub open spec fn form_action_of(focused: FormField, key: KeyEvent) -> FormAction {
    if key == binding_key(Binding::Submit) {
        FormAction::Submit
    } else if key == binding_key(Binding::Cancel) {
        FormAction::Cancel
    } else if key == binding_key(Binding::NextField) {
        FormAction::Focus(next_field(focused))
    } else if key == binding_key(Binding::PrevField) {
        FormAction::Focus(next_field(focused))
    } else if focused == FormField::Title && key.code == KeyCode::Enter {
        FormAction::Ignore
    } else {
        FormAction::Edit(focused)
    }
}

/// The outcome the form reports for an action.
pub open spec fn outcome_of(a: FormAction) -> FormOutcome {
    match a {
        FormAction::Submit => FormOutcome::Submitted,
        FormAction::Cancel => FormOutcome::Cancelled,
        _ => FormOutcome::Continue,
    }
}

/// Decides what the form does with `key` while `focused` has the focus.
pub fn form_action(focused: FormField, key: &KeyEvent) -> (a: FormAction)
    ensures
        a == form_action_of(focused, *key),
{
    if is_binding(key, Binding::Submit) {
        FormAction::Submit
    } else if is_binding(key, Binding::Cancel) {
        FormAction::Cancel
    } else if is_binding(key, Binding::NextField) {
        FormAction::Focus(focused.next())
    } else if is_binding(key, Binding::PrevField) {
        FormAction::Focus(focused.prev())
    } else if focused == FormField::Title && key.code == KeyCode::Enter {
        FormAction::Ignore
    } else {
        FormAction::Edit(focused)
    }
}

/// The focus state of the two-field task form (Title + Body). The text of
/// the fields lives in their text areas, which receive the keys that
/// `handle_key` hands on.
pub struct FormState {
    pub focused: FormField,
}

impl FormState {
    /// A blank form, focused on the title.
    pub fn new() -> (s: Self)
        ensures
            s.focused == FormField::Title,
    {
        FormState { focused: FormField::Title }
    }

    /// Handle a key event: returns the outcome and the field whose text
    /// area gets the key, if any. Tab and Shift+BackTab move the focus.
    pub fn handle_key(&mut self, key: &KeyEvent) -> (r: (FormOutcome, Option<FormField>))
        ensures
            r.0 == outcome_of(form_action_of(old(self).focused, *key)),
            r.1 == (match form_action_of(old(self).focused, *key) {
                FormAction::Edit(f) => Some(f),
                _ => None::<FormField>,
            }),
            final(self).focused == (match form_action_of(old(self).focused, *key) {
                FormAction::Focus(f) => f,
                _ => old(self).focused,
            }),
    {
        match form_action(self.focused, key) {
            FormAction::Submit => (FormOutcome::Submitted, None),
            FormAction::Cancel => (FormOutcome::Cancelled, None),
            FormAction::Focus(f) => {
                self.focused = f;
                (FormOutcome::Continue, None)
            },
            FormAction::Ignore => (FormOutcome::Continue, None),
            FormAction::Edit(f) => (FormOutcome::Continue, Some(f)),
        }
    }
}

/// The lines the body area starts with: one empty line for an empty body,
/// else the body's lines.
pub open spec fn body_lines_of(body: Seq<char>) -> Seq<Seq<char>> {
    if body.len() == 0 {
        seq![seq![]]
    } else {
        lines(body)
    }
}

/// The lines the body text area of a form opened on `body` starts with.
pub fn initial_body_lines(body: &str) -> (r: Vec<String>)
    ensures
        string_views(r@) == body_lines_of(body@),
{
    let b = chars_of(body);
    let mut r: Vec<String> = Vec::new();
    if b.len() == 0 {
        r.push(String::new());
        assert(string_views(r@) =~= body_lines_of(body@));
        return r;
    }
    let ls = split_lines(&b);
    let mut i: usize = 0;
    while i < ls.len()
        invariant
            i <= ls.len(),
            ls@.len() == lines(b@).len(),
            forall|k: int| 0 <= k < ls@.len() ==> #[trigger] ls@[k]@ == lines(b@)[k],
            string_views(r@) == lines(b@).take(i as int),
        decreases ls.len() - i,
    {
        let line = string_of(&ls[i]);
        assert(ls@[i as int]@ == lines(b@)[i as int]);
        let ghost before = r@;
        assert(string_views(before).len() == before.len());
        assert(lines(b@).take(i as int).len() == i);
        assert(before.len() == i);
        r.push(line);
        assert(r@ == before.push(line));
        assert forall|k: int| 0 <= k < i implies r@[k]@ == lines(b@)[k] by {
            assert(string_views(before)[k] == lines(b@).take(i as int)[k]);
        }
        assert(string_views(r@) =~= lines(b@).take(i as int + 1));
        i = i + 1;
    }
    assert(lines(b@).take(ls.len() as int) =~= lines(b@));
    r
}

/// `parts` joined with `sep` between consecutive parts (`[T]::join`).
pub open spec fn joined(parts: Seq<Seq<char>>, sep: Seq<char>) -> Seq<char>
    decreases parts.len(),
{
    if parts.len() == 0 {
        seq![]
    } else if parts.len() == 1 {
        parts[0]
    } else {
        joined(parts.drop_last(), sep) + sep + parts.last()
    }
}

/// Joins the lines of a text area with `sep` between them.
pub fn join_lines(parts: &Vec<String>, sep: &str) -> (r: String)
    ensures
        r@ == joined(string_views(parts@), sep@),
{
    let ghost ps = string_views(parts@);
    let mut v: Vec<char> = Vec::new();
    let mut i: usize = 0;
    while i < parts.len()
        invariant
            i <= parts.len(),
            ps == string_views(parts@),
            v@ == joined(ps.take(i as int), sep@),
        decreases parts.len() - i,
    {
        if i > 0 {
            push_all(&mut v, &chars_of(sep));
        }
        push_all(&mut v, &chars_of(parts[i].as_str()));
        assert(ps.take(i as int + 1).drop_last() =~= ps.take(i as int));
        assert(v@ =~= joined(ps.take(i as int + 1), sep@));
        i = i + 1;
    }
    assert(ps.take(parts.len() as int) =~= ps);
    string_of(&v)
}

} // verus!
