use vstd::prelude::*;

use crate::ident::{is_v4, new_id};
use crate::text::{decimal, push_decimal, string_of};
use crate::time::{now_micros, representable};

verus! {

/// A free-form note attached to a project (or the global list). Notes have
/// no status, progress or subtasks.
#[derive(Debug)]
pub struct Note {
    pub id: u128,
    /// `None` means the global note list.
    pub project_id: Option<u128>,
    pub title: String,
    /// Body text (Markdown supported). May be empty.
    pub content: String,
    /// Sequential index within the project/global scope: 1, 2, …
    pub display_index: u32,
    pub created_at: i64,
    pub updated_at: i64,
}

/// Mathematical model of a note.
pub struct NoteView {
    pub id: u128,
    pub project_id: Option<u128>,
    pub title: Seq<char>,
    pub content: Seq<char>,
    pub display_index: u32,
    pub created_at: i64,
    pub updated_at: i64,
}

impl View for Note {
    type V = NoteView;

    open spec fn view(&self) -> NoteView {
        NoteView {
            id: self.id,
            project_id: self.project_id,
            title: self.title@,
            content: self.content@,
            display_index: self.display_index,
            created_at: self.created_at,
            updated_at: self.updated_at,
        }
    }
}

impl Clone for Note {
    fn clone(&self) -> (r: Self)
        ensures
            r@ == self@,
    {
        Note {
            id: self.id,
            project_id: self.project_id,
            title: self.title.clone(),
            content: self.content.clone(),
            display_index: self.display_index,
            created_at: self.created_at,
            updated_at: self.updated_at,
        }
    }
}

/// Human-readable id of a note, e.g. `"N#1"`.
pub open spec fn note_display_id(n: NoteView) -> Seq<char> {
    seq!['N', '#'] + decimal(n.display_index as nat)
}

impl Note {
    /// A new note with a fresh random id, created and updated now.
    pub fn new(project_id: Option<u128>, title: &str, content: &str, display_index: u32) -> (n: Note)
        ensures
            n@.project_id == project_id,
            n@.title == title@,
            n@.content == content@,
            n@.display_index == display_index,
            n@.created_at == n@.updated_at,
            representable(n@.created_at),
            is_v4(n@.id),
    {
        let now = now_micros();
        Note {
            id: new_id(),
            project_id,
            title: title.to_owned(),
            content: content.to_owned(),
            display_index,
            created_at: now,
            updated_at: now,
        }
    }

    /// Human-readable id, e.g. `"N#1"`.
    pub fn display_id(&self) -> (s: String)
        ensures
            s@ == note_display_id(self@),
    {
        let mut v: Vec<char> = vec!['N', '#'];
        push_decimal(&mut v, self.display_index as u64);
        string_of(&v)
    }
}

} // verus!
