use vstd::prelude::*;

use crate::models::note::{Note, NoteView};
use crate::order::{first_where, lemma_first_where, rearranged, stable_order, stable_sort_order};

verus! {

broadcast use vstd::seq_lib::group_filter_ensures;

/// The models of a list of notes.
pub open spec fn notes_view(v: Seq<Note>) -> Seq<NoteView> {
    v.map_values(|n: Note| n@)
}

/// The predicate "belongs to this scope".
pub open spec fn note_in_scope(scope: Option<u128>) -> spec_fn(NoteView) -> bool {
    |n: NoteView| n.project_id == scope
}

/// Display indices as sort keys.
pub open spec fn note_keys(s: Seq<NoteView>) -> Seq<int> {
    s.map_values(|n: NoteView| n.display_index as int)
}

/// `r` is `s` stably sorted by display index.
pub open spec fn notes_sorted(s: Seq<NoteView>, r: Seq<NoteView>) -> bool {
    exists|p: Seq<int>| stable_order(note_keys(s), p) && rearranged(s, p, r)
}

/// Largest note display index (0 when there is no note).
pub open spec fn max_note_index(s: Seq<NoteView>) -> nat
    decreases s.len(),
{
    if s.len() == 0 {
        0
    } else {
        let m = max_note_index(s.drop_last());
        if s.last().display_index > m {
            s.last().display_index as nat
        } else {
            m
        }
    }
}

/// All notes of a scope, ordered by display index (ties keep store order).
pub fn list_notes(all: &Vec<Note>, scope: Option<u128>) -> (r: Vec<Note>)
    ensures
        notes_sorted(notes_view(all@).filter(note_in_scope(scope)), notes_view(r@)),
{
    let ghost s = notes_view(all@);
    let mut v: Vec<Note> = Vec::new();
    let mut i: usize = 0;
    while i < all.len()
        invariant
            i <= all.len(),
            s == notes_view(all@),
            notes_view(v@) == s.take(i as int).filter(note_in_scope(scope)),
        decreases all.len() - i,
    {
        proof {
            reveal(Seq::filter);
            assert(s.take(i as int + 1).drop_last() =~= s.take(i as int));
        }
        if all[i].project_id == scope {
            v.push(all[i].clone());
            assert(notes_view(v@) =~= s.take(i as int).filter(note_in_scope(scope)).push(s[i as int]));
        }
        i = i + 1;
    }
    assert(s.take(all.len() as int) =~= s);
    let mut keys: Vec<i128> = Vec::new();
    let mut j: usize = 0;
    while j < v.len()
        invariant
            j <= v.len(),
            keys@.len() == j,
            forall|k: int| 0 <= k < j ==> keys@[k] == v@[k].display_index as i128,
        decreases v.len() - j,
    {
        keys.push(v[j].display_index as i128);
        j = j + 1;
    }
    let p = stable_sort_order(&keys);
    let ghost pv = p@.map_values(|i: usize| i as int);
    assert(keys@.map_values(|k: i128| k as int) =~= note_keys(notes_view(v@)));
    let mut r: Vec<Note> = Vec::new();
    let mut k: usize = 0;
    while k < p.len()
        invariant
            k <= p.len(),
            p.len() == v.len(),
            pv == p@.map_values(|i: usize| i as int),
            forall|a: int| 0 <= a < p.len() ==> 0 <= #[trigger] pv[a] < v.len(),
            r@.len() == k,
            forall|a: int| 0 <= a < k ==> #[trigger] r@[a]@ == v@[pv[a]]@,
        decreases p.len() - k,
    {
        assert(pv[k as int] == p@[k as int]);
        r.push(v[p[k]].clone());
        k = k + 1;
    }
    assert(rearranged(notes_view(v@), pv, notes_view(r@)));
    r
}

/// The predicate "has this display index".
pub open spec fn note_at(idx: u32) -> spec_fn(NoteView) -> bool {
    |n: NoteView| n.display_index == idx
}

/// A found note with its model.
pub open spec fn opt_note_view(o: Option<Note>) -> Option<NoteView> {
    match o {
        Some(n) => Some(n@),
        None => None,
    }
}

/// Retrieve a note by its display index: the first note of the list with it.
pub fn get_note(notes: &Vec<Note>, display_index: u32) -> (r: Option<Note>)
    ensures
        opt_note_view(r) == (match first_where(notes_view(notes@), note_at(display_index)) {
            Some(i) => Some(notes_view(notes@)[i]),
            None => None,
        }),
{
    let ghost s = notes_view(notes@);
    let mut i: usize = 0;
    while i < notes.len()
        invariant
            i <= notes.len(),
            s == notes_view(notes@),
            forall|k: int| 0 <= k < i ==> !note_at(display_index)(#[trigger] s[k]),
        decreases notes.len() - i,
    {
        if notes[i].display_index == display_index {
            proof {
                lemma_first_where(s, note_at(display_index), i as int);
            }
            return Some(notes[i].clone());
        }
        i = i + 1;
    }
    proof {
        lemma_first_where(s, note_at(display_index), i as int);
    }
    None
}

/// The predicate "has this id".
pub open spec fn note_with_id(id: u128) -> spec_fn(NoteView) -> bool {
    |n: NoteView| n.id == id
}

/// Position of the first note with the given id.
pub fn find_note_by_id(notes: &Vec<Note>, id: u128) -> (r: Option<usize>)
    ensures
        r matches Some(i) ==> i < notes.len(),
        match r {
            Some(i) => first_where(notes_view(notes@), note_with_id(id)) == Some(i as int),
            None => first_where(notes_view(notes@), note_with_id(id)) is None,
        },
{
    let ghost s = notes_view(notes@);
    let mut i: usize = 0;
    while i < notes.len()
        invariant
            i <= notes.len(),
            s == notes_view(notes@),
            forall|k: int| 0 <= k < i ==> !note_with_id(id)(#[trigger] s[k]),
        decreases notes.len() - i,
    {
        if notes[i].id == id {
            proof {
                lemma_first_where(s, note_with_id(id), i as int);
            }
            return Some(i);
        }
        i = i + 1;
    }
    proof {
        lemma_first_where(s, note_with_id(id), i as int);
    }
    None
}

/// Largest display index among the notes of the list.
pub fn max_note_display_index(notes: &Vec<Note>) -> (m: u32)
    ensures
        m == max_note_index(notes_view(notes@)),
{
    let mut m: u32 = 0;
    let mut i: usize = 0;
    while i < notes.len()
        invariant
            i <= notes.len(),
            m == max_note_index(notes_view(notes@.take(i as int))),
        decreases notes.len() - i,
    {
        assert(notes_view(notes@.take(i as int + 1)).drop_last() =~= notes_view(notes@.take(i as int)));
        if notes[i].display_index > m {
            m = notes[i].display_index;
        }
        i = i + 1;
    }
    assert(notes@.take(notes.len() as int) =~= notes@);
    m
}

/// Next available display index for notes in a scope.
pub fn next_note_display_index(notes: &Vec<Note>) -> (r: u32)
    requires
        max_note_index(notes_view(notes@)) < u32::MAX,
    ensures
        r == max_note_index(notes_view(notes@)) + 1,
{
    max_note_display_index(notes) + 1
}

/// A new note for a scope whose current notes are `scope_notes`: it takes the
/// next display index.
pub fn new_note(scope_notes: &Vec<Note>, project_id: Option<u128>, title: &str, content: &str) -> (n: Note)
    requires
        max_note_index(notes_view(scope_notes@)) < u32::MAX,
    ensures
        n@.project_id == project_id,
        n@.title == title@,
        n@.content == content@,
        n@.display_index == max_note_index(notes_view(scope_notes@)) + 1,
        n@.created_at == n@.updated_at,
{
    let idx = next_note_display_index(scope_notes);
    Note::new(project_id, title, content, idx)
}

/// The largest note index bounds every note's index and is one of them (or
/// 0 when there is no note): a new note, numbered one above it, never takes
/// the index of a note still in the scope.
pub proof fn lemma_max_note_index_is_max(s: Seq<NoteView>)
    ensures
        forall|i: int| 0 <= i < s.len() ==> (#[trigger] s[i]).display_index <= max_note_index(s),
        forall|i: int| 0 <= i < s.len() ==> (#[trigger] s[i]).display_index != max_note_index(s) + 1,
        max_note_index(s) == 0 || exists|i: int| 0 <= i < s.len() && (#[trigger] s[i]).display_index == max_note_index(s),
    decreases s.len(),
{
    if s.len() > 0 {
        let d = s.drop_last();
        lemma_max_note_index_is_max(d);
        assert forall|i: int| 0 <= i < s.len() - 1 implies s[i] == d[i] by {}
        if max_note_index(d) > 0 && max_note_index(s) == max_note_index(d) {
            let i = choose|i: int| 0 <= i < d.len() && (#[trigger] d[i]).display_index == max_note_index(d);
            assert(s[i] == d[i]);
        }
        if max_note_index(s) != max_note_index(d) {
            assert(s[s.len() - 1].display_index == max_note_index(s));
        }
    }
}

} // verus!
