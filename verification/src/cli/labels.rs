use vstd::prelude::*;

use crate::db::tasks::contains_string;
use crate::text::{str_eq, string_views};

verus! {

/// `items` with `item` added at the end unless it is already there (how
/// `label add` and `tag add` change a list).
pub open spec fn with_item(items: Seq<Seq<char>>, item: Seq<char>) -> Seq<Seq<char>> {
    if items.contains(item) {
        items
    } else {
        items.push(item)
    }
}

/// The predicate "equals `item`".
pub open spec fn equals(item: Seq<char>) -> spec_fn(Seq<char>) -> bool {
    |x: Seq<char>| x == item
}

/// Index of the first occurrence of `item` in `items`, if any.
pub open spec fn position_of(items: Seq<Seq<char>>, item: Seq<char>) -> Option<int> {
    crate::order::first_where(items, equals(item))
}

/// `items` without the first occurrence of `item` (how `label remove` and
/// `tag remove` change a list).
pub open spec fn without_item(items: Seq<Seq<char>>, item: Seq<char>) -> Seq<Seq<char>> {
    match position_of(items, item) {
        Some(i) => items.remove(i),
        None => items,
    }
}

/// Adds `item` to `items` unless it is already there; returns whether it
/// was added.
pub fn add_item(items: &mut Vec<String>, item: &String) -> (added: bool)
    ensures
        added == !string_views(old(items)@).contains(item@),
        string_views(final(items)@) == with_item(string_views(old(items)@), item@),
{
    if contains_string(items, item) {
        false
    } else {
        let ghost before = items@;
        items.push(item.clone());
        assert(string_views(items@) =~= string_views(before).push(item@));
        true
    }
}

/// Removes the first occurrence of `item` from `items`; returns whether one
/// was there.
pub fn remove_item(items: &mut Vec<String>, item: &String) -> (removed: bool)
    ensures
        removed == string_views(old(items)@).contains(item@),
        string_views(final(items)@) == without_item(string_views(old(items)@), item@),
{
    let ghost s = string_views(items@);
    let mut i: usize = 0;
    while i < items.len() && !str_eq(items[i].as_str(), item.as_str())
        invariant
            i <= items.len(),
            s == string_views(items@),
            forall|k: int| 0 <= k < i ==> s[k] != item@,
        decreases items.len() - i,
    {
        i = i + 1;
    }
    proof {
        crate::order::lemma_first_where(s, equals(item@), i as int);
    }
    if i < items.len() {
        assert(s[i as int] == item@);
        items.remove(i);
        assert(string_views(items@) =~= s.remove(i as int));
        true
    } else {
        assert(!s.contains(item@));
        false
    }
}

/// After adding an item, the list holds it.
pub proof fn lemma_added_item_present(items: Seq<Seq<char>>, item: Seq<char>)
    ensures
        with_item(items, item).contains(item),
{
    if !items.contains(item) {
        assert(items.push(item)[items.len() as int] == item);
    }
}

/// Adding an item that is already there changes nothing; adding twice is
/// adding once.
pub proof fn lemma_add_item_idempotent(items: Seq<Seq<char>>, item: Seq<char>)
    ensures
        with_item(with_item(items, item), item) == with_item(items, item),
{
    lemma_added_item_present(items, item);
}

/// Removing an item that was just added to a list without it gives the
/// list back.
pub proof fn lemma_remove_undoes_add(items: Seq<Seq<char>>, item: Seq<char>)
    requires
        !items.contains(item),
    ensures
        without_item(with_item(items, item), item) == items,
{
    let s = items.push(item);
    assert forall|k: int| 0 <= k < items.len() implies s[k] != item by {
        assert(s[k] == items[k]);
    }
    crate::order::lemma_first_where(s, equals(item), items.len() as int);
    assert(s.remove(items.len() as int) =~= items);
}

/// Removing an item leaves the other items, in their order, and one fewer
/// when it was there.
pub proof fn lemma_remove_item_len(items: Seq<Seq<char>>, item: Seq<char>)
    ensures
        items.contains(item) ==> without_item(items, item).len() == items.len() - 1,
        !items.contains(item) ==> without_item(items, item) == items,
{
    crate::order::lemma_first_where_props(items, equals(item));
}

} // verus!
