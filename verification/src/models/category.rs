use vstd::prelude::*;

use crate::ident::{is_v4, new_id};
use crate::time::{now_micros, representable};

verus! {

/// A named grouping for projects. Categories are globally registered and
/// appear as section headers in the project list and the project browser.
#[derive(Debug)]
pub struct Category {
    pub id: u128,
    pub name: String,
    /// Display position: lower values appear first. Reassigned as 1, 2, … on reorder.
    pub order: u32,
    pub created_at: i64,
}

/// Mathematical model of a category.
pub struct CategoryView {
    pub id: u128,
    pub name: Seq<char>,
    pub order: u32,
    pub created_at: i64,
}

impl View for Category {
    type V = CategoryView;

    open spec fn view(&self) -> CategoryView {
        CategoryView { id: self.id, name: self.name@, order: self.order, created_at: self.created_at }
    }
}

impl Clone for Category {
    fn clone(&self) -> (r: Self)
        ensures
            r@ == self@,
    {
        Category { id: self.id, name: self.name.clone(), order: self.order, created_at: self.created_at }
    }
}

impl Category {
    /// A new category with a fresh random id, created now.
    pub fn new(name: &str, order: u32) -> (c: Category)
        ensures
            c@.name == name@,
            c@.order == order,
            representable(c@.created_at),
            is_v4(c@.id),
    {
        Category { id: new_id(), name: name.to_owned(), order, created_at: now_micros() }
    }
}

} // verus!
