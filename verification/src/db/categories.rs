use vstd::prelude::*;

use crate::models::category::{Category, CategoryView};
use crate::order::{first_where, lemma_first_where, rearranged, stable_order, stable_sort_order};
use crate::text::str_eq;

verus! {

/// The models of a list of categories.
pub open spec fn categories_view(v: Seq<Category>) -> Seq<CategoryView> {
    v.map_values(|c: Category| c@)
}

/// Display orders as sort keys.
pub open spec fn order_keys(s: Seq<CategoryView>) -> Seq<int> {
    s.map_values(|c: CategoryView| c.order as int)
}

/// `r` is `s` stably sorted by display order.
pub open spec fn by_order(s: Seq<CategoryView>, r: Seq<CategoryView>) -> bool {
    exists|p: Seq<int>| stable_order(order_keys(s), p) && rearranged(s, p, r)
}

/// All categories in display order (ties keep store order).
pub fn list_categories(cats: &Vec<Category>) -> (r: Vec<Category>)
    ensures
        by_order(categories_view(cats@), categories_view(r@)),
{
    let v = cats;
    let mut keys: Vec<i128> = Vec::new();
    let mut j: usize = 0;
    while j < v.len()
        invariant
            j <= v.len(),
            keys@.len() == j,
            forall|k: int| 0 <= k < j ==> keys@[k] == v@[k].order as i128,
        decreases v.len() - j,
    {
        keys.push(v[j].order as i128);
        j = j + 1;
    }
    let p = stable_sort_order(&keys);
    let ghost pv = p@.map_values(|i: usize| i as int);
    assert(keys@.map_values(|k: i128| k as int) =~= order_keys(categories_view(v@)));
    let mut r: Vec<Category> = Vec::new();
    let mut k: usize = 0;
    while k < p.len()
        invariant
            k <= p.len(),
            p.len() == v.len(),
            pv == p@.map_values(|i: usize| i as int),
            forall|a: int| 0 <= a < p.len() ==> 0 <= #[trigger] pv[a] < v.len(),
            r@.len() == k,
            forall|a: int| 0 <= a < k ==> #[trigger] r@[a]@ == v@[pv[a]]@,
        decreases p.len() - k,
    {
        assert(pv[k as int] == p@[k as int]);
        r.push(v[p[k]].clone());
        k = k + 1;
    }
    assert(rearranged(categories_view(v@), pv, categories_view(r@)));
    r
}

/// The predicate "has this name".
pub open spec fn named(name: Seq<char>) -> spec_fn(CategoryView) -> bool {
    |c: CategoryView| c.name == name
}

/// Position of the first category named `name`.
pub fn find_category(cats: &Vec<Category>, name: &str) -> (r: Option<usize>)
    ensures
        r matches Some(i) ==> i < cats.len(),
        match r {
            Some(i) => first_where(categories_view(cats@), named(name@)) == Some(i as int),
            None => first_where(categories_view(cats@), named(name@)) is None,
        },
{
    let ghost s = categories_view(cats@);
    let mut i: usize = 0;
    while i < cats.len()
        invariant
            i <= cats.len(),
            s == categories_view(cats@),
            forall|k: int| 0 <= k < i ==> !named(name@)(#[trigger] s[k]),
        decreases cats.len() - i,
    {
        if str_eq(cats[i].name.as_str(), name) {
            proof {
                lemma_first_where(s, named(name@), i as int);
            }
            return Some(i);
        }
        i = i + 1;
    }
    proof {
        lemma_first_where(s, named(name@), i as int);
    }
    None
}

/// Largest display order (0 when there is no category).
pub open spec fn max_order(s: Seq<CategoryView>) -> nat
    decreases s.len(),
{
    if s.len() == 0 {
        0
    } else {
        let m = max_order(s.drop_last());
        if s.last().order > m {
            s.last().order as nat
        } else {
            m
        }
    }
}

/// The largest display order bounds every category's order, so a category
/// registered one above it comes after all of them.
pub proof fn lemma_max_order_is_max(s: Seq<CategoryView>)
    ensures
        forall|i: int| 0 <= i < s.len() ==> (#[trigger] s[i]).order <= max_order(s),
    decreases s.len(),
{
    if s.len() > 0 {
        lemma_max_order_is_max(s.drop_last());
        assert forall|i: int| 0 <= i < s.len() - 1 implies s[i] == s.drop_last()[i] by {}
    }
}

/// Display order for a newly registered category: after every existing one.
pub fn next_category_order(cats: &Vec<Category>) -> (r: u32)
    requires
        max_order(categories_view(cats@)) < u32::MAX,
    ensures
        r == max_order(categories_view(cats@)) + 1,
{
    let mut m: u32 = 0;
    let mut i: usize = 0;
    while i < cats.len()
        invariant
            i <= cats.len(),
            m == max_order(categories_view(cats@.take(i as int))),
            max_order(categories_view(cats@)) < u32::MAX,
        decreases cats.len() - i,
    {
        assert(categories_view(cats@.take(i as int + 1)).drop_last() =~= categories_view(cats@.take(i as int)));
        if cats[i].order > m {
            m = cats[i].order;
        }
        i = i + 1;
    }
    assert(cats@.take(cats.len() as int) =~= cats@);
    m + 1
}

/// `c` with display order `k`.
pub open spec fn with_order(c: CategoryView, k: int) -> CategoryView {
    CategoryView { order: k as u32, ..c }
}

/// The categories of `s` (in display order) after moving the one at `from`
/// to the 1-based `position`, renumbered 1, 2, ….
pub open spec fn reordered(s: Seq<CategoryView>, from: int, position: int) -> Seq<CategoryView> {
    let moved = s.remove(from).insert(position - 1, s[from]);
    Seq::new(moved.len(), |k: int| with_order(moved[k], k + 1))
}

/// Move category `name` to the 1-based `position` of the display order and
/// reassign orders 1, 2, …. `sorted` is the category list in display order;
/// the result is the whole list in its new order with its new display orders.
pub fn reorder_categories(sorted: &Vec<Category>, name: &str, position: usize) -> (r: Vec<Category>)
    requires
        1 <= position <= sorted.len(),
        sorted.len() < u32::MAX,
        first_where(categories_view(sorted@), named(name@)) is Some,
    ensures
        categories_view(r@) == reordered(
            categories_view(sorted@),
            first_where(categories_view(sorted@), named(name@))->0,
            position as int,
        ),
{
    let from = find_category(sorted, name).unwrap();
    let ghost s = categories_view(sorted@);
    proof {
        crate::order::lemma_first_where_props(s, named(name@));
    }
    let mut moved: Vec<Category> = Vec::new();
    let mut i: usize = 0;
    while i < sorted.len()
        invariant
            i <= sorted.len(),
            from < sorted.len(),
            s == categories_view(sorted@),
            i <= from ==> categories_view(moved@) == s.take(i as int),
            i > from ==> categories_view(moved@) == s.take(from as int) + s.subrange(from + 1, i as int),
        decreases sorted.len() - i,
    {
        let ghost prev = categories_view(moved@);
        if i != from {
            moved.push(sorted[i].clone());
            assert(categories_view(moved@) =~= prev.push(s[i as int]));
        }
        proof {
            if i < from {
                assert(categories_view(moved@) =~= s.take(i as int + 1));
            } else if i == from {
                assert(s.subrange(from + 1, i + 1) =~= Seq::<CategoryView>::empty());
                assert(categories_view(moved@) =~= s.take(from as int) + s.subrange(from + 1, i + 1));
            } else {
                assert(categories_view(moved@) =~= s.take(from as int) + s.subrange(from + 1, i + 1));
            }
        }
        i = i + 1;
    }
    assert(s.take(from as int) + s.subrange(from + 1, sorted.len() as int) =~= s.remove(from as int));
    moved.insert(position - 1, sorted[from].clone());
    let ghost mv = categories_view(moved@);
    assert(mv =~= s.remove(from as int).insert(position - 1, s[from as int]));
    let mut r: Vec<Category> = Vec::new();
    let mut k: usize = 0;
    while k < moved.len()
        invariant
            k <= moved.len(),
            moved.len() == sorted.len(),
            sorted.len() < u32::MAX,
            mv == categories_view(moved@),
            r@.len() == k,
            forall|a: int| 0 <= a < k ==> #[trigger] r@[a]@ == with_order(mv[a], a + 1),
        decreases moved.len() - k,
    {
        let mut c = moved[k].clone();
        c.order = (k + 1) as u32;
        r.push(c);
        k = k + 1;
    }
    assert(categories_view(r@) =~= reordered(s, from as int, position as int));
    r
}

/// After a reorder the display orders run 1, 2, … without gap or repeat,
/// the moved category stands at the requested position, and every other
/// category keeps its place relative to the rest.
pub proof fn lemma_reorder_places(s: Seq<CategoryView>, from: int, position: int)
    requires
        0 <= from < s.len(),
        1 <= position <= s.len(),
        s.len() < u32::MAX,
    ensures
        reordered(s, from, position).len() == s.len(),
        forall|k: int| 0 <= k < s.len() ==> #[trigger] reordered(s, from, position)[k].order == k + 1,
        reordered(s, from, position)[position - 1].name == s[from].name,
        forall|k: int|
            0 <= k < s.len() - 1 ==> (#[trigger] s.remove(from)[k]).name == reordered(s, from, position)[
                if k < position - 1 { k } else { k + 1 }
            ].name,
{
}

} // verus!
