use vstd::prelude::*;

use crate::db::tasks::contains_string;
use crate::models::project::{Project, ProjectView};
use crate::order::{first_where, lemma_first_where, rearranged, stable_order, stable_sort_order};
use crate::text::str_eq;

verus! {

broadcast use vstd::seq_lib::group_filter_ensures;

/// The models of a list of projects.
pub open spec fn projects_view(v: Seq<Project>) -> Seq<ProjectView> {
    v.map_values(|p: Project| p@)
}

/// Sort keys that put the most recently active project first.
pub open spec fn recency_keys(s: Seq<ProjectView>) -> Seq<int> {
    s.map_values(|p: ProjectView| -(p.last_active as int))
}

/// `r` is `s` stably sorted by `last_active`, most recent first.
pub open spec fn by_recency(s: Seq<ProjectView>, r: Seq<ProjectView>) -> bool {
    exists|p: Seq<int>| stable_order(recency_keys(s), p) && rearranged(s, p, r)
}

/// The projects, most recently active first (ties keep store order).
pub fn sort_by_recency(projects: &Vec<Project>) -> (r: Vec<Project>)
    ensures
        by_recency(projects_view(projects@), projects_view(r@)),
{
    let v = projects;
    let mut keys: Vec<i128> = Vec::new();
    let mut j: usize = 0;
    while j < v.len()
        invariant
            j <= v.len(),
            keys@.len() == j,
            forall|k: int| 0 <= k < j ==> keys@[k] == -(v@[k].last_active as i128),
        decreases v.len() - j,
    {
        keys.push(-(v[j].last_active as i128));
        j = j + 1;
    }
    let p = stable_sort_order(&keys);
    let ghost pv = p@.map_values(|i: usize| i as int);
    assert(keys@.map_values(|k: i128| k as int) =~= recency_keys(projects_view(v@)));
    let mut r: Vec<Project> = Vec::new();
    let mut k: usize = 0;
    while k < p.len()
        invariant
            k <= p.len(),
            p.len() == v.len(),
            pv == p@.map_values(|i: usize| i as int),
            forall|a: int| 0 <= a < p.len() ==> 0 <= #[trigger] pv[a] < v.len(),
            r@.len() == k,
            forall|a: int| 0 <= a < k ==> #[trigger] r@[a]@ == v@[pv[a]]@,
        decreases p.len() - k,
    {
        assert(pv[k as int] == p@[k as int]);
        r.push(v[p[k]].clone());
        k = k + 1;
    }
    assert(rearranged(projects_view(v@), pv, projects_view(r@)));
    r
}

/// The predicate "registered at this path".
pub open spec fn at_path(path: Seq<char>) -> spec_fn(ProjectView) -> bool {
    |p: ProjectView| p.path == path
}

/// The predicate "has this id".
pub open spec fn with_id(id: u128) -> spec_fn(ProjectView) -> bool {
    |p: ProjectView| p.id == id
}

/// Position of the first project registered at `path`.
pub fn find_by_path(projects: &Vec<Project>, path: &str) -> (r: Option<usize>)
    ensures
        r matches Some(i) ==> i < projects.len(),
        match r {
            Some(i) => first_where(projects_view(projects@), at_path(path@)) == Some(i as int),
            None => first_where(projects_view(projects@), at_path(path@)) is None,
        },
{
    let ghost s = projects_view(projects@);
    let mut i: usize = 0;
    while i < projects.len()
        invariant
            i <= projects.len(),
            s == projects_view(projects@),
            forall|k: int| 0 <= k < i ==> !at_path(path@)(#[trigger] s[k]),
        decreases projects.len() - i,
    {
        if str_eq(projects[i].path.as_str(), path) {
            proof {
                lemma_first_where(s, at_path(path@), i as int);
            }
            return Some(i);
        }
        i = i + 1;
    }
    proof {
        lemma_first_where(s, at_path(path@), i as int);
    }
    None
}

/// Position of the first project with id `id`.
pub fn find_by_id(projects: &Vec<Project>, id: u128) -> (r: Option<usize>)
    ensures
        r matches Some(i) ==> i < projects.len(),
        match r {
            Some(i) => first_where(projects_view(projects@), with_id(id)) == Some(i as int),
            None => first_where(projects_view(projects@), with_id(id)) is None,
        },
{
    let ghost s = projects_view(projects@);
    let mut i: usize = 0;
    while i < projects.len()
        invariant
            i <= projects.len(),
            s == projects_view(projects@),
            forall|k: int| 0 <= k < i ==> !with_id(id)(#[trigger] s[k]),
        decreases projects.len() - i,
    {
        if projects[i].id == id {
            proof {
                lemma_first_where(s, with_id(id), i as int);
            }
            return Some(i);
        }
        i = i + 1;
    }
    proof {
        lemma_first_where(s, with_id(id), i as int);
    }
    None
}

/// The predicate "carries this label".
pub open spec fn labelled(label: Seq<char>) -> spec_fn(ProjectView) -> bool {
    |p: ProjectView| p.labels.contains(label)
}

/// The projects that carry `label`, in list order (the projects whose tasks
/// the cross-project label view shows).
pub fn projects_with_label(projects: &Vec<Project>, label: &String) -> (r: Vec<Project>)
    ensures
        projects_view(r@) == projects_view(projects@).filter(labelled(label@)),
{
    let ghost s = projects_view(projects@);
    let mut r: Vec<Project> = Vec::new();
    let mut i: usize = 0;
    while i < projects.len()
        invariant
            i <= projects.len(),
            s == projects_view(projects@),
            projects_view(r@) == s.take(i as int).filter(labelled(label@)),
        decreases projects.len() - i,
    {
        proof {
            reveal(Seq::filter);
            assert(s.take(i as int + 1).drop_last() =~= s.take(i as int));
        }
        if contains_string(&projects[i].labels, label) {
            r.push(projects[i].clone());
            assert(projects_view(r@) =~= s.take(i as int).filter(labelled(label@)).push(s[i as int]));
        }
        i = i + 1;
    }
    assert(s.take(projects.len() as int) =~= s);
    r
}

/// The predicate "assigned to this category".
pub open spec fn in_category(name: Seq<char>) -> spec_fn(ProjectView) -> bool {
    |p: ProjectView| p.category == Some(name)
}

/// The projects assigned to category `name`, in list order.
pub fn projects_in_category(projects: &Vec<Project>, name: &str) -> (r: Vec<Project>)
    ensures
        projects_view(r@) == projects_view(projects@).filter(in_category(name@)),
{
    let ghost s = projects_view(projects@);
    let mut r: Vec<Project> = Vec::new();
    let mut i: usize = 0;
    while i < projects.len()
        invariant
            i <= projects.len(),
            s == projects_view(projects@),
            projects_view(r@) == s.take(i as int).filter(in_category(name@)),
        decreases projects.len() - i,
    {
        proof {
            reveal(Seq::filter);
            assert(s.take(i as int + 1).drop_last() =~= s.take(i as int));
        }
        let hit = match &projects[i].category {
            Some(c) => str_eq(c.as_str(), name),
            None => false,
        };
        if hit {
            r.push(projects[i].clone());
            assert(projects_view(r@) =~= s.take(i as int).filter(in_category(name@)).push(s[i as int]));
        }
        i = i + 1;
    }
    assert(s.take(projects.len() as int) =~= s);
    r
}

} // verus!
