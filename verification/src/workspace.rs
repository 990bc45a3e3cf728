use vstd::prelude::*;

use crate::db::projects::projects_view;
use crate::models::project::{Project, ProjectView};

verus! {

/// Whether `base` is a prefix of `path` component by component, as std's
/// `Path::starts_with` decides it.
pub uninterp spec fn path_prefix(path: Seq<char>, base: Seq<char>) -> bool;

/// The number of components of `path` as std's `Path::components` yields
/// them.
pub uninterp spec fn component_count(path: Seq<char>) -> nat;

/// Tests `Path::new(path).starts_with(base)`. Its result depends on the two
/// strings alone and is named, not restated: std compares whole components
/// after its own normalisation of separators and `.`.
#[verifier::external_body]
fn path_starts_with(path: &str, base: &str) -> (b: bool)
    ensures
        b == path_prefix(path@, base@),
{
    std::path::Path::new(path).starts_with(base)
}

/// Counts `Path::new(path).components()`. The count depends on the string
/// alone and is named, not restated.
#[verifier::external_body]
fn count_components(path: &str) -> (n: usize)
    ensures
        n == component_count(path@),
{
    std::path::Path::new(path).components().count()
}

/// Whether project `p` is registered at `cwd` or at one of its ancestors.
pub open spec fn encloses(p: ProjectView, cwd: Seq<char>) -> bool {
    path_prefix(cwd, p.path) && component_count(p.path) > 0
}

/// Whether `i` is the project that a workspace at `cwd` resolves to: it
/// encloses `cwd` with the most path components, and comes first among
/// those that have as many.
pub open spec fn most_specific(ps: Seq<ProjectView>, cwd: Seq<char>, i: int) -> bool {
    &&& 0 <= i < ps.len()
    &&& encloses(ps[i], cwd)
    &&& forall|j: int|
        0 <= j < ps.len() && encloses(#[trigger] ps[j], cwd) ==> component_count(ps[j].path)
            <= component_count(ps[i].path) && (j < i ==> component_count(ps[j].path)
            < component_count(ps[i].path))
}

/// The registered project whose path is an ancestor-or-equal of `cwd`,
/// the most specific (longest) one when several are; `None` when none is
/// (callers then use the global task list).
pub fn resolve(projects: &Vec<Project>, cwd: &str) -> (r: Option<Project>)
    ensures
        match r {
            Some(p) => exists|i: int|
                most_specific(projects_view(projects@), cwd@, i) && p@ == #[trigger] projects_view(
                    projects@,
                )[i],
            None => forall|j: int|
                0 <= j < projects.len() ==> !encloses(#[trigger] projects_view(projects@)[j], cwd@),
        },
{
    let ghost ps = projects_view(projects@);
    let mut best: Option<usize> = None;
    let mut best_len: usize = 0;
    let mut i: usize = 0;
    while i < projects.len()
        invariant
            i <= projects.len(),
            ps == projects_view(projects@),
            match best {
                Some(b) => {
                    &&& b < i
                    &&& best_len == component_count(ps[b as int].path)
                    &&& encloses(ps[b as int], cwd@)
                    &&& forall|j: int|
                        0 <= j < i && encloses(#[trigger] ps[j], cwd@) ==> component_count(
                            ps[j].path,
                        ) <= best_len && (j < b ==> component_count(ps[j].path) < best_len)
                },
                None => best_len == 0 && forall|j: int|
                    0 <= j < i ==> !encloses(#[trigger] ps[j], cwd@),
            },
        decreases projects.len() - i,
    {
        assert(ps[i as int] == projects@[i as int]@);
        if path_starts_with(cwd, projects[i].path.as_str()) {
            let len = count_components(projects[i].path.as_str());
            if len > best_len {
                best_len = len;
                best = Some(i);
            }
        }
        i = i + 1;
    }
    match best {
        Some(b) => {
            let p = projects[b].clone();
            assert(most_specific(ps, cwd@, b as int));
            Some(p)
        },
        None => None,
    }
}

} // verus!
