use vstd::prelude::*;

use crate::ident::{is_v4, new_id};
use crate::models::task::clone_strings;
use crate::time::{now_micros, representable};
use crate::text::string_views;

verus! {

/// A registered workspace project.
#[derive(Debug)]
pub struct Project {
    pub id: u128,
    pub name: String,
    /// Canonical absolute path to the workspace root.
    pub path: String,
    /// User-defined labels for cross-project categorisation.
    pub labels: Vec<String>,
    /// The name of the category this project belongs to, if any.
    pub category: Option<String>,
    pub created_at: i64,
    /// Updated whenever a task is added/modified/completed or the project is
    /// opened. Records without it count as the Unix epoch (sort last).
    pub last_active: i64,
    /// Cached git remote URL for this project's repository.
    pub git_remote: Option<String>,
    /// Whether `moco sync status` checks this project's remote.
    pub git_sync_enabled: bool,
}

/// Mathematical model of a project.
pub struct ProjectView {
    pub id: u128,
    pub name: Seq<char>,
    pub path: Seq<char>,
    pub labels: Seq<Seq<char>>,
    pub category: Option<Seq<char>>,
    pub created_at: i64,
    pub last_active: i64,
    pub git_remote: Option<Seq<char>>,
    pub git_sync_enabled: bool,
}

pub open spec fn opt_view(o: Option<String>) -> Option<Seq<char>> {
    match o {
        Some(s) => Some(s@),
        None => None,
    }
}

impl View for Project {
    type V = ProjectView;

    open spec fn view(&self) -> ProjectView {
        ProjectView {
            id: self.id,
            name: self.name@,
            path: self.path@,
            labels: string_views(self.labels@),
            category: opt_view(self.category),
            created_at: self.created_at,
            last_active: self.last_active,
            git_remote: opt_view(self.git_remote),
            git_sync_enabled: self.git_sync_enabled,
        }
    }
}

pub fn clone_opt_string(o: &Option<String>) -> (r: Option<String>)
    ensures
        opt_view(r) == opt_view(*o),
{
    match o {
        Some(s) => Some(s.clone()),
        None => None,
    }
}

impl Clone for Project {
    fn clone(&self) -> (r: Self)
        ensures
            r@ == self@,
    {
        Project {
            id: self.id,
            name: self.name.clone(),
            path: self.path.clone(),
            labels: clone_strings(&self.labels),
            category: clone_opt_string(&self.category),
            created_at: self.created_at,
            last_active: self.last_active,
            git_remote: clone_opt_string(&self.git_remote),
            git_sync_enabled: self.git_sync_enabled,
        }
    }
}

impl Project {
    /// A new project with no labels, no category, no cached remote and sync
    /// checks enabled, a fresh random id, created and active now.
    pub fn new(name: &str, path: &str) -> (p: Project)
        ensures
            p@.name == name@,
            p@.path == path@,
            p@.labels.len() == 0,
            p@.category is None,
            p@.git_remote is None,
            p@.git_sync_enabled,
            p@.created_at == p@.last_active,
            representable(p@.created_at),
            is_v4(p@.id),
    {
        let now = now_micros();
        let p = Project {
            id: new_id(),
            name: name.to_owned(),
            path: path.to_owned(),
            labels: Vec::new(),
            category: None,
            created_at: now,
            last_active: now,
            git_remote: None,
            git_sync_enabled: true,
        };
        assert(p@.labels =~= Seq::<Seq<char>>::empty());
        p
    }
}

} // verus!
