use vstd::prelude::*;

use crate::text::{push_all, chars_of, string_of};

verus! {

/// Snapshot of git metadata resolved for a project directory.
#[derive(Debug, Clone, PartialEq, Eq)]
pub struct GitInfo {
    /// Name of the currently checked-out branch (e.g. `"main"`); `None` when
    /// HEAD is detached.
    pub branch: Option<String>,
    /// URL of the upstream remote (tracked upstream for the current branch,
    /// with fallback to `origin`); `None` when no suitable remote is configured.
    pub remote_url: Option<String>,
    /// Short name of the resolved remote (e.g. `"origin"`, `"upstream"`).
    pub remote_name: Option<String>,
}

/// Abstraction over a git backend so the underlying implementation can be
/// swapped. `discover` finds the repository at or above `path` and returns
/// its metadata, or `None` when `path` is not inside a repository or
/// discovery fails.
pub trait GitBackend {
    fn discover(path: &str) -> Option<GitInfo> where Self: Sized;
}

/// Git branch and remote as the terminal UI shows them:
/// `"⎇ <branch>  ↑ <url>"`, `"⎇ <branch>"`, `"↑ <url>"`, or nothing.
pub open spec fn git_line(branch: Option<Seq<char>>, url: Option<Seq<char>>) -> Seq<char> {
    match (branch, url) {
        (Some(b), Some(u)) => seq!['⎇', ' '] + b + seq![' ', ' ', '↑', ' '] + u,
        (Some(b), None) => seq!['⎇', ' '] + b,
        (None, Some(u)) => seq!['↑', ' '] + u,
        (None, None) => seq![],
    }
}

/// The characters of an optional string.
pub open spec fn opt_chars(o: Option<String>) -> Option<Seq<char>> {
    match o {
        Some(s) => Some(s@),
        None => None,
    }
}

/// The remote a repository's metadata names: the upstream remote of the
/// current branch when there is one, else `origin` when that remote exists.
pub open spec fn chosen_remote(upstream: Option<Seq<char>>, has_origin: bool) -> Option<Seq<char>> {
    match upstream {
        Some(u) => Some(u),
        None => if has_origin {
            Some("origin"@)
        } else {
            None
        },
    }
}

/// Choose the remote to report: the current branch's upstream remote,
/// falling back to `origin`.
pub fn choose_remote(upstream: Option<String>, has_origin: bool) -> (r: Option<String>)
    ensures
        opt_chars(r) == chosen_remote(opt_chars(upstream), has_origin),
{
    match upstream {
        Some(u) => Some(u),
        None => if has_origin {
            Some("origin".to_string())
        } else {
            None
        },
    }
}

/// Format git branch and remote for display in the terminal UI, e.g.
/// `"⎇ main  ↑ git@github.com:user/repo.git"`, or `"⎇ main"` when no remote
/// is configured; empty when `info` has neither branch nor remote.
pub fn format_git_info(info: &GitInfo) -> (s: String)
    ensures
        s@ == git_line(opt_chars(info.branch), opt_chars(info.remote_url)),
{
    let mut v: Vec<char> = Vec::new();
    match (&info.branch, &info.remote_url) {
        (Some(branch), Some(url)) => {
            v.push('⎇');
            v.push(' ');
            push_all(&mut v, &chars_of(branch.as_str()));
            v.push(' ');
            v.push(' ');
            v.push('↑');
            v.push(' ');
            push_all(&mut v, &chars_of(url.as_str()));
        },
        (Some(branch), None) => {
            v.push('⎇');
            v.push(' ');
            push_all(&mut v, &chars_of(branch.as_str()));
        },
        (None, Some(url)) => {
            v.push('↑');
            v.push(' ');
            push_all(&mut v, &chars_of(url.as_str()));
        },
        (None, None) => {},
    }
    assert(v@ =~= git_line(opt_chars(info.branch), opt_chars(info.remote_url)));
    string_of(&v)
}

} // verus!
