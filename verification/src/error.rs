use vstd::prelude::*;

use crate::text::{decimal, push_decimal, push_str, string_of, chars_of, push_all};

verus! {

/// Errors of the task manager's own rules. Failures of the storage backend
/// are reported by the backend itself.
#[derive(Debug)]
pub enum MocoError {
    AlreadyInitialized,
    ProjectNotFound,
    TaskNotFound(u32),
    InvalidStatus(String),
    HomeNotFound,
}

/// The user-facing message of an error.
pub open spec fn error_message(e: MocoError) -> Seq<char> {
    match e {
        MocoError::AlreadyInitialized => "project already initialized at this path (use --force to reinitialize)"@,
        MocoError::ProjectNotFound => "no project found; run `moco init <name>` to initialize one"@,
        MocoError::TaskNotFound(n) => "task #"@ + decimal(n as nat) + " not found"@,
        MocoError::InvalidStatus(s) => "invalid status value '"@ + s@ + "': expected 0–100, 'complete', or 'defer'"@,
        MocoError::HomeNotFound => "home directory could not be determined"@,
    }
}

impl MocoError {
    /// The user-facing message of the error (what `Display` shows).
    pub fn message(&self) -> (m: String)
        ensures
            m@ == error_message(*self),
    {
        match self {
            MocoError::AlreadyInitialized => "project already initialized at this path (use --force to reinitialize)".to_owned(),
            MocoError::ProjectNotFound => "no project found; run `moco init <name>` to initialize one".to_owned(),
            MocoError::TaskNotFound(n) => {
                let mut v: Vec<char> = Vec::new();
                push_str(&mut v, "task #");
                push_decimal(&mut v, *n as u64);
                push_str(&mut v, " not found");
                string_of(&v)
            },
            MocoError::InvalidStatus(s) => {
                let mut v: Vec<char> = Vec::new();
                push_str(&mut v, "invalid status value '");
                let sv = chars_of(s.as_str());
                push_all(&mut v, &sv);
                push_str(&mut v, "': expected 0–100, 'complete', or 'defer'");
                string_of(&v)
            },
            MocoError::HomeNotFound => "home directory could not be determined".to_owned(),
        }
    }
}

} // verus!
