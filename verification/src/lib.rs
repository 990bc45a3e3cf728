//! Verified core of the `moco` task manager: the task, note and project
//! model, task-reference and status parsing, the index bookkeeping of the
//! task store, Markdown export, theme resolution and the navigation state
//! of the terminal browsers.

pub mod text;
pub mod ident;
pub mod time;
pub mod models;
pub mod order;
pub mod cli;
pub mod db;
pub mod error;
pub mod git;
pub mod theme;
pub mod tui;
pub mod workspace;
pub mod config;
