pub mod task_ref;
pub mod status;
pub mod export;
pub mod list;
pub mod content;
pub mod labels;
pub mod project;
pub mod args;
