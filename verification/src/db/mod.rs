pub mod tasks;
pub mod notes;
pub mod projects;
pub mod categories;
pub mod store;
