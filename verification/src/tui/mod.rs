//! Navigation and key handling of the terminal browsers and the task form.

pub mod keys;
pub mod scroll_list;
pub mod browser;
pub mod project_browser;
pub mod form;
