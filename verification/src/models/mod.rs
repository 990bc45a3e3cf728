pub mod category;
pub mod note;
pub mod project;
pub mod task;

pub use category::Category;
pub use note::Note;
pub use project::Project;
pub use task::{Task, TaskStatus};
