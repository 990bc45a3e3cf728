//! The command line of `moco`, as plain values: what each command and its
//! options hold once parsed.

use vstd::prelude::*;

use crate::cli::export::ExportArgs;
use crate::cli::list::ListArgs;
use crate::cli::status::StatusArgs;

verus! {

/// The parsed command line.
pub struct Cli {
    pub command: Command,
}

/// The commands of `moco`.
pub enum Command {
    /// Manage registered projects.
    Project(ProjectArgs),
    /// Add a new task to the current project (or global list).
    Add(AddArgs),
    /// Edit an existing task.
    Edit(EditArgs),
    /// Update the status or progress of a task.
    Status(StatusArgs),
    /// List tasks for the current project (or global list).
    List(ListArgs),
    /// Manage tags on tasks.
    Tag(TagArgs),
    /// Manage notes.
    Note(NoteArgs),
    /// Remove a task (and its subtasks).
    Remove(RemoveArgs),
    /// Manage moco configuration.
    Config(ConfigArgs),
    /// Sync `~/.moco/` through a git remote.
    Sync(SyncArgs),
}

/// Arguments of `moco project`.
pub struct ProjectArgs {
    pub command: ProjectCommand,
}

/// The subcommands of `moco project`.
pub enum ProjectCommand {
    /// Initialize a project for the current directory.
    Init(InitArgs),
    /// Delete a registered project and all its tasks.
    Delete(DeleteArgs),
    /// Open a registered project in your configured editor.
    Open(OpenArgs),
    /// List all registered projects with their labels and task counts.
    List(crate::cli::project::ListArgs),
    /// Manage labels on the current project.
    Label(LabelArgs),
    /// Export tasks to a Markdown file.
    Export(ExportArgs),
    /// Change the registered directory for a project.
    Move(MoveArgs),
    /// Manage project categories.
    Category(CategoryArgs),
    /// Assign a project to a category.
    SetCategory(SetCategoryArgs),
    /// Show details of a project.
    Info(InfoArgs),
    /// Enable or disable sync checks for a project.
    SetSync(SetSyncArgs),
}

/// Arguments of `moco project init`.
pub struct InitArgs {
    /// Name for this project/workspace.
    pub name: String,
    /// Re-initialize even if this directory is already registered.
    pub force: bool,
}

/// Arguments of `moco add`.
pub struct AddArgs {
    /// Task description (Markdown supported). Omit to open the interactive form.
    pub description: Option<String>,
    /// Add as a subtask of the open task with this display index.
    pub sub: Option<u32>,
    /// Add to the global task list instead of the current project.
    pub global: bool,
    /// Add one or more tags to the task (can be repeated).
    pub tags: Vec<String>,
}

/// Arguments of `moco edit`.
pub struct EditArgs {
    /// Task reference to edit: open (`1`), subtask (`1.2`), completed (`C1`),
    /// deferred (`D1`). If omitted, opens the task browser.
    pub task_id: Option<String>,
    /// New content for the task (non-interactive mode).
    pub content: Option<String>,
    /// Append content to the existing task body (non-interactive).
    pub append: bool,
    /// Replace the task body with new content (non-interactive).
    pub replace: bool,
    /// Operate on the global task list instead of the current project.
    pub global: bool,
}

/// Arguments of `moco project delete`.
pub struct DeleteArgs {
    /// Skip the confirmation prompt and delete immediately.
    pub yes: bool,
    /// Directly select the project at this path, bypassing the browser.
    pub project_path: Option<String>,
}

/// Arguments of `moco project open`.
pub struct OpenArgs {
    /// Print the command that would be run instead of launching the editor.
    pub dry_run: bool,
    /// Directly open the project at this path, bypassing the browser.
    pub project_path: Option<String>,
}

/// Arguments of `moco project move`.
pub struct MoveArgs {
    /// New directory path for the project. Defaults to the current directory.
    pub path: Option<String>,
    /// Directly select the project at this path (bypasses the browser).
    pub project_path: Option<String>,
}

/// Arguments of `moco project label`.
pub struct LabelArgs {
    pub subcommand: LabelCommand,
}

/// The subcommands of `moco project label`.
pub enum LabelCommand {
    /// Add a label to the current project.
    Add { label: String },
    /// Remove a label from the current project.
    Remove { label: String },
    /// List all labels on the current project.
    List,
}

/// Arguments of `moco tag`.
pub struct TagArgs {
    pub subcommand: TagCommand,
}

/// The subcommands of `moco tag`.
pub enum TagCommand {
    /// Add a tag to a task.
    Add { task_id: u32, tag: String },
    /// Remove a tag from a task.
    Remove { task_id: u32, tag: String },
    /// List tags on a task, or all tagged tasks if no task_id is given.
    List { task_id: Option<u32> },
}

/// Arguments of `moco note`.
pub struct NoteArgs {
    pub subcommand: NoteCommand,
}

/// The subcommands of `moco note`.
pub enum NoteCommand {
    /// Add a note to the current scope. Omit title to open the interactive form.
    Add { title: Option<String>, content: Option<String> },
    /// List notes in the current scope.
    List,
    /// Edit a note's content.
    Edit { note_id: u32, content: Option<String>, append: bool, replace: bool },
    /// Delete a note (prompts for confirmation unless --yes is given).
    Delete { note_id: u32, yes: bool },
}

/// Arguments of `moco remove`.
pub struct RemoveArgs {
    /// Task to remove: open index (`1`), subtask (`1.1`), completed (`C1`), deferred (`D1`).
    pub task_id: String,
    /// Skip confirmation prompt.
    pub yes: bool,
    /// Operate on the global task list instead of the current project.
    pub global: bool,
}

/// Arguments of `moco config`.
pub struct ConfigArgs {
    pub command: ConfigCommand,
}

/// The subcommands of `moco config`.
pub enum ConfigCommand {
    /// Check the configuration file for errors.
    Check,
}

/// Arguments of `moco sync`.
pub struct SyncArgs {
    pub command: SyncCommand,
}

/// The subcommands of `moco sync`.
pub enum SyncCommand {
    /// Pull the latest changes from the sync remote into ~/.moco/.
    Pull,
    /// Push local ~/.moco/ changes to the sync remote.
    Push,
    /// Show the current sync configuration and status.
    Status,
}

/// Arguments of `moco project category`.
pub struct CategoryArgs {
    pub subcommand: CategoryCommand,
}

/// The subcommands of `moco project category`.
pub enum CategoryCommand {
    /// Register a new category (appended last in display order).
    Add { name: String },
    /// Remove a category. Fails if projects are assigned unless --force is given.
    Remove { name: String, force: bool },
    /// List all registered categories in display order.
    List,
    /// Move a category to a new display position (1-based).
    Reorder { name: String, position: usize },
}

/// Arguments of `moco project set-category`.
pub struct SetCategoryArgs {
    /// Name of the project to assign.
    pub project_name: String,
    /// Category to assign the project to.
    pub category: Option<String>,
    /// Remove the project's category assignment.
    pub unset: bool,
}

/// Arguments of `moco project info`.
pub struct InfoArgs {
    /// Show info for this named project rather than the project for the
    /// current directory.
    pub name: Option<String>,
}

/// Arguments of `moco project set-sync`.
pub struct SetSyncArgs {
    /// Enable sync checks for this project.
    pub enable: bool,
    /// Disable sync checks for this project.
    pub disable: bool,
    /// Target project by name instead of resolving from the current directory.
    pub name: Option<String>,
}

} // verus!
