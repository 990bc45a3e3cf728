# moco

A terminal task manager for projects: tasks with statuses, progress and
subtasks, notes, project categories and labels, Markdown export and two
terminal browsers.

- `src/` is the verified library (Verus): the data model, the in-memory
  store with its keyed tables and index bookkeeping, task-reference and
  status parsing, export and listing documents, theme resolution, the
  workspace lookup and the browsers' navigation state. Each public
  function states its result in `ensures`; laws spanning several
  functions are public proof functions.
- `app/` is the command-line program around it: argument parsing, the
  redb database, configuration files, git discovery and terminal drawing.
- `tests/` exercises the library on concrete values.
