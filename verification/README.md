# todotui

A Vim-friendly terminal to-do manager: tasks with subtasks, projects,
predefined tags, statuses and priorities, due dates, views (All, Today, Done,
Log, per project and per tag), search, a `:` command bar, Markdown export and
a pomodoro timer. Tasks live in SQLite, settings in a TOML file.

## Layout

- `src/` is the library, verified with Verus. Every public function states
  what it returns in its contract.
  - `text`, `calendar`: strings, dates and instants (chrono is called behind
    small trusted wrappers).
  - `models`, `tree`: tasks, statuses, priorities; the subtask tree and its
    flattened rows.
  - `filters`, `export`, `commands`, `store`: filtering and the today view,
    Markdown export, the command-bar language, and the database row form of
    a task.
  - `app`, `keys`: the application state, what each key and command does to
    it, and the outside work (database, files) a key asks for as an `Effect`.
  - `screen`: the text each part of the screen shows.
  - `config`, `input`, `pomodoro`, `error`.
- `app/` is the program around it: terminal, database, configuration file,
  drawing. It performs the effects the library returns and hands back the
  results through the `finish_*` methods.
- `tests/` runs the library on concrete inputs.
