# my-task

A command-line task manager kept in SQLite, with a library whose behaviour is
specified and proved with Verus.

## Layout

- `src/` — the verified library.
  - `db.rs`: the tables (tasks, projects, reminders) in memory, with their
    invariant, every query and change the commands make, and the moving of
    an older file's task project names into the projects table; `laws.rs`
    states what those operations keep and undo.
  - `date.rs`, `date_parser.rs`: calendar dates, their text, and fuzzy due
    dates ("明日", "next week", "金曜", ...).
  - `order.rs`, `keyword.rs`: the sort orders of the task list, and the
    keyword matching of search (literal text, ASCII case ignored).
  - `table.rs`: tables as the commands describe them, drawn by comfy-table.
  - `commands.rs` and `commands/`: one module per command (`add`, `close`,
    `done`, `edit`, `list`, `notify`, `project`, `projects`, `search`,
    `show`), each with its options and a `run` that works on the tables in
    memory and returns what it prints; `follow` holds the scrolling logic of
    `list --follow`, `json_output` the JSON shapes, and `edit/yaml` the edit
    file of `edit -i`.
- `app/` — the executable: argument parsing, the database file, the clock,
  the terminal, the editor and JSON printing.
- `tests/` — tests of the library.
