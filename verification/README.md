# cmdnavi

`cmdnavi` keeps a personal reference of shell commands and their
descriptions, grouped by category. It shows, lists, adds and removes
commands, and lets the whole configuration or one category be edited as
YAML in a text editor. It never runs the commands it stores.

## Layout

- `src/` — the library, verified with Verus:
  - `model.rs`: commands, categories and the configuration (names kept in
    sorted order, each once), and the rules a valid configuration obeys;
  - `text.rs`: whitespace, trimming, line endings, decimal numbers and the
    order of names;
  - `config.rs`: where the configuration lives, which stored texts hold
    no setting, and what a stored text means;
  - `cli.rs`: what a command line asks for, and what `show`, `list`, `add`
    and `remove` print and change;
  - `editor.rs`: which editor runs, what an edit file starts with, what to
    do with an invalid edit, and how an edit is saved without losing a
    change made meanwhile;
  - `laws.rs`: properties that span several operations.
- `app/` — the program: files, locking, YAML, the terminal and the editor
  process, around the library's decisions.
- `tests/` — tests of the library.
