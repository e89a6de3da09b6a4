# starship-jj

A starship prompt segment for the jj version control system: bookmarks near
the working copy, the working-copy commit's description, change id, warnings
and change counts, each printed by a configurable module.

- `src/` is the library, verified with Verus: the data the prompt shows
  (`data`), the modules that print it (`config::*`), the decisions of the
  bookmark search (`search`), template rendering (`template`) and text helpers
  (`text`). Each module's `print` appends to a `String` and states exactly
  what it appends, up to the terminal escape sequences that `colored` decides
  on from the environment.
- `app/` is the `jj` subcommand around it: command-line parsing, reading the
  TOML configuration, loading the repository and walking its history.
- `tests/` runs the library on concrete inputs.
