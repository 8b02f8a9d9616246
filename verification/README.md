# herdr_git_graph

A read-only git commit graph viewer for Herdr, as a verified library and a
thin terminal program around it.

- `src/` — the library, verified with Verus:
  - `graph/` — reading `git log` records (`parse`), the lane layout that
    draws the graph (`layout`), and properties of that layout (`laws`).
  - `controller` — the viewer's state machine. Steps that need git record a
    `GitRequest`; the host runs it and passes the output back.
  - `finder`, `picker`, `help` — the search (by subject, author or hash),
    branch picker and help overlays.
  - `git` — the argument lists of the read-only git commands, the options
    and environment that every git run gets (no hooks, no file system
    monitor, no external diff, no optional locks), and reading the branch
    listing.
  - `launch`, `host` — deciding what the launch action does from Herdr's
    pane list, and the launch directory.
  - `root`, `config`, `input`, `presenter`, `diff` — repository resolution,
    settings, key bindings, screen texts, and the diff worker's channel.
  - `text`, `search` — character-level helpers and their specifications.
- `app/` — the terminal program: process and file I/O, JSON and TOML
  reading, the diff worker thread, and drawing with ratatui.
