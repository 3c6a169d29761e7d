# Oxide

The logic of the Oxide terminal, written in Verus: what a window, its panes and
its shells do next, from plain values to plain values, with contracts that are
proved.

- `src/` is the verified library.
  - `panes`, `workspaces`, `saved`, `focus`: split trees, tabs and workspaces,
    how they come back after a restart, and where the keyboard goes.
  - `terminal/`: shell markers, the command log, keys, clicks, copy mode,
    search, the grid's rows and cursor, and the steps of the PTY thread.
  - `config/`, `keymap/`, `palette`, `overlay`, `menus`, `line_edit`: settings,
    themes, bindings, the command palette and the theme picker.
  - `markdown/`, `changelog`: documents rendered for a pager.
  - `prompt/`, `editor`, `git`, `startup`, `notifications`, `status`, `banner`,
    `update`, `cli`: everything around a shell session.
- `app/` is the application around it: the window, files, processes and the PTY.
- `tests/` run the library on concrete values.

Lengths on screen are whole numbers of a small unit, and shares of a split are
whole parts of a billion, so nothing in the library is floating point. Time is
counted in nanoseconds.

What the library takes on trust is a handful of calls: the column widths of
`unicode-width`, the grammars of `syntect` and `two-face`, the document editing
of `toml_edit`, the pattern compiler of `alacritty_terminal`, and a few string
functions of the standard library. Each is wrapped in a function whose comment
says what is claimed of it.
