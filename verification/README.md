# rediff

A terminal tool for reading git diffs file by file. This crate holds its
logic as a Verus-verified library; `app/` is the program around it: I/O,
colour math and threads.

## Layout

- `src/` — the verified library:
  - `model` — files, hunks, lines, `@@` headers, parent directories.
  - `diff` — hunks with context from a line diff (imara-diff's histogram
    diff behind one trusted call) and whole-file hunks; proved: every hunk's
    `@@` ranges number exactly its lines, which hold the file's text, hunks
    come in order, and the added/removed totals are the hunks' lines.
  - `emphasis` — intra-line emphasis of paired removed/added lines.
  - `git` — path filters, commit-picker decisions, range ids, dates, blame
    line attribution.
  - `highlight` — per-line styled spans: plain text, the layout of
    tree-sitter highlight events, syntect ranges.
  - `treesitter` — grammar and query choice per language, running
    tree-sitter-highlight (trusted calls) and laying out its events.
  - `engine` — the highlighting order (tree-sitter, syntect, plain), syntect
    over two-face's syntaxes and themes (trusted calls) laid out per line,
    and the per-capture color table.
  - `theme` — theme selection against the bundled registry's names.
  - `config` — layout/theme preferences and editing the TOML config text.
  - `tui` — row planning for the diff stream, sidebar and stream navigation,
    review tracking, fuzzy matching, the blame gutter, worker-pool sizing.
- `tests/` — unit and scenario tests against the library.
- `app/` — the command-line entry, file and repository I/O (gix), loading
  the highlight assets once, the theme chrome (floating-point color math)
  and the background loader threads.
