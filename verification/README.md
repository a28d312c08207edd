# dv

A terminal viewer for `git diff` output, with its core verified in Verus.

- `src/` — the verified library:
  - `text.rs`: the string behaviour the parser relies on (`lines`, `find`, `trim`,
    `split`, `u32` parsing, decimal digits), stated over `Seq<char>`.
  - `diffmodel.rs`: unified diff text parsed into files, hunks and numbered lines,
    against a line-by-line state-machine specification; per-file line statistics.
  - `parse_laws.rs`: properties of every parse (one file per `diff --git` line, each
    file named by its own header, each file's hunks and lines as the text gives them
    in order, lines the parser passes over change nothing, gutter numbers count up
    from the hunk header, a hunk header's last `-`/`+` pieces give its start lines,
    change counts add up over hunks).
  - `style.rs`, `highlight.rs`, `app.rs`, `ui.rs`: styled text, syntax highlighting
    through `syntect`, the rendered diff of a file, the viewer's state (projects
    rendered lazily on first opening, the Home screen's filter, keys, watcher
    updates), and the text of the Home screen, rows, hints, footers and titles.
  - `project.rs`, `watch.rs`, `git.rs`: projects, watcher updates, `git diff` arguments.
- `app/` — the binary: argument handling, running `git`, directory discovery, the
  watcher thread, and drawing with `ratatui`/`crossterm`.
- `tests/` — tests of the library.
