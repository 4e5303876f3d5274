# rustc log viewer

A viewer for the JSON log that rustc writes when `RUSTC_LOG_FORMAT_JSON=1` and
`RUSTC_LOG_OUTPUT_TARGET` are set.  Pass the log's path (or leave
`RUSTC_LOG_OUTPUT_TARGET` set); keys are vaguely less/vim-like: `j`/`k`,
`d`/`u`, `g`/`G` scroll, `/` searches, `n`/`N` jump between matches, `Escape`
leaves the search.

- `src/` is the library, verified with Verus: the reading of a log line into
  an arena, the tree of entered spans, filters, search, and the layout of a
  message's text with its colours and search marks.
- `app/` is the window (eframe): reading the file on a thread, keys,
  scrolling and drawing.
- `tests/` runs the library on concrete lines.
