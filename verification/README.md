# connectfour

Connect Four in the terminal, with several boards side by side, undo/redo on a single
timeline, score keeping and animated falling disks.

The game logic is a Verus library under `src/`; every function there is proved against
its contract, except two standard-library calls in `src/text.rs` (`str::to_lowercase`
and `String::push`), whose contracts are trusted: each is a small wrapper that makes the
one call, with a contract taken from the standard library's documentation. The terminal
program around the library is under `app/`.

## Layout

- `src/grid.rs` – the 7×6 board: dropping, removing, winning lines, flattening.
- `src/runtime.rs` – one game instance: moves, undo/redo history, soft and hard resets,
  scores. Its laws (undo after a drop or a reset, redo after undo, scoring, the single
  timeline) are proof functions at the end of the file.
- `src/input.rs` – what every key does to the set of boards, as a model (`AppModel::handled`)
  that `handle_key` is proved to follow, with laws about the quit key, the dialogs and
  the independence of the boards.
- `src/config.rs` – the command line, read into settings and reports.
- `src/pacing.rs` – the event loop's decisions: how long to wait for input (`--vfr` or a
  fixed frame rate), when the animations advance, which boards an input or an animation
  step leaves to be drawn, and whether a frame is owed.
- `src/status.rs`, `src/game.rs`, `src/disk.rs`, `src/sparse.rs`, `src/render.rs` –
  drawing, as a list of terminal commands (`DrawOp`) whose every element is specified.
- `src/strings.rs`, `src/textures.rs` – the message table and the measured textures.
- `src/text.rs` – the text operations the parsers use (trimming, splitting, lines,
  number parsing and printing, UTF-8 widths), proved against the standard library's
  documented behaviour, and the two trusted standard-library calls.
- `app/` – terminal I/O with crossterm, the clock, the disk physics (floating point), and
  the loop that carries out what `src/pacing.rs` decides.
