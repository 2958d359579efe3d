# lyrics

Tooling for timed song lyrics, with its core proved correct by Verus.

- `src/` is the verified library: timestamps, the line-marker, credits and
  collections descriptors, the lyrics cue parser, the credit-line parser,
  the WebVTT and SubRip renderers, and the terminal selector pages (text
  fitting, the frame buffer and its diff, the list and table pages as state
  machines). Each public function states its result in its contract, and
  the properties that span several functions are proof functions.
- `app/` reads and writes files, parses the descriptor files with serde,
  and drives the selector pages on a real terminal through crossterm.
- `tests/` exercises the library on concrete values.
