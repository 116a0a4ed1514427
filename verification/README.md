# life

Conway's Game of Life on an unbounded grid, as a verified library and the
macroquad program that draws it.

- `src/grid.rs` — cells, the grid and its rule: `Grid::evolve` is proved to
  give exactly the next generation of Conway's rule (birth on three live
  neighbours, survival on two or three), together with laws of that rule
  (an empty grid stays empty, new cells appear only next to live ones, the
  rule commutes with moving the pattern).
- `src/game.rs` — what the keyboard and mouse do to the grid and to the
  flags of the game screen in one frame: the eraser, the row and scatter
  keys, clearing, pausing, saving and leaving.
- `src/util.rs` — the dedent helper used for the debug text.
- `src/window.rs`, `src/scene.rs`, `src/state.rs` — window size, the screen
  trait, and the errors met reading a saved game.
- `app/` — the program: window, camera, clocks, drawing, menus and the saved
  game file.
