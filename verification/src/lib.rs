//! Conway's Game of Life: the cell grid and its rules, the decisions of the
//! game screen, and the helpers of the game.

pub mod game;
pub mod grid;
pub mod scene;
pub mod state;
pub mod util;
pub mod window;
