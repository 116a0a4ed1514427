//! A screen of the game.

use vstd::prelude::*;

verus! {

/// A screen that draws itself and reacts to the input of one frame.
pub trait Scene {
    fn update(&mut self);
}

} // verus!
