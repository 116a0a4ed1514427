//! The size of the game's window.

use vstd::prelude::*;

verus! {

/// Width of the window where the screen's resolution is not used.
pub const DEFAULT_WIDTH: i32 = 1280;

/// Height of the window where the screen's resolution is not used.
pub const DEFAULT_HEIGHT: i32 = 720;

/// The window's size: the screen's resolution where it is known and the
/// window is to fill the screen, 1280 by 720 otherwise.
pub fn window_size(screen: Option<(i32, i32)>, fullscreen: bool) -> (size: (i32, i32))
    ensures
        size == match screen {
            Some(resolution) if fullscreen => resolution,
            _ => (DEFAULT_WIDTH, DEFAULT_HEIGHT),
        },
{
    match screen {
        Some((w, h)) if fullscreen => (w, h),
        _ => (DEFAULT_WIDTH, DEFAULT_HEIGHT),
    }
}

} // verus!
