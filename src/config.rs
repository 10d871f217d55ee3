//! Settings of the game window.
use vstd::prelude::*;

verus! {

/// Size of the game window in pixels.
#[derive(Debug, Clone, Copy, PartialEq, Eq, Structural)]
pub struct Resolution {
    /// Width of the game window.
    pub width: u32,
    /// Height of the game window.
    pub height: u32,
}

} // verus!
