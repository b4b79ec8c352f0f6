//! What the host hands in for one frame.

use vstd::prelude::*;
use crate::field::PlayField;
use crate::vector::Vec2;

verus! {

/// What the host hands in for one frame.
#[derive(Clone, Copy, Debug, PartialEq, Eq, Structural)]
pub struct FrameInput {
    /// The time since the last frame, in nanoseconds.
    pub dt: u64,
    /// The extents of the field in this frame.
    pub field: PlayField,
    /// The sum of the unit vectors of the directions that the input asks for.
    pub intent: Vec2,
    /// Whether the input asks to end the game.
    pub quit_requested: bool,
}

} // verus!
