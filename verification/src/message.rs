use vstd::prelude::*;
use crate::vector::Vec2;

verus! {

/// What the player can ask of the world.
#[derive(Debug, Clone, Copy, PartialEq, Eq)]
pub enum Message {
    /// Split the nearest tip above `pos` in two, one branch growing towards `pos`.
    SplitRoot { pos: Vec2 },
    /// Place an attractor at `pos`.
    SpawnAttractor { pos: Vec2 },
}

} // verus!
