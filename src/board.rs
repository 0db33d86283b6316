//! Positions of the stacks on the board.

use vstd::prelude::*;

verus! {

/// A stack on the board, by its horizontal and vertical coordinate. The
/// scoring rules use it only as a key.
#[derive(Debug, Clone, Copy, PartialEq, Eq, Structural, Hash)]
pub struct Position {
    pub h: u32,
    pub v: u32,
}

impl Position {
    /// The stack at column `h` and row `v`.
    pub fn new(h: u32, v: u32) -> (r: Position)
        ensures
            r.h == h,
            r.v == v,
    {
        Position { h, v }
    }
}

} // verus!
