//! Kinds of moves.

use vstd::prelude::*;

verus! {

/// The kind of a move: a run of consecutive ranks, a group of equal ranks,
/// or a discard of cards that scores nothing.
#[derive(Debug, Clone, Copy, PartialEq, Eq, Structural, Hash)]
pub enum MoveType {
    Run,
    Group,
    Discard,
}

} // verus!
