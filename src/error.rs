//! Failures of the game engine.

use vstd::prelude::*;

verus! {

/// Why an engine operation refused to act.
#[derive(Debug, Clone, Copy, PartialEq, Eq, Structural)]
pub enum GameError {
    /// Two registered players share a name.
    DuplicateName,
    /// A draw from a pool that holds no card.
    EmptyPool,
    /// A pool position past its end.
    IndexOutOfRange,
    /// A commit with no drawn card held.
    NoPendingDraw,
}

} // verus!
