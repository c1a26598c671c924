//! The ways in which a move can be refused.

use vstd::prelude::*;

verus! {

/// Why a move was refused. Every refusal leaves the position untouched.
#[derive(Debug, Eq, PartialEq, Copy, Clone, Structural)]
pub enum MyError {
    /// The move names a board other than the one the previous move sent the player to.
    WrongBoard,
    /// The board index is not one of the nine boards.
    InvalidBoard,
    /// The cell index is not one of the nine cells.
    InvalidSquare,
    /// The cell already carries a mark.
    AlreadyPlayed,
    /// The board, or the whole game, already has a winner.
    AlreadyWon,
}

} // verus!
