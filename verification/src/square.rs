//! The owner of a single cell, or of a whole decided board.

use vstd::prelude::*;

verus! {

/// What a cell holds: nothing, or the mark of one of the two players.
///
/// The same type names the owner of a finished board, where `Empty` stands
/// for "nobody": a board that is still open, or one that ended in a draw.
#[derive(Debug, Eq, Hash, PartialEq, Copy, Clone, Structural)]
pub enum Square {
    Empty,
    O,
    X,
}

impl Square {
    /// The player who moves after `self`. Whoever is not `O` is followed by `O`.
    pub open spec fn spec_other(self) -> Square {
        if self == Square::O {
            Square::X
        } else {
            Square::O
        }
    }

    /// The player who moves after `self`.
    pub fn other(self) -> (next: Square)
        ensures
            next == self.spec_other(),
    {
        if self == Square::O {
            Square::X
        } else {
            Square::O
        }
    }
}

impl Default for Square {
    fn default() -> (s: Self)
        ensures
            s == Square::Empty,
    {
        Square::Empty
    }
}

} // verus!
