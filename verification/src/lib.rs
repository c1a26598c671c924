//! Rules engine and playout-based move selection for nested tic-tac-toe.

use rand_chacha::ChaCha8Rng;
use vstd::prelude::*;

pub mod ai;
pub mod board;
pub mod bugs;
pub mod clock;
pub mod error;
pub mod game;
pub mod laws;
pub mod megaboard;
pub mod monte_carlo;
pub mod random;
pub mod rules;
pub mod square;

pub use board::Board;
pub use game::Game;
pub use megaboard::MegaBoard;
pub use square::Square;

verus! {

/// Something that may have been won.
pub trait Winner {
    /// The owner, as contracts speak of it.
    spec fn spec_winner(&self) -> Square;

    /// The player who owns `self`, or `Empty` while nobody does.
    fn winner(&self) -> (w: Square)
        ensures
            w == self.spec_winner(),
    ;

    /// Whether a player owns `self`.
    fn has_winner(&self) -> (b: bool)
        ensures
            b == (self.spec_winner() != Square::Empty),
    {
        self.winner() != Square::Empty
    }
}

/// Something that offers a finite set of moves, each named by an index.
pub trait PossibleMoves {
    /// The indices that `choose_move` may hand out.
    spec fn choices(&self) -> Set<usize>;

    /// Whether moves remain, as contracts speak of it.
    spec fn spec_playable(&self) -> bool;

    /// Returns true if there are possible moves remaining.
    fn playable(&self) -> (b: bool)
        ensures
            b == self.spec_playable(),
    ;

    /// Draws one of the possible moves at random, or `None` when there is none.
    fn choose_move(&self, rng: &mut ChaCha8Rng) -> (r: Option<usize>)
        ensures
            match r {
                Some(i) => self.choices().contains(i),
                None => self.choices() =~= Set::<usize>::empty(),
            },
    ;
}

} // verus!
