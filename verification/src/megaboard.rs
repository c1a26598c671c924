//! The grid of nine boards.

use core::ops::Index;
use rand_chacha::ChaCha8Rng;
use vstd::prelude::*;
use crate::board::{check_lines, forget, lemma_push_ascending, Board};
use crate::error::MyError;
use crate::random::pick;
use crate::rules::{
    board_playable, empty_boards, meta_outcome, meta_playable, meta_winner, open_board, open_cell,
    place, sub_winners,
};
use crate::square::Square;
use crate::{PossibleMoves, Winner};

verus! {

/// Nine boards in row-major order, the boards that may still be played in, and
/// the winner of the whole game, kept up to date move by move.
#[derive(Debug)]
pub struct MegaBoard {
    board: [Board; 9],
    moves: Vec<usize>,
    winner: Square,
}

impl View for MegaBoard {
    type V = Seq<Seq<Square>>;

    /// The cells of the nine boards.
    open spec fn view(&self) -> Seq<Seq<Square>> {
        Seq::new(9, |b: int| self.boards()[b]@)
    }
}

impl MegaBoard {
    /// The nine boards.
    pub closed spec fn boards(&self) -> Seq<Board> {
        self.board@
    }

    /// The open boards in the order in which they are stored.
    pub closed spec fn open_moves(&self) -> Seq<usize> {
        self.moves@
    }

    /// The winner as the game has recorded it.
    pub closed spec fn recorded_winner(&self) -> Square {
        self.winner
    }

    /// The game is consistent: every board is, the recorded winner is the
    /// winner of the boards, and the stored open boards are exactly the boards
    /// that take moves in a game without a winner, each stored once.
    pub open spec fn wf(&self) -> bool {
        &&& self.boards().len() == 9
        &&& forall|b: int| 0 <= b < 9 ==> (#[trigger] self.boards()[b]).wf()
        &&& self.recorded_winner() == meta_winner(self@)
        &&& self.open_moves().no_duplicates()
        &&& forall|b: usize| #[trigger] self.open_moves().contains(b) <==> open_board(self@, b as int)
    }

    /// The number of boards, which is nine.
    pub fn len(&self) -> (n: usize)
        ensures
            n == 9,
    {
        9
    }

    fn check_winner(&self) -> (w: Square)
        requires
            self.boards().len() == 9,
            forall|b: int| 0 <= b < 9 ==> (#[trigger] self.boards()[b]).wf(),
        ensures
            w == meta_winner(self@),
    {
        let owners: [Square; 9] = [
            self.board[0].winner(),
            self.board[1].winner(),
            self.board[2].winner(),
            self.board[3].winner(),
            self.board[4].winner(),
            self.board[5].winner(),
            self.board[6].winner(),
            self.board[7].winner(),
            self.board[8].winner(),
        ];
        assert(owners@ =~= sub_winners(self@));
        check_lines(&owners)
    }

    /// Plays for `player` at cell `pos` of board `mega_pos`. Returns true if the game is over.
    pub fn play(&mut self, mega_pos: usize, pos: usize, player: Square) -> (r: Result<bool, MyError>)
        requires
            old(self).wf(),
            player != Square::Empty,
        ensures
            final(self).wf(),
            r == meta_outcome(old(self)@, mega_pos, pos, player),
            r is Ok ==> final(self)@ == place(old(self)@, mega_pos as int, pos as int, player),
            r is Err ==> *final(self) == *old(self),
    {
        if mega_pos >= 9 {
            return Err(MyError::InvalidBoard);
        }
        match self.board[mega_pos].can_play(pos) {
            Err(e) => {
                return Err(e);
            },
            Ok(_) => {},
        }
        if self.winner != Square::Empty {
            return Err(MyError::AlreadyWon);
        }
        proof {
            assert(open_cell(old(self)@[mega_pos as int], pos as int));
            assert(open_board(old(self)@, mega_pos as int));
            assert(self.moves@.contains(mega_pos));
        }
        let over = match self.board[mega_pos].play(pos, player) {
            Ok(over) => over,
            Err(e) => {
                return Err(e);
            },
        };
        let ghost now = place(old(self)@, mega_pos as int, pos as int, player);
        assert(self@ =~= now);
        assert(over == !board_playable(now[mega_pos as int]));
        if over {
            self.winner = self.check_winner();
            forget(&mut self.moves, mega_pos);
            if self.winner != Square::Empty {
                self.moves.clear();
            }
        } else {
            assert(sub_winners(now) =~= sub_winners(old(self)@));
        }
        proof {
            assert forall|b: usize| #[trigger] self.moves@.contains(b) <==> open_board(now, b as int) by {
                if b < 9 && b != mega_pos {
                    assert(now[b as int] == old(self)@[b as int]);
                    assert(old(self).open_moves().contains(b) <==> open_board(old(self)@, b as int));
                }
            }
            if self.moves@.len() > 0 {
                assert(self.moves@.contains(self.moves@[0]));
            }
            if meta_playable(now) {
                let b = choose|b: int| 0 <= b < 9 && board_playable(now[b]);
                assert(self.moves@.contains(b as usize));
            }
        }
        Ok(self.winner != Square::Empty || self.moves.is_empty())
    }

    /// The boards that may still be played in, in ascending order.
    pub fn legal_moves(&self) -> (open: Vec<usize>)
        requires
            self.wf(),
        ensures
            forall|b: usize| #[trigger] open@.contains(b) <==> open_board(self@, b as int),
            forall|j: int, k: int| 0 <= j < k < open@.len() ==> open@[j] < open@[k],
    {
        let mut open: Vec<usize> = Vec::new();
        if self.winner != Square::Empty {
            return open;
        }
        let mut i: usize = 0;
        while i < 9
            invariant
                i <= 9,
                self.wf(),
                self.winner == Square::Empty,
                forall|b: usize| #[trigger] open@.contains(b) <==> b < i && open_board(self@, b as int),
                forall|j: int, k: int| 0 <= j < k < open@.len() ==> open@[j] < open@[k],
            decreases 9 - i,
        {
            proof {
                self.board[i as int].lemma_playable();
            }
            if self.board[i].playable() {
                let ghost before = open@;
                open.push(i);
                proof {
                    lemma_push_ascending(before, i);
                    assert forall|b: usize| #[trigger] open@.contains(b) <==> b < i + 1 && open_board(
                        self@,
                        b as int,
                    ) by {
                        assert(open@.contains(b) <==> before.contains(b) || b == i);
                    }
                }
            }
            i += 1;
        }
        open
    }
}

impl Default for MegaBoard {
    /// The game with nothing on it: every board is open.
    fn default() -> (m: Self)
        ensures
            m.wf(),
            m@ == empty_boards(),
    {
        let m = MegaBoard {
            board: [
                Board::default(),
                Board::default(),
                Board::default(),
                Board::default(),
                Board::default(),
                Board::default(),
                Board::default(),
                Board::default(),
                Board::default(),
            ],
            moves: vec![0, 1, 2, 3, 4, 5, 6, 7, 8],
            winner: Square::Empty,
        };
        proof {
            assert(m@ =~= empty_boards());
            assert forall|b: usize| #[trigger] m.moves@.contains(b) <==> open_board(m@, b as int) by {
                if open_board(m@, b as int) {
                    assert(m.moves@[b as int] == b);
                }
            }
        }
        m
    }
}

impl vstd::std_specs::core::IndexSpecImpl<usize> for MegaBoard {
    /// A board is named by its place in row-major order.
    open spec fn index_req(&self, index: &usize) -> bool {
        *index < 9
    }
}

impl Index<usize> for MegaBoard {
    type Output = Board;

    /// The board at `pos`.
    fn index(&self, pos: usize) -> (b: &Board)
        ensures
            *b == self.boards()[pos as int],
    {
        &self.board[pos]
    }
}

impl vstd::std_specs::core::IndexSpecImpl<(usize, usize)> for MegaBoard {
    /// A board is named by its column and its row, in that order.
    open spec fn index_req(&self, index: &(usize, usize)) -> bool {
        index.1 * 3 + index.0 < 9
    }
}

impl Index<(usize, usize)> for MegaBoard {
    type Output = Board;

    /// The board at column `p.0` of row `p.1`.
    fn index(&self, p: (usize, usize)) -> (b: &Board)
        ensures
            *b == self.boards()[p.1 * 3 + p.0],
    {
        &self.board[p.1 * 3 + p.0]
    }
}

impl Clone for MegaBoard {
    /// An independent copy: same boards, same open boards in the same order.
    fn clone(&self) -> (m: Self)
        ensures
            m@ == self@,
            m.open_moves() == self.open_moves(),
            m.recorded_winner() == self.recorded_winner(),
            m.boards().len() == self.boards().len(),
            forall|b: int|
                0 <= b < 9 ==> (#[trigger] m.boards()[b]).open_moves() == self.boards()[b].open_moves(),
            self.wf() ==> m.wf(),
    {
        let m = MegaBoard {
            board: [
                self.board[0].clone(),
                self.board[1].clone(),
                self.board[2].clone(),
                self.board[3].clone(),
                self.board[4].clone(),
                self.board[5].clone(),
                self.board[6].clone(),
                self.board[7].clone(),
                self.board[8].clone(),
            ],
            moves: self.moves.clone(),
            winner: self.winner,
        };
        proof {
            assert(m.moves@ =~= self.moves@);
            assert(m@ =~= self@);
        }
        m
    }
}

impl Winner for MegaBoard {
    open spec fn spec_winner(&self) -> Square {
        self.recorded_winner()
    }

    /// The owner of the first complete line of won boards, or `Empty`.
    fn winner(&self) -> (w: Square)
        ensures
            self.wf() ==> w == meta_winner(self@),
    {
        self.winner
    }
}

impl PossibleMoves for MegaBoard {
    open spec fn choices(&self) -> Set<usize> {
        self.open_moves().to_set()
    }

    open spec fn spec_playable(&self) -> bool {
        self.open_moves().len() > 0 && self.recorded_winner() == Square::Empty
    }

    /// Whether the game still takes moves.
    fn playable(&self) -> (b: bool)
        ensures
            self.wf() ==> b == meta_playable(self@),
    {
        proof {
            if self.wf() {
                self.lemma_playable();
            }
        }
        !self.moves.is_empty() && !self.has_winner()
    }

    /// Draws one of the open boards, or `None` when the game takes no move.
    fn choose_move(&self, rng: &mut ChaCha8Rng) -> (r: Option<usize>)
        ensures
            self.wf() ==> match r {
                Some(b) => open_board(self@, b as int),
                None => !meta_playable(self@),
            },
    {
        let r = pick(&self.moves, rng);
        proof {
            if self.moves@.len() == 0 {
                assert(self.moves@.to_set() =~= Set::<usize>::empty());
            }
            if self.wf() {
                self.lemma_playable();
            }
        }
        r
    }
}

impl MegaBoard {
    /// In a consistent game the stored open boards say what the rules say.
    pub proof fn lemma_playable(&self)
        requires
            self.wf(),
        ensures
            self.spec_playable() == meta_playable(self@),
            self.spec_winner() == meta_winner(self@),
            self.spec_playable() ==> !(self.choices() =~= Set::<usize>::empty()),
            forall|b: usize| #[trigger] self.choices().contains(b) <==> open_board(self@, b as int),
    {
        if self.open_moves().len() > 0 {
            assert(self.open_moves().contains(self.open_moves()[0]));
            assert(self.choices().contains(self.open_moves()[0]));
        }
        if meta_playable(self@) {
            let b = choose|b: int| 0 <= b < 9 && board_playable(self@[b]);
            assert(self.open_moves().contains(b as usize));
        }
    }
}

} // verus!
