//! A game between two players: the boards, whose turn it is, and where.

use core::ops::Index;
use rand_chacha::ChaCha8Rng;
use vstd::prelude::*;
use crate::board::Board;
use crate::error::MyError;
use crate::megaboard::MegaBoard;
use crate::laws::{lemma_initial_position_ok, lemma_step_ok};
use crate::rules::{
    board_playable, initial_position, legal_move, lists_legal_moves, meta_playable, meta_winner,
    move_before, moves_ascending, open_board, play_outcome, play_step, position_ok, Position,
};
use crate::square::Square;
use crate::{PossibleMoves, Winner};

verus! {

/// The state of one game.
#[derive(Debug)]
pub struct Game {
    board: MegaBoard,
    /// The player whose turn it is.
    current_player: Square,
    /// The board the player must play in; `None` leaves the choice open.
    current_board: Option<usize>,
    /// The number of turns handed over so far.
    turns: usize,
}

impl View for Game {
    type V = Position;

    open spec fn view(&self) -> Position {
        Position {
            boards: self.spec_mega()@,
            player: self.spec_current_player(),
            target: self.spec_current_board(),
            turns: self.spec_turns() as nat,
        }
    }
}

impl Game {
    /// The nine boards with their bookkeeping.
    pub closed spec fn spec_mega(&self) -> MegaBoard {
        self.board
    }

    /// The player whose turn it is.
    pub closed spec fn spec_current_player(&self) -> Square {
        self.current_player
    }

    /// The board the player must play in, if any.
    pub closed spec fn spec_current_board(&self) -> Option<usize> {
        self.current_board
    }

    /// The number of turns handed over so far.
    pub closed spec fn spec_turns(&self) -> usize {
        self.turns
    }

    /// The game is consistent: its boards are, and its position is one that play can be in.
    pub open spec fn wf(&self) -> bool {
        &&& self.spec_mega().wf()
        &&& position_ok(self@)
    }

    /// Play a move on board at pos. Returns true if the game was ended.
    pub fn play(&mut self, board_pos: usize, pos: usize) -> (r: Result<bool, MyError>)
        requires
            old(self).wf(),
        ensures
            final(self).wf(),
            r == play_outcome(old(self)@, board_pos, pos),
            final(self)@ == play_step(old(self)@, board_pos, pos),
            r is Err ==> *final(self) == *old(self),
    {
        if let Some(current_board) = self.current_board {
            if current_board != board_pos {
                return Err(MyError::WrongBoard);
            }
        }
        match self.board.play(board_pos, pos, self.current_player) {
            Err(e) => {
                return Err(e);
            },
            Ok(true) => {
                proof {
                    lemma_step_ok(old(self)@, board_pos, pos);
                }
                return Ok(true);
            },
            Ok(false) => {},
        }
        proof {
            lemma_step_ok(old(self)@, board_pos, pos);
            self.board.boards()[pos as int].lemma_playable();
        }
        self.current_board = if self.board[pos].playable() {
            Some(pos)
        } else {
            None
        };
        self.current_player = self.current_player.other();
        self.turns += 1;
        Ok(false)
    }

    /// The board at `board_pos`.
    pub fn board(&self, board_pos: usize) -> (r: Result<&Board, MyError>)
        ensures
            match r {
                Ok(b) => board_pos < 9 && *b == self.spec_mega().boards()[board_pos as int],
                Err(e) => board_pos >= 9 && e == MyError::InvalidBoard,
            },
    {
        if board_pos >= self.board.len() {
            return Err(MyError::InvalidBoard);
        }
        Ok(&self.board[board_pos])
    }

    /// The mark at cell `square_pos` of board `board_pos`.
    pub fn square(&self, board_pos: usize, square_pos: usize) -> (r: Result<Square, MyError>)
        ensures
            r == if board_pos >= 9 {
                Err::<Square, MyError>(MyError::InvalidBoard)
            } else if square_pos >= 9 {
                Err::<Square, MyError>(MyError::InvalidSquare)
            } else {
                Ok::<Square, MyError>(self@.boards[board_pos as int][square_pos as int])
            },
    {
        if board_pos >= self.board.len() {
            return Err(MyError::InvalidBoard);
        }
        self.board[board_pos].square(square_pos)
    }

    /// Returns the player who's turn it is.
    pub fn current_player(&self) -> (player: Square)
        ensures
            player == self@.player,
    {
        self.current_player
    }

    /// Returns the board to play in. If None is returned it means any board.
    pub fn current_board(&self) -> (target: Option<usize>)
        ensures
            target == self@.target,
    {
        self.current_board
    }

    /// The number of turns handed over so far.
    pub fn turns(&self) -> (n: usize)
        ensures
            n == self@.turns,
    {
        self.turns
    }

    /// Every move the player to move may make, by board and then by cell.
    pub fn legal_moves_for_current_player(&self) -> (moves: Vec<(usize, usize)>)
        requires
            self.wf(),
        ensures
            lists_legal_moves(moves@, self@),
    {
        let mut moves: Vec<(usize, usize)> = Vec::new();
        proof {
            self.board.lemma_playable();
        }
        if !self.board.playable() {
            return moves;
        }
        let mut b: usize = 0;
        while b < 9
            invariant
                b <= 9,
                self.wf(),
                meta_playable(self@.boards),
                moves_ascending(moves@),
                forall|m: (usize, usize)| #[trigger]
                    moves@.contains(m) <==> m.0 < b && legal_move(self@, m.0 as int, m.1 as int),
            decreases 9 - b,
        {
            let here = match self.current_board {
                Some(target) => target == b,
                None => true,
            };
            proof {
                self.board.boards()[b as int].lemma_playable();
            }
            if here && self.board[b].playable() {
                let mut c: usize = 0;
                while c < 9
                    invariant
                        c <= 9,
                        b < 9,
                        self.wf(),
                        meta_playable(self@.boards),
                        open_board(self@.boards, b as int),
                        self@.target is Some ==> self@.target->0 == b,
                        moves_ascending(moves@),
                        forall|m: (usize, usize)| #[trigger]
                            moves@.contains(m) <==> (m.0 < b || (m.0 == b && m.1 < c)) && legal_move(
                                self@,
                                m.0 as int,
                                m.1 as int,
                            ),
                    decreases 9 - c,
                {
                    let mark = self.board[b].square(c);
                    if let Ok(Square::Empty) = mark {
                        let ghost before = moves@;
                        moves.push((b, c));
                        proof {
                            lemma_push_move(before, (b, c));
                        }
                    }
                    c += 1;
                }
            }
            b += 1;
        }
        moves
    }
}

impl Default for Game {
    /// The game before the first move.
    fn default() -> (g: Self)
        ensures
            g.wf(),
            g@ == initial_position(),
    {
        let g = Game {
            board: MegaBoard::default(),
            current_player: Square::O,
            current_board: None,
            turns: 0,
        };
        proof {
            lemma_initial_position_ok();
        }
        g
    }
}

impl vstd::std_specs::core::IndexSpecImpl<usize> for Game {
    /// A board is named by its place in row-major order.
    open spec fn index_req(&self, index: &usize) -> bool {
        *index < 9
    }
}

impl Index<usize> for Game {
    type Output = Board;

    /// The board at `pos`.
    fn index(&self, pos: usize) -> (b: &Board)
        ensures
            *b == self.spec_mega().boards()[pos as int],
    {
        &self.board[pos]
    }
}

impl Clone for Game {
    /// An independent copy of the game.
    fn clone(&self) -> (g: Self)
        ensures
            g@ == self@,
            self.wf() ==> g.wf(),
    {
        Game {
            board: self.board.clone(),
            current_player: self.current_player,
            current_board: self.current_board,
            turns: self.turns,
        }
    }
}

impl Winner for Game {
    open spec fn spec_winner(&self) -> Square {
        self.spec_mega().spec_winner()
    }

    /// The winner of the game, or `Empty` while it goes on and after a draw.
    fn winner(&self) -> (w: Square)
        ensures
            self.wf() ==> w == meta_winner(self@.boards),
    {
        self.board.winner()
    }
}

impl PossibleMoves for Game {
    /// The board the player was sent to, or else the open boards.
    open spec fn choices(&self) -> Set<usize> {
        match self.spec_current_board() {
            Some(b) => set![b],
            None => self.spec_mega().choices(),
        }
    }

    open spec fn spec_playable(&self) -> bool {
        self.spec_mega().spec_playable()
    }

    /// Whether the game goes on.
    fn playable(&self) -> (b: bool)
        ensures
            self.wf() ==> b == meta_playable(self@.boards),
    {
        self.board.playable()
    }

    /// The board the player was sent to, or else one of the open boards
    /// drawn at random; `None` when the choice is free and no board is open.
    fn choose_move(&self, rng: &mut ChaCha8Rng) -> (r: Option<usize>)
        ensures
            self@.target is Some ==> r == self@.target,
            self.wf() && self@.target is None ==> match r {
                Some(b) => open_board(self@.boards, b as int),
                None => !meta_playable(self@.boards),
            },
    {
        match self.current_board {
            Some(board) => Some(board),
            None => self.board.choose_move(rng),
        }
    }
}

impl Game {
    /// In a consistent game the bookkeeping says what the rules say, and
    /// while the game goes on there is an open board to choose.
    pub proof fn lemma_playable(&self)
        requires
            self.wf(),
        ensures
            self.spec_playable() == meta_playable(self@.boards),
            self.spec_winner() == meta_winner(self@.boards),
            self.spec_playable() ==> !(self.choices() =~= Set::<usize>::empty()),
            self.spec_playable() ==> forall|b: usize| #[trigger]
                self.choices().contains(b) ==> open_board(self@.boards, b as int) && (self@.target is Some
                    ==> self@.target->0 == b),
    {
        self.spec_mega().lemma_playable();
        if self.spec_playable() {
            match self@.target {
                Some(t) => {
                    assert(self.choices().contains(t));
                },
                None => {
                    let b = choose|b: int| 0 <= b < 9 && board_playable(self@.boards[b]);
                    assert(open_board(self@.boards, b));
                    assert(self.choices().contains(b as usize));
                },
            }
        }
    }
}

/// Appending a move that comes after every move of an ascending list keeps
/// the list ascending, and adds that move and nothing else.
pub proof fn lemma_push_move(before: Seq<(usize, usize)>, m: (usize, usize))
    requires
        moves_ascending(before),
        forall|x: (usize, usize)| #[trigger] before.contains(x) ==> move_before(x, m),
    ensures
        moves_ascending(before.push(m)),
        forall|x: (usize, usize)| #[trigger] before.push(m).contains(x) <==> before.contains(x) || x == m,
{
    let after = before.push(m);
    assert forall|j: int, k: int| 0 <= j < k < after.len() implies move_before(after[j], after[k]) by {
        if k == before.len() {
            assert(before.contains(before[j]));
        }
    }
    assert forall|x: (usize, usize)| #[trigger] after.contains(x) <==> before.contains(x) || x == m by {
        if after.contains(x) {
            let j = choose|j: int| 0 <= j < after.len() && after[j] == x;
            if j < before.len() {
                assert(before[j] == x);
            }
        }
        if before.contains(x) {
            let j = choose|j: int| 0 <= j < before.len() && before[j] == x;
            assert(after[j] == x);
        }
        if x == m {
            assert(after[before.len() as int] == x);
        }
    }
}

} // verus!
