//! The rules of the game as mathematics.
//!
//! A board is a sequence of nine squares in row-major order; the whole game is
//! a sequence of nine such boards, addressed the same way. Everything the
//! executable types promise is stated over these sequences.

use vstd::prelude::*;
use crate::error::MyError;
use crate::square::Square;

verus! {

/// The owner of the line through `a`, `b` and `c`: the mark that fills all
/// three places, or `Empty` when there is no such mark.
pub open spec fn line_owner(owners: Seq<Square>, a: int, b: int, c: int) -> Square {
    if owners[a] != Square::Empty && owners[a] == owners[b] && owners[a] == owners[c] {
        owners[a]
    } else {
        Square::Empty
    }
}

/// The owner of the first complete line, looking at the three rows, then the
/// three columns, then the two diagonals; `Empty` when no line is complete.
pub open spec fn line_winner(owners: Seq<Square>) -> Square {
    if line_owner(owners, 0, 1, 2) != Square::Empty {
        line_owner(owners, 0, 1, 2)
    } else if line_owner(owners, 3, 4, 5) != Square::Empty {
        line_owner(owners, 3, 4, 5)
    } else if line_owner(owners, 6, 7, 8) != Square::Empty {
        line_owner(owners, 6, 7, 8)
    } else if line_owner(owners, 0, 3, 6) != Square::Empty {
        line_owner(owners, 0, 3, 6)
    } else if line_owner(owners, 1, 4, 7) != Square::Empty {
        line_owner(owners, 1, 4, 7)
    } else if line_owner(owners, 2, 5, 8) != Square::Empty {
        line_owner(owners, 2, 5, 8)
    } else if line_owner(owners, 0, 4, 8) != Square::Empty {
        line_owner(owners, 0, 4, 8)
    } else {
        line_owner(owners, 2, 4, 6)
    }
}

/// A board with nothing on it.
pub open spec fn empty_cells() -> Seq<Square> {
    Seq::new(9, |i: int| Square::Empty)
}

/// Cell `i` may still be played: it is on the board, empty, and the board has no winner.
pub open spec fn open_cell(cells: Seq<Square>, i: int) -> bool {
    &&& 0 <= i < 9
    &&& cells[i] == Square::Empty
    &&& line_winner(cells) == Square::Empty
}

/// Some cell of the board carries no mark.
pub open spec fn has_empty(cells: Seq<Square>) -> bool {
    ||| cells[0] == Square::Empty
    ||| cells[1] == Square::Empty
    ||| cells[2] == Square::Empty
    ||| cells[3] == Square::Empty
    ||| cells[4] == Square::Empty
    ||| cells[5] == Square::Empty
    ||| cells[6] == Square::Empty
    ||| cells[7] == Square::Empty
    ||| cells[8] == Square::Empty
}

/// The board still takes moves: nobody has won it and a cell is left.
pub open spec fn board_playable(cells: Seq<Square>) -> bool {
    line_winner(cells) == Square::Empty && has_empty(cells)
}

/// One if the square carries a mark, zero if it is empty.
pub open spec fn mark(s: Square) -> nat {
    if s != Square::Empty {
        1
    } else {
        0
    }
}

/// How many cells of the board carry a mark.
#[verifier::opaque]
pub open spec fn marks(cells: Seq<Square>) -> nat {
    mark(cells[0]) + mark(cells[1]) + mark(cells[2]) + mark(cells[3]) + mark(cells[4]) + mark(
        cells[5],
    ) + mark(cells[6]) + mark(cells[7]) + mark(cells[8])
}

/// Why a move at cell `pos` of a board is refused, if it is: a cell off the
/// board first, then a cell that carries a mark, then a board that is won.
pub open spec fn board_refusal(cells: Seq<Square>, pos: usize) -> Option<MyError> {
    if pos >= 9 {
        Some(MyError::InvalidSquare)
    } else if cells[pos as int] != Square::Empty {
        Some(MyError::AlreadyPlayed)
    } else if line_winner(cells) != Square::Empty {
        Some(MyError::AlreadyWon)
    } else {
        None
    }
}

/// What a move at cell `pos` of a board answers: the reason for refusing it,
/// or whether it finished the board (by a win or by filling the last cell).
pub open spec fn board_outcome(cells: Seq<Square>, pos: usize, player: Square) -> Result<
    bool,
    MyError,
> {
    match board_refusal(cells, pos) {
        Some(e) => Err(e),
        None => Ok(!board_playable(cells.update(pos as int, player))),
    }
}

/// The whole game with nothing on it.
pub open spec fn empty_boards() -> Seq<Seq<Square>> {
    Seq::new(9, |b: int| empty_cells())
}

/// The winner of each of the nine boards, in board order.
pub open spec fn sub_winners(boards: Seq<Seq<Square>>) -> Seq<Square> {
    Seq::new(9, |b: int| line_winner(boards[b]))
}

/// The winner of the whole game: the owner of the first complete line of won boards.
pub open spec fn meta_winner(boards: Seq<Seq<Square>>) -> Square {
    line_winner(sub_winners(boards))
}

/// Some board still takes moves.
pub open spec fn has_playable_board(boards: Seq<Seq<Square>>) -> bool {
    ||| board_playable(boards[0])
    ||| board_playable(boards[1])
    ||| board_playable(boards[2])
    ||| board_playable(boards[3])
    ||| board_playable(boards[4])
    ||| board_playable(boards[5])
    ||| board_playable(boards[6])
    ||| board_playable(boards[7])
    ||| board_playable(boards[8])
}

/// Board `b` may still be played in: it takes moves and the game has no winner.
pub open spec fn open_board(boards: Seq<Seq<Square>>, b: int) -> bool {
    &&& 0 <= b < 9
    &&& board_playable(boards[b])
    &&& meta_winner(boards) == Square::Empty
}

/// The game goes on: nobody has won it and some board still takes moves.
pub open spec fn meta_playable(boards: Seq<Seq<Square>>) -> bool {
    meta_winner(boards) == Square::Empty && has_playable_board(boards)
}

/// The game after `player` has marked cell `pos` of board `mega_pos`.
pub open spec fn place(boards: Seq<Seq<Square>>, mega_pos: int, pos: int, player: Square) -> Seq<
    Seq<Square>,
> {
    boards.update(mega_pos, boards[mega_pos].update(pos, player))
}

/// How many cells of the whole game carry a mark.
#[verifier::opaque]
pub open spec fn total_marks(boards: Seq<Seq<Square>>) -> nat {
    marks(boards[0]) + marks(boards[1]) + marks(boards[2]) + marks(boards[3]) + marks(boards[4])
        + marks(boards[5]) + marks(boards[6]) + marks(boards[7]) + marks(boards[8])
}

/// Why a move at cell `pos` of board `mega_pos` is refused, if it is: a
/// board off the grid first, then whatever the board itself refuses, then a
/// game that already has a winner.
pub open spec fn meta_refusal(boards: Seq<Seq<Square>>, mega_pos: usize, pos: usize) -> Option<
    MyError,
> {
    if mega_pos >= 9 {
        Some(MyError::InvalidBoard)
    } else if board_refusal(boards[mega_pos as int], pos) is Some {
        board_refusal(boards[mega_pos as int], pos)
    } else if meta_winner(boards) != Square::Empty {
        Some(MyError::AlreadyWon)
    } else {
        None
    }
}

/// What a move at cell `pos` of board `mega_pos` answers: the reason for
/// refusing it, or whether it ended the game.
pub open spec fn meta_outcome(
    boards: Seq<Seq<Square>>,
    mega_pos: usize,
    pos: usize,
    player: Square,
) -> Result<bool, MyError> {
    match meta_refusal(boards, mega_pos, pos) {
        Some(e) => Err(e),
        None => Ok(!meta_playable(place(boards, mega_pos as int, pos as int, player))),
    }
}

/// A game in progress, as mathematics: the cells of the nine boards, the
/// player to move, the board that player is sent to (or `None` for a free
/// choice), and the number of moves that have handed the turn over.
pub ghost struct Position {
    pub boards: Seq<Seq<Square>>,
    pub player: Square,
    pub target: Option<usize>,
    pub turns: nat,
}

/// The position before the first move: nothing on the boards, `O` to move anywhere.
pub open spec fn initial_position() -> Position {
    Position { boards: empty_boards(), player: Square::O, target: None, turns: 0 }
}

/// `(mega_pos, pos)` is a move that the player to move may make.
pub open spec fn legal_move(p: Position, mega_pos: int, pos: int) -> bool {
    &&& open_board(p.boards, mega_pos)
    &&& open_cell(p.boards[mega_pos], pos)
    &&& (p.target is Some ==> p.target->0 == mega_pos)
}

/// What the move `(mega_pos, pos)` answers in position `p`. A move outside
/// the board that the player was sent to is refused first; everything else
/// is `meta_outcome` for the player to move.
pub open spec fn play_outcome(p: Position, mega_pos: usize, pos: usize) -> Result<bool, MyError> {
    if p.target is Some && p.target->0 != mega_pos {
        Err(MyError::WrongBoard)
    } else {
        meta_outcome(p.boards, mega_pos, pos, p.player)
    }
}

/// The board that a move at cell `pos` sends the next player to: the board
/// with that index while it takes moves, else a free choice.
pub open spec fn send_to(boards: Seq<Seq<Square>>, pos: usize) -> Option<usize> {
    if pos < 9 && board_playable(boards[pos as int]) {
        Some(pos)
    } else {
        None
    }
}

/// The position after the move `(mega_pos, pos)` has been tried in `p`. A
/// refused move changes nothing. A move that ends the game marks the cell and
/// leaves the rest as it was. Any other move marks the cell, sends the next
/// player to the board named by `pos`, hands the turn over and counts it.
pub open spec fn play_step(p: Position, mega_pos: usize, pos: usize) -> Position {
    match play_outcome(p, mega_pos, pos) {
        Err(_) => p,
        Ok(over) => {
            let boards = place(p.boards, mega_pos as int, pos as int, p.player);
            if over {
                Position { boards, ..p }
            } else {
                Position {
                    boards,
                    player: p.player.spec_other(),
                    target: send_to(boards, pos),
                    turns: p.turns + 1,
                }
            }
        },
    }
}

/// A position that play can be in: one of the two players is to move, it is
/// `O` exactly on even turns, the turns count the marks that did not end the
/// game, and while the game goes on a player is only ever sent to an open board.
pub open spec fn position_ok(p: Position) -> bool {
    &&& p.boards.len() == 9
    &&& forall|b: int| 0 <= b < 9 ==> (#[trigger] p.boards[b]).len() == 9
    &&& p.player == if p.turns % 2 == 0 {
        Square::O
    } else {
        Square::X
    }
    &&& total_marks(p.boards) == if meta_playable(p.boards) {
        p.turns
    } else {
        p.turns + 1
    }
    &&& (meta_playable(p.boards) && p.target is Some ==> open_board(p.boards, p.target->0 as int))
}

/// The position after the moves have been tried one after the other.
pub open spec fn play_all(p: Position, moves: Seq<(usize, usize)>) -> Position
    decreases moves.len(),
{
    if moves.len() == 0 {
        p
    } else {
        play_step(play_all(p, moves.drop_last()), moves.last().0, moves.last().1)
    }
}

/// Each of the moves stands when its turn comes: none of them is refused.
pub open spec fn all_stand(p: Position, moves: Seq<(usize, usize)>) -> bool
    decreases moves.len(),
{
    moves.len() == 0 || {
        &&& all_stand(p, moves.drop_last())
        &&& play_outcome(play_all(p, moves.drop_last()), moves.last().0, moves.last().1) is Ok
    }
}

/// Move `a` comes before move `b`: by board first, then by cell.
pub open spec fn move_before(a: (usize, usize), b: (usize, usize)) -> bool {
    a.0 < b.0 || (a.0 == b.0 && a.1 < b.1)
}

/// The moves are listed in ascending order, so none of them twice.
pub open spec fn moves_ascending(moves: Seq<(usize, usize)>) -> bool {
    forall|j: int, k: int| 0 <= j < k < moves.len() ==> move_before(moves[j], moves[k])
}

/// `moves` lists the legal moves of `p`, all of them and nothing else.
pub open spec fn lists_legal_moves(moves: Seq<(usize, usize)>, p: Position) -> bool {
    &&& moves_ascending(moves)
    &&& forall|m: (usize, usize)| #[trigger] moves.contains(m) <==> legal_move(p, m.0 as int, m.1 as int)
}

} // verus!
