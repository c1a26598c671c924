//! What follows from the rules: facts about positions and moves that hold
//! whatever the players do.

use vstd::prelude::*;
use crate::error::MyError;
use crate::rules::{
    all_stand, board_outcome, board_playable, initial_position, legal_move, line_winner,
    lists_legal_moves, marks, meta_outcome, meta_playable, meta_winner, open_board, open_cell,
    place, play_all, play_outcome, play_step, position_ok, total_marks, Position,
};
use crate::square::Square;

verus! {

/// While the game goes on, the player to move has a legal move, so a
/// complete list of the legal moves is not empty.
pub proof fn lemma_has_legal_move(p: Position)
    requires
        position_ok(p),
        meta_playable(p.boards),
    ensures
        exists|b: int, c: int| legal_move(p, b, c),
        forall|moves: Seq<(usize, usize)>| #[trigger] lists_legal_moves(moves, p) ==> moves.len() > 0,
{
    let b = if p.target is Some {
        p.target->0 as int
    } else {
        choose|b: int| 0 <= b < 9 && board_playable(p.boards[b])
    };
    assert(open_board(p.boards, b));
    let c = choose|c: int| 0 <= c < 9 && p.boards[b][c] == Square::Empty;
    assert(legal_move(p, b, c));
    assert forall|moves: Seq<(usize, usize)>| #[trigger] lists_legal_moves(moves, p) implies moves.len()
        > 0 by {
        assert(moves.contains((b as usize, c as usize)));
    }
}

/// The position before the first move is one that play can be in.
pub proof fn lemma_initial_position_ok()
    ensures
        position_ok(initial_position()),
{
    reveal(total_marks);
    reveal(marks);
    let p = initial_position();
    assert(board_playable(p.boards[0]));
}

/// Marking an empty cell of a board adds exactly one mark to it.
pub proof fn lemma_board_marks_grow(cells: Seq<Square>, pos: usize, player: Square)
    requires
        cells.len() == 9,
        pos < 9,
        cells[pos as int] == Square::Empty,
        player != Square::Empty,
    ensures
        marks(cells.update(pos as int, player)) == marks(cells) + 1,
{
    reveal(marks);
}

/// A board holds at most nine marks.
pub proof fn lemma_board_marks_bound(cells: Seq<Square>)
    ensures
        marks(cells) <= 9,
{
    reveal(marks);
}

/// A move that stands adds exactly one mark, and there was room for it.
pub proof fn lemma_marks_grow(boards: Seq<Seq<Square>>, mega_pos: usize, pos: usize, player: Square)
    requires
        boards.len() == 9,
        forall|b: int| 0 <= b < 9 ==> (#[trigger] boards[b]).len() == 9,
        mega_pos < 9,
        pos < 9,
        boards[mega_pos as int][pos as int] == Square::Empty,
        player != Square::Empty,
    ensures
        total_marks(place(boards, mega_pos as int, pos as int, player)) == total_marks(boards) + 1,
        total_marks(place(boards, mega_pos as int, pos as int, player)) <= 81,
{
    reveal(total_marks);
    let after = place(boards, mega_pos as int, pos as int, player);
    lemma_board_marks_grow(boards[mega_pos as int], pos, player);
    assert(after[mega_pos as int] == boards[mega_pos as int].update(pos as int, player));
    assert forall|b: int| 0 <= b < 9 && b != mega_pos implies #[trigger] after[b] == boards[b] by {}
    lemma_board_marks_bound(after[0]);
    lemma_board_marks_bound(after[1]);
    lemma_board_marks_bound(after[2]);
    lemma_board_marks_bound(after[3]);
    lemma_board_marks_bound(after[4]);
    lemma_board_marks_bound(after[5]);
    lemma_board_marks_bound(after[6]);
    lemma_board_marks_bound(after[7]);
    lemma_board_marks_bound(after[8]);
}

/// Every move, refused or not, leads from a position that play can be in to another.
pub proof fn lemma_step_ok(p: Position, mega_pos: usize, pos: usize)
    requires
        position_ok(p),
    ensures
        position_ok(play_step(p, mega_pos, pos)),
        play_outcome(p, mega_pos, pos) is Ok ==> legal_move(p, mega_pos as int, pos as int),
        play_outcome(p, mega_pos, pos) is Ok ==> total_marks(play_step(p, mega_pos, pos).boards)
            == total_marks(p.boards) + 1,
        play_step(p, mega_pos, pos).turns <= 81,
{
    let q = play_step(p, mega_pos, pos);
    match play_outcome(p, mega_pos, pos) {
        Err(_) => {
            lemma_turns_bound(p);
        },
        Ok(over) => {
            assert(mega_pos < 9 && pos < 9);
            assert(open_cell(p.boards[mega_pos as int], pos as int));
            assert(board_playable(p.boards[mega_pos as int]));
            assert(meta_playable(p.boards));
            lemma_marks_grow(p.boards, mega_pos, pos, p.player);
            assert(q.boards == place(p.boards, mega_pos as int, pos as int, p.player));
            assert(over == !meta_playable(q.boards));
            assert forall|b: int| 0 <= b < 9 implies (#[trigger] q.boards[b]).len() == 9 by {}
        },
    }
}

/// No position that play can be in has counted more than eighty-one turns.
pub proof fn lemma_turns_bound(p: Position)
    requires
        position_ok(p),
    ensures
        p.turns <= 81,
        total_marks(p.boards) <= 81,
{
    reveal(total_marks);
    lemma_board_marks_bound(p.boards[0]);
    lemma_board_marks_bound(p.boards[1]);
    lemma_board_marks_bound(p.boards[2]);
    lemma_board_marks_bound(p.boards[3]);
    lemma_board_marks_bound(p.boards[4]);
    lemma_board_marks_bound(p.boards[5]);
    lemma_board_marks_bound(p.boards[6]);
    lemma_board_marks_bound(p.boards[7]);
    lemma_board_marks_bound(p.boards[8]);
}


/// A move stands exactly when it is legal.
pub proof fn law_legal_moves_stand(p: Position, mega_pos: usize, pos: usize)
    requires
        p.player != Square::Empty,
    ensures
        play_outcome(p, mega_pos, pos) is Ok <==> legal_move(p, mega_pos as int, pos as int),
{
    if play_outcome(p, mega_pos, pos) is Ok {
        assert(open_cell(p.boards[mega_pos as int], pos as int));
    }
}

/// Whatever moves are tried, in whatever order, a position that play can be
/// in stays one.
pub proof fn law_positions_stay_ok(p: Position, moves: Seq<(usize, usize)>)
    requires
        position_ok(p),
    ensures
        position_ok(play_all(p, moves)),
    decreases moves.len(),
{
    if moves.len() > 0 {
        law_positions_stay_ok(p, moves.drop_last());
        lemma_step_ok(play_all(p, moves.drop_last()), moves.last().0, moves.last().1);
    }
}

/// Moves that all stand put one mark each on the boards.
pub proof fn lemma_marks_count_moves(p: Position, moves: Seq<(usize, usize)>)
    requires
        position_ok(p),
        all_stand(p, moves),
    ensures
        total_marks(play_all(p, moves).boards) == total_marks(p.boards) + moves.len(),
    decreases moves.len(),
{
    if moves.len() > 0 {
        lemma_marks_count_moves(p, moves.drop_last());
        law_positions_stay_ok(p, moves.drop_last());
        lemma_step_ok(play_all(p, moves.drop_last()), moves.last().0, moves.last().1);
    }
}

/// The players alternate, and `O` begins. After any number of moves from
/// the start, none of them refused, the player to move in a game that still
/// goes on is `O` if that number is even and `X` if it is odd, and the turn
/// counter is that number. In a game that the last move ended, the player
/// and the counter are still those of that last move.
pub proof fn law_players_alternate(moves: Seq<(usize, usize)>)
    requires
        all_stand(initial_position(), moves),
    ensures
        ({
            let q = play_all(initial_position(), moves);
            let n = if meta_playable(q.boards) {
                moves.len() as int
            } else {
                moves.len() - 1
            };
            &&& q.turns == n
            &&& q.player == if n % 2 == 0 {
                Square::O
            } else {
                Square::X
            }
        }),
{
    let p = initial_position();
    lemma_initial_position_ok();
    law_positions_stay_ok(p, moves);
    lemma_marks_count_moves(p, moves);
    assert(total_marks(p.boards) == 0) by {
        assert(meta_playable(p.boards));
    }
}

/// A move that does not end the game hands the turn to the other player.
pub proof fn law_turn_passes(p: Position, mega_pos: usize, pos: usize)
    requires
        position_ok(p),
        play_outcome(p, mega_pos, pos) == Ok::<bool, MyError>(false),
    ensures
        play_step(p, mega_pos, pos).player != p.player,
        play_step(p, mega_pos, pos).player == p.player.spec_other(),
        play_step(p, mega_pos, pos).player != Square::Empty,
        play_step(p, mega_pos, pos).turns == p.turns + 1,
{
}

/// A mark, once made, stays: no move changes a cell that is not empty.
pub proof fn law_marks_stay(p: Position, mega_pos: usize, pos: usize, b: int, c: int)
    requires
        p.boards.len() == 9,
        forall|i: int| 0 <= i < 9 ==> (#[trigger] p.boards[i]).len() == 9,
        0 <= b < 9,
        0 <= c < 9,
        p.boards[b][c] != Square::Empty,
    ensures
        play_step(p, mega_pos, pos).boards[b][c] == p.boards[b][c],
{
}

/// A mark, once made, stays through any number of moves.
pub proof fn law_marks_stay_for_good(p: Position, moves: Seq<(usize, usize)>, b: int, c: int)
    requires
        position_ok(p),
        0 <= b < 9,
        0 <= c < 9,
        p.boards[b][c] != Square::Empty,
    ensures
        play_all(p, moves).boards[b][c] == p.boards[b][c],
    decreases moves.len(),
{
    if moves.len() > 0 {
        let before = play_all(p, moves.drop_last());
        law_marks_stay_for_good(p, moves.drop_last(), b, c);
        law_positions_stay_ok(p, moves.drop_last());
        law_marks_stay(before, moves.last().0, moves.last().1, b, c);
    }
}

/// A move onto a cell that carries a mark is refused as already played, and
/// changes nothing, unless the player was sent to another board: then the
/// move is refused for the board.
pub proof fn law_occupied_cell_is_refused(p: Position, mega_pos: usize, pos: usize)
    requires
        mega_pos < 9,
        pos < 9,
        p.boards[mega_pos as int][pos as int] != Square::Empty,
    ensures
        play_outcome(p, mega_pos, pos) == if p.target is Some && p.target->0 != mega_pos {
            Err::<bool, MyError>(MyError::WrongBoard)
        } else {
            Err::<bool, MyError>(MyError::AlreadyPlayed)
        },
        play_step(p, mega_pos, pos) == p,
{
}

/// Where a move sends the next player: after a move at cell `pos` that does
/// not end the game, the next player must play in board `pos` if that board
/// is still open, and may choose freely if it is not.
pub proof fn law_send_to(p: Position, mega_pos: usize, pos: usize)
    requires
        position_ok(p),
        play_outcome(p, mega_pos, pos) == Ok::<bool, MyError>(false),
    ensures
        pos < 9,
        ({
            let q = play_step(p, mega_pos, pos);
            &&& q.target == Some(pos) <==> open_board(q.boards, pos as int)
            &&& q.target is None <==> !open_board(q.boards, pos as int)
        }),
{
    let q = play_step(p, mega_pos, pos);
    assert(q.boards == place(p.boards, mega_pos as int, pos as int, p.player));
    assert(meta_playable(q.boards));
}

/// A board with a winner takes no move: it is not playable, every move into
/// it is refused, and a move onto one of its empty cells is refused because
/// the board is won.
pub proof fn law_won_board_refuses(cells: Seq<Square>, pos: usize, player: Square)
    requires
        line_winner(cells) != Square::Empty,
    ensures
        !board_playable(cells),
        board_outcome(cells, pos, player) is Err,
        pos < 9 && cells[pos as int] == Square::Empty ==> board_outcome(cells, pos, player) == Err::<
            bool,
            MyError,
        >(MyError::AlreadyWon),
{
}

/// A board that is decided, won or full, takes no move: every move into it
/// is refused.
pub proof fn law_decided_board_refuses(cells: Seq<Square>, pos: usize, player: Square)
    requires
        !board_playable(cells),
    ensures
        board_outcome(cells, pos, player) is Err,
{
}

/// A board that is decided stays as it is, whatever moves are tried: its
/// cells and its winner never change, and it never opens again.
pub proof fn law_decided_board_stays(p: Position, moves: Seq<(usize, usize)>, b: int)
    requires
        p.boards.len() == 9,
        0 <= b < 9,
        !board_playable(p.boards[b]),
    ensures
        play_all(p, moves).boards[b] == p.boards[b],
        !open_board(play_all(p, moves).boards, b),
        play_all(p, moves).boards.len() == 9,
    decreases moves.len(),
{
    if moves.len() > 0 {
        law_decided_board_stays(p, moves.drop_last(), b);
        let before = play_all(p, moves.drop_last());
        law_decided_board_refuses(before.boards[b], moves.last().1, before.player);
    }
}

/// A game with a winner takes no move: it is not playable, no board of it is
/// open, every move is refused, and a move onto an empty cell is refused
/// because a board or the game is won.
pub proof fn law_won_game_refuses(boards: Seq<Seq<Square>>, mega_pos: usize, pos: usize, player: Square)
    requires
        meta_winner(boards) != Square::Empty,
    ensures
        !meta_playable(boards),
        forall|b: int| !open_board(boards, b),
        meta_outcome(boards, mega_pos, pos, player) is Err,
        mega_pos < 9 && pos < 9 && boards[mega_pos as int][pos as int] == Square::Empty ==> meta_outcome(
            boards,
            mega_pos,
            pos,
            player,
        ) == Err::<bool, MyError>(MyError::AlreadyWon),
{
}

/// A game that is over, won or drawn, stays as it is: every move is refused
/// and changes nothing.
pub proof fn law_finished_game_refuses(p: Position, mega_pos: usize, pos: usize)
    requires
        !meta_playable(p.boards),
    ensures
        play_outcome(p, mega_pos, pos) is Err,
        play_step(p, mega_pos, pos) == p,
        forall|b: int, c: int| !legal_move(p, b, c),
{
    if play_outcome(p, mega_pos, pos) is Ok {
        assert(open_cell(p.boards[mega_pos as int], pos as int));
        assert(board_playable(p.boards[mega_pos as int]));
    }
}

/// A move that ends the game is the last one: in a list of moves that all
/// stand, only the last can have ended the game.
pub proof fn law_game_ends_once(p: Position, moves: Seq<(usize, usize)>)
    requires
        position_ok(p),
        all_stand(p, moves),
        moves.len() > 0,
    ensures
        meta_playable(play_all(p, moves.drop_last()).boards),
{
    let before = play_all(p, moves.drop_last());
    if !meta_playable(before.boards) {
        law_finished_game_refuses(before, moves.last().0, moves.last().1);
    }
}

/// Moves that stand after a first move that stands, stand together with
/// it, and lead to the same position.
pub proof fn lemma_play_all_after_first(p: Position, first: (usize, usize), rest: Seq<(usize, usize)>)
    requires
        play_outcome(p, first.0, first.1) is Ok,
        all_stand(play_step(p, first.0, first.1), rest),
    ensures
        all_stand(p, seq![first] + rest),
        play_all(p, seq![first] + rest) == play_all(play_step(p, first.0, first.1), rest),
    decreases rest.len(),
{
    let all = seq![first] + rest;
    if rest.len() == 0 {
        assert(all.drop_last() =~= Seq::<(usize, usize)>::empty());
        assert(all.last() == first);
        assert(all_stand(p, all.drop_last()));
        assert(play_all(p, all.drop_last()) == p);
        assert(play_all(play_step(p, first.0, first.1), rest) == play_step(p, first.0, first.1));
    } else {
        assert(all_stand(play_step(p, first.0, first.1), rest.drop_last()));
        lemma_play_all_after_first(p, first, rest.drop_last());
        assert(all.drop_last() =~= seq![first] + rest.drop_last());
        assert(all.last() == rest.last());
        assert(all_stand(p, all.drop_last()));
    }
}

/// One more move that stands, after moves that stand, stands with them.
pub proof fn lemma_play_all_push(p: Position, moves: Seq<(usize, usize)>, next: (usize, usize))
    requires
        all_stand(p, moves),
        play_outcome(play_all(p, moves), next.0, next.1) is Ok,
    ensures
        all_stand(p, moves.push(next)),
        play_all(p, moves.push(next)) == play_step(play_all(p, moves), next.0, next.1),
{
    assert(moves.push(next).drop_last() =~= moves);
    assert(moves.push(next).last() == next);
}

} // verus!
