use ultimate_tic_tac_toe::error::MyError;
use ultimate_tic_tac_toe::Game;
use ultimate_tic_tac_toe::PossibleMoves;
use ultimate_tic_tac_toe::Square;
use ultimate_tic_tac_toe::Winner;

#[test]
fn default() {
    let g = &mut Game::default();
    assert_eq!(g.winner(), Square::Empty);
    assert!(g.playable());
    assert_eq!(g.current_board(), None);
}

#[test]
fn wrong_board() {
    let g = &mut Game::default();

    // First move anywhere
    g.play(0, 1).unwrap();

    // Second move should be on board 1.
    assert_eq!(g.current_board(), Some(1));
    assert_eq!(g.play(0, 0), Err(MyError::WrongBoard));
}

#[test]
fn win_with_jump_to_already_won() {
    // Let's say X has won the top left board. If a later move ends in a
    // top left square, the next play should be anywhere else.
    let g = &mut Game::default();

    g.play(0, 0).unwrap(); // O
    g.play(0, 5).unwrap();
    g.play(5, 0).unwrap(); // O
    g.play(0, 2).unwrap();
    g.play(2, 0).unwrap(); // O
    g.play(0, 3).unwrap();
    g.play(3, 0).unwrap(); // O
    g.play(0, 4).unwrap(); // X wins 0 now jumps to 4
    g.play(4, 8).unwrap(); // O
    g.play(8, 7).unwrap();
    g.play(7, 8).unwrap(); // O
    g.play(8, 2).unwrap();
    g.play(2, 8).unwrap(); // O
    g.play(8, 4).unwrap();
    g.play(4, 4).unwrap(); // O
    g.play(4, 0).unwrap(); // X jumps to 0

    assert_eq!(g.current_board(), None);
}

#[test]
fn players_alternate_from_o() {
    let mut g = Game::default();
    assert_eq!(g.current_player(), Square::O);
    assert_eq!(g.turns(), 0);
    let moves = [(4, 4), (4, 0), (0, 8), (8, 1), (1, 1), (1, 0)];
    for (n, (board, cell)) in moves.iter().enumerate() {
        let mover = if n % 2 == 0 { Square::O } else { Square::X };
        assert_eq!(g.current_player(), mover);
        assert_eq!(g.play(*board, *cell), Ok(false));
        assert_eq!(g.square(*board, *cell), Ok(mover));
        assert_eq!(g.turns(), n + 1);
    }
    assert_eq!(g.current_player(), Square::O);
}

#[test]
fn occupied_cell_is_refused_and_nothing_changes() {
    let mut g = Game::default();
    g.play(0, 0).unwrap(); // O, sends X to board 0
    assert_eq!(g.play(0, 0), Err(MyError::AlreadyPlayed));
    assert_eq!(g.square(0, 0), Ok(Square::O));
    assert_eq!(g.current_player(), Square::X);
    assert_eq!(g.current_board(), Some(0));
    assert_eq!(g.turns(), 1);
}

#[test]
fn refused_moves_change_nothing() {
    let mut g = Game::default();
    g.play(3, 4).unwrap();
    for (board, cell, why) in [
        (3, 0, MyError::WrongBoard),
        (9, 0, MyError::WrongBoard),
        (4, 9, MyError::InvalidSquare),
    ] {
        assert_eq!(g.play(board, cell), Err(why));
        assert_eq!(g.current_player(), Square::X);
        assert_eq!(g.current_board(), Some(4));
        assert_eq!(g.turns(), 1);
        assert_eq!(g.legal_moves_for_current_player().len(), 9);
    }
    let mut fresh = Game::default();
    assert_eq!(fresh.play(9, 0), Err(MyError::InvalidBoard));
    assert_eq!(fresh.play(9, 9), Err(MyError::InvalidBoard));
    assert_eq!(fresh.play(0, 9), Err(MyError::InvalidSquare));
    assert_eq!(fresh.turns(), 0);
    assert_eq!(fresh.current_player(), Square::O);
}

#[test]
fn send_to_follows_the_cell() {
    let mut g = Game::default();
    g.play(2, 7).unwrap();
    assert_eq!(g.current_board(), Some(7));
    g.play(7, 7).unwrap();
    assert_eq!(g.current_board(), Some(7));
    g.play(7, 3).unwrap();
    assert_eq!(g.current_board(), Some(3));
}

/// O takes cells 0, 4 and 8 of board 4; X answers wherever it is sent.
fn o_has_won_board_four() -> Game {
    let mut g = Game::default();
    assert_eq!(g.play(4, 0), Ok(false)); // O, sends X to 0
    assert_eq!(g.play(0, 4), Ok(false)); // X, sends O to 4
    assert_eq!(g.play(4, 4), Ok(false)); // O, sends X to 4
    assert_eq!(g.play(4, 5), Ok(false)); // X, sends O to 5
    assert_eq!(g.play(5, 7), Ok(false)); // O, sends X to 7
    assert_eq!(g.play(7, 4), Ok(false)); // X, sends O to 4
    assert_eq!(g.play(4, 8), Ok(false)); // O completes the diagonal
    g
}

#[test]
fn three_marks_of_o_win_board_four() {
    let g = o_has_won_board_four();
    let board = g.board(4).unwrap();
    assert_eq!(board.winner(), Square::O);
    assert!(board.has_winner());
    assert!(!board.playable());
    assert_eq!(g.winner(), Square::Empty);
    assert!(g.playable());
    // Cell 8 sent X to board 8, which is open.
    assert_eq!(g.current_board(), Some(8));
    assert_eq!(g.current_player(), Square::X);
    assert_eq!(g.turns(), 7);
    assert_eq!(
        g.legal_moves_for_current_player(),
        vec![(8, 0), (8, 1), (8, 2), (8, 3), (8, 4), (8, 5), (8, 6), (8, 7), (8, 8)]
    );
}

#[test]
fn decided_board_sets_the_player_free() {
    let mut g = o_has_won_board_four();
    // Cell 4 would send O to board 4, which is decided: O may choose.
    assert_eq!(g.play(8, 4), Ok(false));
    assert_eq!(g.current_board(), None);
    assert_eq!(g.current_player(), Square::O);
    assert_eq!(g.turns(), 8);
    let moves = g.legal_moves_for_current_player();
    assert_eq!(moves.len(), 68);
    assert!(moves.iter().all(|m| m.0 != 4));
    // Board 4 takes no further move.
    assert_eq!(g.play(4, 1), Err(MyError::AlreadyWon));
    assert_eq!(g.play(4, 0), Err(MyError::AlreadyPlayed));
    assert_eq!(g.play(4, 5), Err(MyError::AlreadyPlayed));
    assert_eq!(g.play(4, 9), Err(MyError::InvalidSquare));
    assert_eq!(g.turns(), 8);
    assert_eq!(g.current_player(), Square::O);
    assert_eq!(g.current_board(), None);
    assert_eq!(g.play(0, 0), Ok(false));
    assert_eq!(g.current_board(), Some(0));
}

#[test]
fn drawn_board_is_closed() {
    let moves = [
        (5, 6),
        (6, 6),
        (6, 3),
        (3, 8),
        (8, 5),
        (5, 3),
        (3, 4),
        (4, 5),
        (5, 5),
        (5, 2),
        (2, 2),
        (2, 4),
        (4, 4),
        (4, 2),
        (2, 5),
        (5, 7),
        (7, 8),
        (8, 7),
        (7, 3),
        (3, 7),
        (7, 5),
        (5, 4),
        (4, 6),
        (6, 8),
        (8, 6),
        (6, 5),
        (5, 1),
        (1, 5),
        (5, 8),
        (8, 4),
        (4, 3),
        (3, 5),
        (5, 0),
    ];
    let mut g = Game::default();
    for (board, cell) in moves {
        assert_eq!(g.play(board, cell), Ok(false));
    }
    // Board 5 is full: O O X / X X O / O X O.
    let marks = [
        Square::O,
        Square::O,
        Square::X,
        Square::X,
        Square::X,
        Square::O,
        Square::O,
        Square::X,
        Square::O,
    ];
    for (cell, mark) in marks.iter().enumerate() {
        assert_eq!(g.square(5, cell), Ok(*mark));
    }
    let board = g.board(5).unwrap();
    assert_eq!(board.winner(), Square::Empty);
    assert!(!board.has_winner());
    assert!(!board.playable());
    assert_eq!(board.legal_moves(), Vec::<usize>::new());
    assert_eq!(g.current_board(), Some(0));
    assert_eq!(g.current_player(), Square::X);
    // Cell 5 would send O to the full board: O may choose instead.
    assert_eq!(g.play(0, 5), Ok(false));
    assert_eq!(g.current_board(), None);
    assert_eq!(g.turns(), 34);
    let mut boards: Vec<usize> = g.legal_moves_for_current_player().iter().map(|m| m.0).collect();
    boards.dedup();
    assert_eq!(boards, vec![0, 1, 2, 3, 4, 6, 7, 8]);
    assert_eq!(g.play(5, 0), Err(MyError::AlreadyPlayed));
    assert_eq!(g.play(5, 9), Err(MyError::InvalidSquare));
    assert_eq!(g.play(9, 0), Err(MyError::InvalidBoard));
}

#[test]
fn board_and_square_check_their_indices() {
    let mut g = Game::default();
    g.play(6, 2).unwrap();
    assert_eq!(g.square(6, 2), Ok(Square::O));
    assert_eq!(g.square(2, 6), Ok(Square::Empty));
    assert_eq!(g.square(9, 0), Err(MyError::InvalidBoard));
    assert_eq!(g.square(9, 9), Err(MyError::InvalidBoard));
    assert_eq!(g.square(0, 9), Err(MyError::InvalidSquare));
    assert_eq!(g.square(8, 9), Err(MyError::InvalidSquare));
    assert!(g.board(9).is_err());
    assert_eq!(g.board(9).err(), Some(MyError::InvalidBoard));
    assert_eq!(g.board(6).unwrap().square(2), Ok(Square::O));
}

#[test]
fn legal_moves_at_the_start_are_all_cells() {
    let g = Game::default();
    let moves = g.legal_moves_for_current_player();
    assert_eq!(moves.len(), 81);
    let mut expected = Vec::new();
    for board in 0..9 {
        for cell in 0..9 {
            expected.push((board, cell));
        }
    }
    assert_eq!(moves, expected);
}

#[test]
fn legal_moves_follow_the_send_to_rule() {
    let mut g = Game::default();
    g.play(4, 4).unwrap();
    g.play(4, 0).unwrap();
    assert_eq!(g.current_board(), Some(0));
    assert_eq!(
        g.legal_moves_for_current_player(),
        vec![(0, 0), (0, 1), (0, 2), (0, 3), (0, 4), (0, 5), (0, 6), (0, 7), (0, 8)]
    );
    g.play(0, 4).unwrap();
    assert_eq!(
        g.legal_moves_for_current_player(),
        vec![(4, 1), (4, 2), (4, 3), (4, 5), (4, 6), (4, 7), (4, 8)]
    );
}

#[test]
fn finished_game_takes_no_move() {
    let moves = [
        (3, 1),
        (1, 0),
        (0, 2),
        (2, 4),
        (4, 7),
        (7, 5),
        (5, 4),
        (4, 3),
        (3, 2),
        (2, 8),
        (8, 8),
        (8, 1),
        (1, 1),
        (1, 3),
        (3, 0),
        (0, 3),
        (4, 4),
        (4, 5),
        (5, 5),
        (5, 0),
        (0, 0),
        (0, 8),
        (8, 6),
        (6, 4),
        (4, 1),
        (1, 4),
        (1, 7),
        (7, 3),
    ];
    let mut g = Game::default();
    for (n, (board, cell)) in moves.iter().enumerate() {
        assert_eq!(g.turns(), n);
        assert_eq!(g.play(*board, *cell), Ok(false));
    }
    assert_eq!(g.board(3).unwrap().winner(), Square::O);
    assert_eq!(g.board(4).unwrap().winner(), Square::O);
    assert_eq!(g.board(5).unwrap().winner(), Square::Empty);
    assert_eq!(g.current_player(), Square::O);
    assert_eq!(g.current_board(), None);
    assert_eq!(g.turns(), 28);
    // O takes board 5, and with it the middle row of boards.
    assert_eq!(g.play(5, 3), Ok(true));
    assert_eq!(g.board(5).unwrap().winner(), Square::O);
    assert_eq!(g.winner(), Square::O);
    assert!(g.has_winner());
    assert!(!g.playable());
    // The last move hands nothing over.
    assert_eq!(g.turns(), 28);
    assert_eq!(g.current_player(), Square::O);
    assert_eq!(g.current_board(), None);
    assert_eq!(g.legal_moves_for_current_player(), Vec::<(usize, usize)>::new());
    // Whatever is tried now is refused, and nothing is written.
    assert_eq!(g.play(0, 1), Err(MyError::AlreadyWon));
    assert_eq!(g.play(6, 0), Err(MyError::AlreadyWon));
    assert_eq!(g.play(5, 1), Err(MyError::AlreadyWon));
    assert_eq!(g.play(5, 3), Err(MyError::AlreadyPlayed));
    assert_eq!(g.play(0, 9), Err(MyError::InvalidSquare));
    assert_eq!(g.play(9, 0), Err(MyError::InvalidBoard));
    assert_eq!(g.square(0, 1), Ok(Square::Empty));
    assert_eq!(g.square(6, 0), Ok(Square::Empty));
    assert_eq!(g.turns(), 28);
}

#[test]
fn drawn_game_takes_no_move() {
    let moves = [
        (1, 2),
        (2, 5),
        (5, 3),
        (3, 0),
        (0, 4),
        (4, 2),
        (2, 8),
        (8, 0),
        (0, 7),
        (7, 6),
        (6, 8),
        (8, 8),
        (8, 7),
        (7, 0),
        (0, 3),
        (3, 4),
        (4, 1),
        (1, 6),
        (6, 7),
        (7, 8),
        (8, 1),
        (1, 0),
        (0, 8),
        (8, 4),
        (4, 8),
        (7, 7),
        (4, 7),
        (3, 8),
        (1, 1),
        (1, 3),
        (6, 6),
        (2, 2),
        (2, 3),
        (0, 5),
        (5, 8),
        (2, 1),
        (5, 0),
        (0, 1),
        (5, 6),
        (4, 3),
        (4, 4),
        (0, 0),
        (0, 6),
    ];
    let mut g = Game::default();
    for (board, cell) in moves {
        assert_eq!(g.play(board, cell), Ok(false));
    }
    assert!(g.playable());
    assert_eq!(g.current_player(), Square::X);
    // X takes the last open board; no line of boards belongs to one player.
    assert_eq!(g.play(2, 0), Ok(true));
    let owners = [
        Square::O,
        Square::X,
        Square::X,
        Square::X,
        Square::O,
        Square::O,
        Square::O,
        Square::X,
        Square::X,
    ];
    for (board, owner) in owners.iter().enumerate() {
        assert_eq!(g.board(board).unwrap().winner(), *owner);
    }
    assert_eq!(g.winner(), Square::Empty);
    assert!(!g.has_winner());
    assert!(!g.playable());
    assert_eq!(g.turns(), 43);
    assert_eq!(g.current_player(), Square::X);
    assert_eq!(g.legal_moves_for_current_player(), Vec::<(usize, usize)>::new());
    for board in 0..9 {
        for cell in 0..9 {
            assert!(g.play(board, cell).is_err());
        }
    }
    assert_eq!(g.turns(), 43);
}

#[test]
fn game_clone_is_independent() {
    let mut g = Game::default();
    g.play(4, 4).unwrap();
    let mut copy = g.clone();
    assert_eq!(copy.current_board(), Some(4));
    assert_eq!(copy.current_player(), Square::X);
    assert_eq!(copy.turns(), 1);
    copy.play(4, 0).unwrap();
    assert_eq!(g.square(4, 0), Ok(Square::Empty));
    assert_eq!(g.turns(), 1);
    assert_eq!(g.current_board(), Some(4));
    assert_eq!(copy.square(4, 4), Ok(Square::O));
}

#[test]
fn game_index_gives_the_board() {
    let mut g = Game::default();
    g.play(3, 3).unwrap();
    assert_eq!(g[3].square(3), Ok(Square::O));
    assert_eq!(g[3][3], Square::O);
    assert_eq!(g[4][3], Square::Empty);
    assert!(g[3].playable());
}
