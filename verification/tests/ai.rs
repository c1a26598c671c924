use rand::SeedableRng;
use rand_chacha::ChaCha8Rng;
use std::time::Duration;
use ultimate_tic_tac_toe::ai::playout;
use ultimate_tic_tac_toe::ai::MonteCarloAI;
use ultimate_tic_tac_toe::ai::RandomAI;
use ultimate_tic_tac_toe::ai::AI;
use ultimate_tic_tac_toe::bugs::A;
use ultimate_tic_tac_toe::Game;
use ultimate_tic_tac_toe::PossibleMoves;
use ultimate_tic_tac_toe::Square;
use ultimate_tic_tac_toe::Winner;

#[test]
fn test_ai() {
    let mut rng = ChaCha8Rng::from_rng(rand::thread_rng()).unwrap();

    let g = Game::default();
    let mut ai = MonteCarloAI::new(Duration::new(1, 0));

    ai.choose_move(&mut rng, &g);
}

#[test]
fn search_without_time_plays_one_game() {
    let mut rng = ChaCha8Rng::seed_from_u64(7);
    let g = Game::default();
    let mut ai = MonteCarloAI::new(Duration::new(0, 0));
    let (board, cell) = ai.choose_move(&mut rng, &g);
    assert_eq!(ai.last_results.runs, 1);
    let sum = ai.last_results.totals();
    assert_eq!(sum.totals, 1);
    assert!(sum.wins + sum.loses <= 1);
    // The move can be played.
    let mut next = g.clone();
    assert_eq!(next.play(board, cell), Ok(false));
    // The real game was not touched.
    assert_eq!(g.turns(), 0);
    assert_eq!(g.legal_moves_for_current_player().len(), 81);
}

#[test]
fn default_search_plays_one_game() {
    let mut rng = ChaCha8Rng::seed_from_u64(11);
    let g = Game::default();
    let mut ai = MonteCarloAI::default();
    assert_eq!(ai.last_results.runs, 0);
    let m = ai.choose_move(&mut rng, &g);
    assert_eq!(ai.last_results.runs, 1);
    assert_eq!(m, ai.last_results.best());
}

#[test]
fn search_counts_its_playouts() {
    let mut rng = ChaCha8Rng::seed_from_u64(3);
    let mut g = Game::default();
    g.play(4, 4).unwrap();
    g.play(4, 0).unwrap();
    let mut ai = MonteCarloAI::new(Duration::from_millis(50));
    let m = ai.choose_move(&mut rng, &g);
    let results = &ai.last_results;
    assert!(results.runs >= 1);
    assert_eq!(m, results.best());
    let mut total = 0;
    for board in 0..9 {
        for cell in 0..9 {
            let s = results.board[board][cell];
            assert!(s.wins + s.loses <= s.totals);
            // O was sent to board 0: only its cells begin a playout.
            if board != 0 {
                assert_eq!(s.totals, 0);
            }
            total += s.totals;
        }
    }
    assert_eq!(total, results.runs);
    assert_eq!(results.totals().totals, results.runs);
}

#[test]
fn search_repeats_with_the_same_seed() {
    let mut g = Game::default();
    g.play(1, 1).unwrap();
    let mut first = MonteCarloAI::new(Duration::new(0, 0));
    let mut second = MonteCarloAI::new(Duration::new(0, 0));
    let a = first.choose_move(&mut ChaCha8Rng::seed_from_u64(2024), &g);
    let b = second.choose_move(&mut ChaCha8Rng::seed_from_u64(2024), &g);
    assert_eq!(a, b);
    assert_eq!(first.last_results.runs, second.last_results.runs);
    for board in 0..9 {
        for cell in 0..9 {
            let x = first.last_results.board[board][cell];
            let y = second.last_results.board[board][cell];
            assert_eq!((x.wins, x.loses, x.totals), (y.wins, y.loses, y.totals));
        }
    }
}

#[test]
fn random_player_repeats_with_the_same_seed() {
    let mut first = ChaCha8Rng::seed_from_u64(99);
    let mut second = ChaCha8Rng::seed_from_u64(99);
    let mut g = Game::default();
    let mut ai = RandomAI::default();
    let mut twin = RandomAI::default();
    while g.playable() {
        let a = ai.choose_move(&mut first, &g);
        let b = twin.choose_move(&mut second, &g);
        assert_eq!(a, b);
        g.play(a.0, a.1).unwrap();
    }
}

#[test]
fn random_player_plays_legal_moves_to_the_end() {
    for seed in 0..20 {
        let mut rng = ChaCha8Rng::seed_from_u64(seed);
        let mut g = Game::default();
        let mut ai = RandomAI::default();
        let mut moves = 0;
        while g.playable() {
            let (board, cell) = ai.choose_move(&mut rng, &g);
            assert!(g.legal_moves_for_current_player().contains(&(board, cell)));
            if let Some(target) = g.current_board() {
                assert_eq!(board, target);
            }
            let mover = g.current_player();
            let over = g.play(board, cell).unwrap();
            assert_eq!(g.square(board, cell), Ok(mover));
            assert_eq!(over, !g.playable());
            moves += 1;
            assert!(moves <= 81);
        }
        assert_eq!(g.turns() + 1, moves);
    }
}

#[test]
fn choose_move_offers_what_is_open() {
    let mut rng = ChaCha8Rng::seed_from_u64(5);
    let mut g = Game::default();
    for _ in 0..20 {
        let board = g.choose_move(&mut rng).unwrap();
        assert!(board < 9);
    }
    g.play(2, 6).unwrap();
    for _ in 0..20 {
        assert_eq!(g.choose_move(&mut rng), Some(6));
    }
    g.play(6, 6).unwrap();
    g.play(6, 2).unwrap();
    let board = &g[6];
    for _ in 0..50 {
        let cell = board.choose_move(&mut rng).unwrap();
        assert!(cell != 6 && cell != 2 && cell < 9);
    }
}

#[test]
fn finished_board_offers_no_choice() {
    let mut rng = ChaCha8Rng::seed_from_u64(1);
    let mut g = Game::default();
    for (board, cell) in [(4, 0), (0, 4), (4, 4), (4, 5), (5, 7), (7, 4), (4, 8)] {
        g.play(board, cell).unwrap();
    }
    let won = g.board(4).unwrap();
    assert_eq!(won.winner(), Square::O);
    assert_eq!(won.choose_move(&mut rng), None);
}

#[test]
fn playout_finishes_the_game() {
    for seed in 0..20 {
        let mut rng = ChaCha8Rng::seed_from_u64(seed);
        let mut g = Game::default();
        g.play(4, 4).unwrap();
        let winner = playout(&mut g, &mut rng);
        assert!(!g.playable());
        assert_eq!(winner, g.winner());
        assert_eq!(g.legal_moves_for_current_player(), Vec::<(usize, usize)>::new());
        // The opening move is still there.
        assert_eq!(g.square(4, 4), Ok(Square::O));
        // Playing out a finished game changes nothing.
        let turns = g.turns();
        assert_eq!(playout(&mut g, &mut rng), winner);
        assert_eq!(g.turns(), turns);
    }
}

#[test]
fn handle_has_no_state() {
    let mut a = A::new();
    a.something();
    assert_eq!(format!("{:?}", a), format!("{:?}", A::new()));
}
