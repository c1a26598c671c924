use ultimate_tic_tac_toe::monte_carlo::MegaBoardStats;
use ultimate_tic_tac_toe::monte_carlo::Stats;
use ultimate_tic_tac_toe::Square;

fn stats(wins: usize, loses: usize, totals: usize) -> Stats {
    Stats { wins, loses, totals }
}

#[test]
fn stats_start_at_zero() {
    let s = Stats::default();
    assert_eq!((s.wins, s.loses, s.totals), (0, 0, 0));
    let all = MegaBoardStats::default();
    assert_eq!(all.runs, 0);
    for board in 0..9 {
        for cell in 0..9 {
            let s = all.board[board][cell];
            assert_eq!((s.wins, s.loses, s.totals), (0, 0, 0));
        }
    }
    let sum = all.totals();
    assert_eq!((sum.wins, sum.loses, sum.totals), (0, 0, 0));
}

#[test]
fn record_counts_wins_losses_and_draws() {
    let mut all = MegaBoardStats::default();
    all.record(3, 5, Square::O, Square::O); // a win
    all.record(3, 5, Square::X, Square::O); // a loss
    all.record(3, 5, Square::Empty, Square::O); // a draw
    all.record(3, 5, Square::O, Square::O); // a win
    all.record(0, 0, Square::X, Square::O); // a loss elsewhere
    let s = all.board[3][5];
    assert_eq!((s.wins, s.loses, s.totals), (2, 1, 4));
    let s = all.board[0][0];
    assert_eq!((s.wins, s.loses, s.totals), (0, 1, 1));
    let s = all.board[5][3];
    assert_eq!((s.wins, s.loses, s.totals), (0, 0, 0));
    assert_eq!(all.runs, 5);
}

#[test]
fn record_sees_the_game_from_the_mover() {
    let mut all = MegaBoardStats::default();
    all.record(8, 8, Square::O, Square::X);
    all.record(8, 8, Square::X, Square::X);
    all.record(8, 8, Square::X, Square::X);
    let s = all.board[8][8];
    assert_eq!((s.wins, s.loses, s.totals), (2, 1, 3));
}

#[test]
fn counters_never_exceed_their_totals() {
    let mut all = MegaBoardStats::default();
    let winners = [Square::O, Square::X, Square::Empty];
    let mut n = 0;
    for round in 0..5 {
        for board in 0..9 {
            for cell in 0..9 {
                if (board + cell + round) % 3 != 0 {
                    all.record(board, cell, winners[(board * cell + round) % 3], Square::O);
                    n += 1;
                }
            }
        }
    }
    assert_eq!(all.runs, n);
    let mut total = 0;
    for board in 0..9 {
        for cell in 0..9 {
            let s = all.board[board][cell];
            assert!(s.wins + s.loses <= s.totals);
            total += s.totals;
        }
    }
    assert_eq!(total, n);
}

#[test]
fn totals_add_up_every_counter() {
    let mut all = MegaBoardStats::default();
    all.record(0, 0, Square::O, Square::O);
    all.record(0, 0, Square::O, Square::O);
    all.record(4, 4, Square::X, Square::O);
    all.record(8, 8, Square::Empty, Square::O);
    all.record(8, 0, Square::X, Square::O);
    all.record(0, 8, Square::O, Square::O);
    let sum = all.totals();
    assert_eq!((sum.wins, sum.loses, sum.totals), (3, 2, 6));
    assert_eq!(sum.totals, all.runs);
}

#[test]
fn best_of_nothing_is_the_first_move() {
    let all = MegaBoardStats::default();
    assert_eq!(all.best(), (0, 0));
}

#[test]
fn best_is_the_highest_ratio() {
    let mut all = MegaBoardStats::default();
    all.board[2][3] = stats(1, 0, 2); // 1/2
    all.board[5][1] = stats(2, 0, 3); // 2/3
    all.board[7][7] = stats(3, 0, 5); // 3/5
    all.board[0][4] = stats(0, 4, 4); // 0
    assert_eq!(all.best(), (5, 1));
}

#[test]
fn best_takes_the_first_of_equal_ratios() {
    let mut all = MegaBoardStats::default();
    all.board[6][2] = stats(2, 0, 6); // 1/3
    all.board[4][8] = stats(1, 0, 3); // 1/3
    all.board[4][3] = stats(3, 1, 9); // 1/3
    all.board[8][0] = stats(1, 2, 4); // 1/4
    assert_eq!(all.best(), (4, 3));
    all.board[4][3] = stats(3, 1, 10); // now just below 1/3
    assert_eq!(all.best(), (4, 8));
}

#[test]
fn best_without_a_win_is_the_first_move() {
    let mut all = MegaBoardStats::default();
    all.board[3][3] = stats(0, 1, 1);
    all.board[6][0] = stats(0, 0, 7);
    assert_eq!(all.best(), (0, 0));
}

#[test]
fn best_compares_ratios_not_wins() {
    let mut all = MegaBoardStats::default();
    all.board[1][1] = stats(90, 0, 100);
    all.board[1][2] = stats(10, 0, 11);
    assert_eq!(all.best(), (1, 2));
    all.board[0][7] = stats(1, 0, 1);
    assert_eq!(all.best(), (0, 7));
}

#[test]
fn best_compares_large_counters_exactly() {
    let mut all = MegaBoardStats::default();
    let big = usize::MAX;
    all.board[2][2] = stats(big - 2, 0, big - 1);
    all.board[3][3] = stats(big - 1, 0, big);
    assert_eq!(all.best(), (3, 3));
    all.board[1][8] = stats(big, 0, big);
    assert_eq!(all.best(), (1, 8));
    // (big - 1) / big against (big - 2) / (big - 1): the first is larger.
    assert!(all.board[2][2].below(&all.board[3][3]));
    assert!(!all.board[3][3].below(&all.board[2][2]));
}

#[test]
fn below_compares_win_ratios() {
    assert!(stats(1, 0, 3).below(&stats(1, 0, 2)));
    assert!(!stats(1, 0, 2).below(&stats(1, 0, 3)));
    assert!(!stats(1, 0, 2).below(&stats(2, 1, 4)));
    assert!(!stats(2, 1, 4).below(&stats(1, 0, 2)));
    // Nothing played counts as a ratio of zero.
    assert!(stats(0, 0, 0).below(&stats(1, 0, 9)));
    assert!(!stats(0, 0, 0).below(&stats(0, 5, 5)));
    assert!(!stats(0, 5, 5).below(&stats(0, 0, 0)));
    assert!(!stats(7, 0, 0).below(&stats(0, 0, 0)));
}
