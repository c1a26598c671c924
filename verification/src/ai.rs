//! Players that choose their moves by chance, or by playing the game out many times.

use core::time::Duration;
use instant::Instant;
use rand_chacha::ChaCha8Rng;
use vstd::prelude::*;
use crate::game::Game;
use crate::laws::{
    law_legal_moves_stand, lemma_has_legal_move, lemma_play_all_after_first, lemma_play_all_push,
    lemma_step_ok, lemma_turns_bound,
};
use crate::monte_carlo::{began_with, MegaBoardStats, Playout};
use crate::random::pick;
use crate::rules::{
    all_stand, legal_move, meta_playable, meta_winner, play_all, total_marks, Position,
};
use crate::square::Square;
use crate::{PossibleMoves, Winner};

verus! {

/// A player that can be asked for its next move.
pub trait AI {
    /// Chooses a move for the player whose turn it is in `g`, as `(board, cell)`.
    fn choose_move(&mut self, rng: &mut ChaCha8Rng, g: &Game) -> (m: (usize, usize))
        requires
            g.wf(),
            meta_playable(g@.boards),
        ensures
            m.0 < 9,
            m.1 < 9,
    ;
}

/// Picks the next move completely at random.
#[derive(Debug)]
pub struct RandomAI {}

impl Default for RandomAI {
    fn default() -> (ai: Self) {
        RandomAI {  }
    }
}

impl AI for RandomAI {
    /// Draws a board (the one the player was sent to, if any), then one of its open cells.
    fn choose_move(&mut self, rng: &mut ChaCha8Rng, g: &Game) -> (m: (usize, usize))
        ensures
            legal_move(g@, m.0 as int, m.1 as int),
    {
        proof {
            g.lemma_playable();
        }
        let board_pos = g.choose_move(rng).unwrap();
        proof {
            g.spec_mega().boards()[board_pos as int].lemma_playable();
        }
        let square_pos = g[board_pos].choose_move(rng).unwrap();
        (board_pos, square_pos)
    }
}

/// Plays random legal moves until the game is over, and returns the winner.
pub fn playout(g: &mut Game, rng: &mut ChaCha8Rng) -> (winner: Square)
    requires
        old(g).wf(),
    ensures
        final(g).wf(),
        !meta_playable(final(g)@.boards),
        winner == meta_winner(final(g)@.boards),
        exists|moves: Seq<(usize, usize)>| played_from(old(g)@, moves, final(g)@),
{
    let ghost mut played = Seq::<(usize, usize)>::empty();
    proof {
        g.lemma_playable();
        lemma_turns_bound(g@);
    }
    while g.playable()
        invariant
            g.wf(),
            g.spec_playable() == meta_playable(g@.boards),
            g.spec_winner() == meta_winner(g@.boards),
            total_marks(g@.boards) <= 81,
            played_from(old(g)@, played, g@),
        decreases 81 - total_marks(g@.boards),
    {
        let moves = g.legal_moves_for_current_player();
        proof {
            lemma_has_legal_move(g@);
        }
        let (board_pos, square_pos) = pick(&moves, rng).unwrap();
        let ghost before = g@;
        proof {
            lemma_step_ok(before, board_pos, square_pos);
            law_legal_moves_stand(before, board_pos, square_pos);
            lemma_play_all_push(old(g)@, played, (board_pos, square_pos));
        }
        let _ = g.play(board_pos, square_pos);
        proof {
            played = played.push((board_pos, square_pos));
            g.lemma_playable();
            lemma_turns_bound(g@);
        }
    }
    g.winner()
}

/// The moves all stand from `p`, one after the other, and lead to `q`.
pub open spec fn played_from(p: Position, moves: Seq<(usize, usize)>, q: Position) -> bool {
    all_stand(p, moves) && play_all(p, moves) == q
}

/// `playout` is a playout from `p`: a game played from `p` to its end, by
/// moves that all stand, that began with the playout's move and ended with
/// the playout's winner.
pub open spec fn is_playout(p: Position, playout: Playout) -> bool {
    exists|moves: Seq<(usize, usize)>|
        {
            &&& moves.len() > 0
            &&& moves[0] == (playout.board, playout.cell)
            &&& #[trigger] all_stand(p, moves)
            &&& !meta_playable(play_all(p, moves).boards)
            &&& playout.winner == meta_winner(play_all(p, moves).boards)
        }
}

/// Picks the next move by playing the game out at random, again and again,
/// and keeping count of how each first move fared.
#[derive(Debug)]
pub struct MonteCarloAI {
    /// How long a search may run, in nanoseconds.
    time_limit: u128,
    /// The counters of the last search.
    pub last_results: MegaBoardStats,
}

impl Default for MonteCarloAI {
    /// A player that stops searching after its first playout.
    fn default() -> (ai: Self)
        ensures
            ai.results().wf(),
            ai.results().runs == 0,
    {
        MonteCarloAI { time_limit: 0, last_results: MegaBoardStats::default() }
    }
}

impl MonteCarloAI {
    /// A player that searches for `time_limit` before it answers.
    pub fn new(time_limit: Duration) -> (ai: Self)
        ensures
            ai.results().wf(),
            ai.results().runs == 0,
    {
        MonteCarloAI { time_limit: time_limit.as_nanos(), last_results: MegaBoardStats::default() }
    }

    /// The counters of the last search, as contracts speak of them.
    pub closed spec fn results(&self) -> MegaBoardStats {
        self.last_results
    }

    /// The counters are those of at least one playout from `p`, each begun
    /// with a legal move, played to the end of the game, and counted for the
    /// player to move in `p`.
    pub open spec fn searched(&self, p: Position) -> bool {
        &&& self.results().wf()
        &&& self.results().runs >= 1
        &&& exists|history: Seq<Playout>|
            {
                &&& #[trigger] self.results().records(history, p.player)
                &&& forall|i: int|
                    0 <= i < history.len() ==> is_playout(p, #[trigger] history[i]) && legal_move(
                        p,
                        history[i].board as int,
                        history[i].cell as int,
                    )
            }
    }
}

impl AI for MonteCarloAI {
    /// Plays the game out from `game` until the time is up, at least once,
    /// and returns the first move with the best share of wins.
    fn choose_move(&mut self, rng: &mut ChaCha8Rng, game: &Game) -> (m: (usize, usize))
        ensures
            final(self).searched(game@),
            final(self).results().is_best(m),
            final(self).results().at(m.0 as int, m.1 as int).totals > 0 ==> legal_move(
                game@,
                m.0 as int,
                m.1 as int,
            ),
    {
        let mut stats = MegaBoardStats::default();
        let start = Instant::now();
        let me = game.current_player();
        let ghost mut history = Seq::<Playout>::empty();
        let mut time_is_up = false;
        proof {
            game.lemma_playable();
        }
        while !time_is_up && stats.runs < usize::MAX
            invariant
                game.wf(),
                meta_playable(game@.boards),
                me == game@.player,
                stats.wf(),
                stats.records(history, me),
                time_is_up ==> stats.runs >= 1,
                forall|i: int|
                    0 <= i < history.len() ==> is_playout(game@, #[trigger] history[i]) && legal_move(
                        game@,
                        history[i].board as int,
                        history[i].cell as int,
                    ),
            decreases usize::MAX - stats.runs,
        {
            let mut g = game.clone();
            let moves = g.legal_moves_for_current_player();
            proof {
                lemma_has_legal_move(game@);
            }
            let (board_pos, square_pos) = pick(&moves, rng).unwrap();
            proof {
                law_legal_moves_stand(game@, board_pos, square_pos);
            }
            let _ = g.play(board_pos, square_pos);
            let ghost after_first = g@;
            let winner = playout(&mut g, rng);
            stats.record(board_pos, square_pos, winner, me);
            proof {
                let first = (board_pos, square_pos);
                let rest = choose|rest: Seq<(usize, usize)>| played_from(after_first, rest, g@);
                lemma_play_all_after_first(game@, first, rest);
                let whole = seq![first] + rest;
                assert(whole[0] == first);
                let done = Playout { board: board_pos, cell: square_pos, winner };
                assert(is_playout(game@, done));
                let ghost earlier = history;
                history = history.push(done);
                assert forall|i: int| 0 <= i < history.len() implies is_playout(
                    game@,
                    #[trigger] history[i],
                ) && legal_move(game@, history[i].board as int, history[i].cell as int) by {
                    if i < earlier.len() {
                        assert(history[i] == earlier[i]);
                    }
                }
            }
            time_is_up = start.elapsed().as_nanos() >= self.time_limit;
        }
        let best = stats.best();
        self.last_results = stats;
        proof {
            assert(self.results().records(history, game@.player));
            if self.results().at(best.0 as int, best.1 as int).totals > 0 {
                law_counted_moves_are_legal(*self, game@, best.0, best.1);
            }
        }
        best
    }
}

/// A move that the last search counted a playout for is a legal move of the
/// position that was searched.
pub proof fn law_counted_moves_are_legal(ai: MonteCarloAI, p: Position, b: usize, c: usize)
    requires
        ai.searched(p),
        b < 9,
        c < 9,
        ai.results().at(b as int, c as int).totals > 0,
    ensures
        legal_move(p, b as int, c as int),
{
    let history = choose|history: Seq<Playout>|
        {
            &&& #[trigger] ai.results().records(history, p.player)
            &&& forall|i: int|
                0 <= i < history.len() ==> is_playout(p, #[trigger] history[i]) && legal_move(
                    p,
                    history[i].board as int,
                    history[i].cell as int,
                )
        };
    let began = history.filter(began_with(b, c));
    assert(ai.results().at(b as int, c as int).totals == began.len());
    let first = began[0];
    history.lemma_filter_pred(began_with(b, c), 0);
    assert(began.contains(first));
    history.lemma_filter_contains_rev(began_with(b, c), first);
    let i = choose|i: int| 0 <= i < history.len() && history[i] == first;
    assert(legal_move(p, history[i].board as int, history[i].cell as int));
}

} // verus!
