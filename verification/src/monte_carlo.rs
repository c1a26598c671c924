//! Counters that rank first moves by the playouts that began with them.

use vstd::prelude::*;
use crate::rules::move_before;
use crate::square::Square;

verus! {

/// What came of the playouts that began with one move.
#[derive(Debug, Clone, Copy)]
pub struct Stats {
    /// Playouts that the mover won.
    pub wins: usize,
    /// Playouts that the opponent won.
    pub loses: usize,
    /// All playouts, draws included.
    pub totals: usize,
}

/// One counter per first move, addressed by board and cell, and the number of playouts.
#[derive(Debug)]
pub struct MegaBoardStats {
    pub board: [[Stats; 9]; 9],
    pub runs: usize,
}

/// One finished playout: the move it began with and the winner it ended with.
pub ghost struct Playout {
    pub board: usize,
    pub cell: usize,
    pub winner: Square,
}

/// The playouts that began with the move `(b, c)`.
pub open spec fn began_with(b: usize, c: usize) -> spec_fn(Playout) -> bool {
    |p: Playout| p.board == b && p.cell == c
}

/// The playouts that began with the move `(b, c)` and that `me` won.
pub open spec fn won_with(b: usize, c: usize, me: Square) -> spec_fn(Playout) -> bool {
    |p: Playout| p.board == b && p.cell == c && p.winner == me
}

/// The playouts that began with the move `(b, c)` and that the opponent of `me` won.
pub open spec fn lost_with(b: usize, c: usize, me: Square) -> spec_fn(Playout) -> bool {
    |p: Playout| p.board == b && p.cell == c && p.winner != me && p.winner != Square::Empty
}

/// The counter after one more playout that ended with `winner`, seen by `me`.
pub open spec fn counted(s: Stats, winner: Square, me: Square) -> Stats {
    Stats {
        wins: if winner == me {
            (s.wins + 1) as usize
        } else {
            s.wins
        },
        loses: if winner != me && winner != Square::Empty {
            (s.loses + 1) as usize
        } else {
            s.loses
        },
        totals: (s.totals + 1) as usize,
    }
}

/// The numerator of the win ratio: the wins, or zero where nothing was played.
pub open spec fn ratio_num(s: Stats) -> int {
    if s.totals == 0 {
        0
    } else {
        s.wins as int
    }
}

/// The denominator of the win ratio: the playouts, or one where nothing was played.
pub open spec fn ratio_den(s: Stats) -> int {
    if s.totals == 0 {
        1
    } else {
        s.totals as int
    }
}

/// The win ratio of `a` is below that of `b`. The ratio is wins over totals,
/// and zero where nothing was played; the two are compared as fractions.
pub open spec fn ratio_less(a: Stats, b: Stats) -> bool {
    ratio_num(a) * ratio_den(b) < ratio_num(b) * ratio_den(a)
}

/// The sum of the wins, losses and totals of a list of counters.
pub open spec fn sum(cells: Seq<Stats>) -> (int, int, int)
    decreases cells.len(),
{
    if cells.len() == 0 {
        (0, 0, 0)
    } else {
        let rest = sum(cells.drop_last());
        let s = cells.last();
        (rest.0 + s.wins, rest.1 + s.loses, rest.2 + s.totals)
    }
}

impl Default for Stats {
    /// The counter of a move that no playout began with.
    fn default() -> (s: Self)
        ensures
            s == (Stats { wins: 0, loses: 0, totals: 0 }),
    {
        Stats { wins: 0, loses: 0, totals: 0 }
    }
}

impl Stats {
    /// Whether the win ratio of `self` is below that of `other`.
    pub fn below(&self, other: &Stats) -> (r: bool)
        ensures
            r == ratio_less(*self, *other),
    {
        let (an, ad): (u128, u128) = if self.totals == 0 {
            (0, 1)
        } else {
            (self.wins as u128, self.totals as u128)
        };
        let (bn, bd): (u128, u128) = if other.totals == 0 {
            (0, 1)
        } else {
            (other.wins as u128, other.totals as u128)
        };
        assert(an * bd <= 0xffff_ffff_ffff_ffff * 0xffff_ffff_ffff_ffff) by (nonlinear_arith)
            requires
                0 <= an <= 0xffff_ffff_ffff_ffff,
                0 <= bd <= 0xffff_ffff_ffff_ffff,
        ;
        assert(bn * ad <= 0xffff_ffff_ffff_ffff * 0xffff_ffff_ffff_ffff) by (nonlinear_arith)
            requires
                0 <= bn <= 0xffff_ffff_ffff_ffff,
                0 <= ad <= 0xffff_ffff_ffff_ffff,
        ;
        an * bd < bn * ad
    }
}

impl MegaBoardStats {
    /// The counter of the move `(b, c)`.
    pub open spec fn at(&self, b: int, c: int) -> Stats {
        self.board@[b]@[c]
    }

    /// The eighty-one counters, board by board.
    pub open spec fn cells(&self) -> Seq<Stats> {
        Seq::new(81, |k: int| self.at(k / 9, k % 9))
    }

    /// The counters are consistent: no move has more wins and losses than
    /// playouts, and the playouts of all moves add up to the number of runs.
    pub open spec fn wf(&self) -> bool {
        &&& forall|b: int, c: int|
            0 <= b < 9 && 0 <= c < 9 ==> (#[trigger] self.at(b, c)).wins + self.at(b, c).loses
                <= self.at(b, c).totals
        &&& sum(self.cells()).2 == self.runs
    }

    /// The counters are those of the playouts `history`, seen by `me`: there
    /// was one run per playout, and each move counts the playouts that began
    /// with it, those of them that `me` won, and those that the opponent won.
    pub open spec fn records(&self, history: Seq<Playout>, me: Square) -> bool {
        &&& self.runs == history.len()
        &&& forall|i: int|
            0 <= i < history.len() ==> (#[trigger] history[i]).board < 9 && history[i].cell < 9
        &&& forall|b: usize, c: usize|
            b < 9 && c < 9 ==> {
                let s = #[trigger] self.at(b as int, c as int);
                &&& s.totals == history.filter(began_with(b, c)).len()
                &&& s.wins == history.filter(won_with(b, c, me)).len()
                &&& s.loses == history.filter(lost_with(b, c, me)).len()
            }
    }

    /// `m` is the best first move: no move has a higher win ratio, and every
    /// move that comes before `m`, by board and then by cell, has a lower one.
    pub open spec fn is_best(&self, m: (usize, usize)) -> bool {
        &&& m.0 < 9
        &&& m.1 < 9
        &&& forall|b: int, c: int|
            0 <= b < 9 && 0 <= c < 9 ==> !ratio_less(
                self.at(m.0 as int, m.1 as int),
                #[trigger] self.at(b, c),
            )
        &&& forall|b: usize, c: usize|
            b < 9 && c < 9 && move_before((b, c), m) ==> ratio_less(
                #[trigger] self.at(b as int, c as int),
                self.at(m.0 as int, m.1 as int),
            )
    }

    /// The first move with the highest win ratio, going by board and then by cell.
    pub fn best(&self) -> (m: (usize, usize))
        ensures
            self.is_best(m),
    {
        let mut best: (usize, usize) = (0, 0);
        let mut b: usize = 0;
        while b < 9
            invariant
                b <= 9,
                best.0 < 9,
                best.1 < 9,
                b == 0 ==> best == (0usize, 0usize),
                b > 0 ==> best.0 < b,
                forall|x: int, y: int|
                    0 <= x < b && 0 <= y < 9 ==> !ratio_less(
                        self.at(best.0 as int, best.1 as int),
                        #[trigger] self.at(x, y),
                    ),
                forall|x: usize, y: usize|
                    x < 9 && y < 9 && move_before((x, y), best) ==> ratio_less(
                        #[trigger] self.at(x as int, y as int),
                        self.at(best.0 as int, best.1 as int),
                    ),
            decreases 9 - b,
        {
            let mut c: usize = 0;
            while c < 9
                invariant
                    c <= 9,
                    b < 9,
                    best.0 < 9,
                    best.1 < 9,
                    b == 0 && c == 0 ==> best == (0usize, 0usize),
                    b > 0 || c > 0 ==> move_before(best, (b, c)),
                    forall|x: int, y: int|
                        0 <= x < 9 && 0 <= y < 9 && (x < b || (x == b && y < c)) ==> !ratio_less(
                            self.at(best.0 as int, best.1 as int),
                            #[trigger] self.at(x, y),
                        ),
                    forall|x: usize, y: usize|
                        x < 9 && y < 9 && move_before((x, y), best) ==> ratio_less(
                            #[trigger] self.at(x as int, y as int),
                            self.at(best.0 as int, best.1 as int),
                        ),
                decreases 9 - c,
            {
                let ghost old_best = self.at(best.0 as int, best.1 as int);
                if self.board[best.0][best.1].below(&self.board[b][c]) {
                    proof {
                        let here = self.at(b as int, c as int);
                        assert forall|x: int, y: int|
                            0 <= x < 9 && 0 <= y < 9 && (x < b || (x == b && y < c + 1)) implies !ratio_less(
                            here,
                            #[trigger] self.at(x, y),
                        ) by {
                            if x != b || y != c {
                                lemma_ratio_chain(self.at(x, y), old_best, here);
                            }
                        }
                        assert forall|x: usize, y: usize|
                            x < 9 && y < 9 && move_before((x, y), (b, c)) implies ratio_less(
                            #[trigger] self.at(x as int, y as int),
                            here,
                        ) by {
                            lemma_ratio_chain(self.at(x as int, y as int), old_best, here);
                        }
                    }
                    best = (b, c);
                }
                c += 1;
            }
            b += 1;
        }
        best
    }
}

impl MegaBoardStats {
    /// Counts one more playout that began with the move `(board_pos,
    /// square_pos)` and ended with `winner`, seen by the player `me`.
    pub fn record(&mut self, board_pos: usize, square_pos: usize, winner: Square, me: Square)
        requires
            old(self).wf(),
            board_pos < 9,
            square_pos < 9,
            old(self).runs < usize::MAX,
        ensures
            final(self).wf(),
            final(self).runs == old(self).runs + 1,
            final(self).at(board_pos as int, square_pos as int) == counted(
                old(self).at(board_pos as int, square_pos as int),
                winner,
                me,
            ),
            forall|b: int, c: int|
                0 <= b < 9 && 0 <= c < 9 && (b != board_pos || c != square_pos)
                    ==> #[trigger] final(self).at(b, c) == old(self).at(b, c),
            forall|history: Seq<Playout>|
                old(self).records(history, me) ==> #[trigger] final(self).records(
                    history.push(Playout { board: board_pos, cell: square_pos, winner }),
                    me,
                ),
    {
        proof {
            lemma_sum_bounds(self.cells(), board_pos * 9 + square_pos);
            assert(self.cells()[board_pos * 9 + square_pos] == self.at(
                board_pos as int,
                square_pos as int,
            ));
        }
        let mut stat = self.board[board_pos][square_pos];
        if winner == me {
            stat.wins += 1;
        } else if winner != Square::Empty {
            stat.loses += 1;
        }
        stat.totals += 1;
        self.board[board_pos][square_pos] = stat;
        self.runs += 1;
        proof {
            let k = board_pos * 9 + square_pos;
            assert(self.cells() =~= old(self).cells().update(k as int, stat)) by {
                let updated = old(self).cells().update(k as int, stat);
                assert forall|j: int| 0 <= j < 81 implies #[trigger] self.cells()[j] == updated[j] by {
                    if j != k {
                        assert(j / 9 != board_pos || j % 9 != square_pos);
                    }
                }
            }
            lemma_sum_update(old(self).cells(), k as int, stat);
            assert(sum(self.cells()).2 == self.runs);
            let before = old(self).at(board_pos as int, square_pos as int);
            assert(before.wins + before.loses <= before.totals);
            assert(self.at(board_pos as int, square_pos as int) == stat);
            assert forall|b: int, c: int| 0 <= b < 9 && 0 <= c < 9 implies (#[trigger] self.at(b, c)).wins
                + self.at(b, c).loses <= self.at(b, c).totals by {
                if b != board_pos || c != square_pos {
                    assert(self.at(b, c) == old(self).at(b, c));
                }
            }
            assert forall|history: Seq<Playout>| old(self).records(history, me) implies #[trigger] self.records(
                history.push(Playout { board: board_pos, cell: square_pos, winner }),
                me,
            ) by {
                let p = Playout { board: board_pos, cell: square_pos, winner };
                let next = history.push(p);
                assert forall|b: usize, c: usize| b < 9 && c < 9 implies {
                    let s = #[trigger] self.at(b as int, c as int);
                    &&& s.totals == next.filter(began_with(b, c)).len()
                    &&& s.wins == next.filter(won_with(b, c, me)).len()
                    &&& s.loses == next.filter(lost_with(b, c, me)).len()
                } by {
                    let before = old(self).at(b as int, c as int);
                    assert(before.totals == history.filter(began_with(b, c)).len());
                    history.lemma_filter_len_push(began_with(b, c), p);
                    history.lemma_filter_len_push(won_with(b, c, me), p);
                    history.lemma_filter_len_push(lost_with(b, c, me), p);
                }
            }
        }
    }

    /// The sum of all counters: every win, every loss and every playout.
    pub fn totals(&self) -> (all: Stats)
        requires
            self.wf(),
        ensures
            all.wins == sum(self.cells()).0,
            all.loses == sum(self.cells()).1,
            all.totals == sum(self.cells()).2,
            all.totals == self.runs,
            all.wins + all.loses <= all.totals,
    {
        let mut all = Stats { wins: 0, loses: 0, totals: 0 };
        let mut k: usize = 0;
        proof {
            assert(self.cells().take(0) =~= Seq::<Stats>::empty());
            assert(self.cells().take(81) =~= self.cells());
        }
        while k < 81
            invariant
                k <= 81,
                self.wf(),
                all.wins == sum(self.cells().take(k as int)).0,
                all.loses == sum(self.cells().take(k as int)).1,
                all.totals == sum(self.cells().take(k as int)).2,
                all.wins + all.loses <= all.totals,
            decreases 81 - k,
        {
            let s = self.board[k / 9][k % 9];
            proof {
                assert(self.cells().take(k + 1).drop_last() =~= self.cells().take(k as int));
                assert(self.cells().take(k + 1).last() == self.at(k as int / 9, k as int % 9));
                lemma_sum_take(self.cells(), k + 1);
                assert(self.cells().take(81) =~= self.cells());
            }
            all.wins += s.wins;
            all.loses += s.loses;
            all.totals += s.totals;
            k += 1;
        }
        all
    }
}

impl Default for MegaBoardStats {
    /// The counters before the first playout.
    fn default() -> (stats: Self)
        ensures
            stats.wf(),
            stats.runs == 0,
            stats.records(Seq::<Playout>::empty(), Square::O),
            stats.records(Seq::<Playout>::empty(), Square::X),
            forall|b: int, c: int|
                0 <= b < 9 && 0 <= c < 9 ==> #[trigger] stats.at(b, c) == (Stats {
                    wins: 0,
                    loses: 0,
                    totals: 0,
                }),
    {
        let stats = MegaBoardStats {
            board: [
                zero_row(),
                zero_row(),
                zero_row(),
                zero_row(),
                zero_row(),
                zero_row(),
                zero_row(),
                zero_row(),
                zero_row(),
            ],
            runs: 0,
        };
        proof {
            lemma_sum_zero(stats.cells());
            assert forall|me: Square| #[trigger] stats.records(Seq::<Playout>::empty(), me) by {
                assert forall|b: usize, c: usize| b < 9 && c < 9 implies {
                    let s = #[trigger] stats.at(b as int, c as int);
                    &&& s.totals == Seq::<Playout>::empty().filter(began_with(b, c)).len()
                    &&& s.wins == Seq::<Playout>::empty().filter(won_with(b, c, me)).len()
                    &&& s.loses == Seq::<Playout>::empty().filter(lost_with(b, c, me)).len()
                } by {
                    Seq::<Playout>::empty().lemma_filter_len(began_with(b, c));
                    Seq::<Playout>::empty().lemma_filter_len(won_with(b, c, me));
                    Seq::<Playout>::empty().lemma_filter_len(lost_with(b, c, me));
                }
            }
        }
        stats
    }
}

/// Nine counters at zero.
fn zero_row() -> (row: [Stats; 9])
    ensures
        forall|c: int| 0 <= c < 9 ==> #[trigger] row@[c] == (Stats { wins: 0, loses: 0, totals: 0 }),
{
    [
        Stats { wins: 0, loses: 0, totals: 0 },
        Stats { wins: 0, loses: 0, totals: 0 },
        Stats { wins: 0, loses: 0, totals: 0 },
        Stats { wins: 0, loses: 0, totals: 0 },
        Stats { wins: 0, loses: 0, totals: 0 },
        Stats { wins: 0, loses: 0, totals: 0 },
        Stats { wins: 0, loses: 0, totals: 0 },
        Stats { wins: 0, loses: 0, totals: 0 },
        Stats { wins: 0, loses: 0, totals: 0 },
    ]
}

/// Counters that are all at zero add up to zero.
pub proof fn lemma_sum_zero(cells: Seq<Stats>)
    requires
        forall|k: int| 0 <= k < cells.len() ==> (#[trigger] cells[k]).totals == 0 && cells[k].wins == 0
            && cells[k].loses == 0,
    ensures
        sum(cells) == (0int, 0int, 0int),
    decreases cells.len(),
{
    if cells.len() > 0 {
        lemma_sum_zero(cells.drop_last());
    }
}

/// No counter is above the sum, and the sums of wins and losses stay within
/// the sum of totals where each counter's do.
pub proof fn lemma_sum_bounds(cells: Seq<Stats>, k: int)
    requires
        0 <= k < cells.len(),
    ensures
        cells[k].totals <= sum(cells).2,
        cells[k].wins <= sum(cells).0,
        cells[k].loses <= sum(cells).1,
        sum(cells).0 >= 0,
        sum(cells).1 >= 0,
        sum(cells).2 >= 0,
    decreases cells.len(),
{
    lemma_sum_positive(cells.drop_last());
    if k < cells.len() - 1 {
        lemma_sum_bounds(cells.drop_last(), k);
    }
}

/// Sums of counters are never negative.
pub proof fn lemma_sum_positive(cells: Seq<Stats>)
    ensures
        sum(cells).0 >= 0,
        sum(cells).1 >= 0,
        sum(cells).2 >= 0,
    decreases cells.len(),
{
    if cells.len() > 0 {
        lemma_sum_positive(cells.drop_last());
    }
}

/// The sum of a prefix is within the sum of the whole.
pub proof fn lemma_sum_take(cells: Seq<Stats>, n: int)
    requires
        0 <= n <= cells.len(),
    ensures
        sum(cells.take(n)).0 <= sum(cells).0,
        sum(cells.take(n)).1 <= sum(cells).1,
        sum(cells.take(n)).2 <= sum(cells).2,
    decreases cells.len() - n,
{
    if n == cells.len() {
        assert(cells.take(n) =~= cells);
    } else {
        lemma_sum_take(cells, n + 1);
        assert(cells.take(n + 1).drop_last() =~= cells.take(n));
    }
}

/// Replacing one counter changes the sum by the difference.
pub proof fn lemma_sum_update(cells: Seq<Stats>, k: int, s: Stats)
    requires
        0 <= k < cells.len(),
    ensures
        sum(cells.update(k, s)).0 == sum(cells).0 - cells[k].wins + s.wins,
        sum(cells.update(k, s)).1 == sum(cells).1 - cells[k].loses + s.loses,
        sum(cells.update(k, s)).2 == sum(cells).2 - cells[k].totals + s.totals,
    decreases cells.len(),
{
    if k < cells.len() - 1 {
        lemma_sum_update(cells.drop_last(), k, s);
        assert(cells.update(k, s).drop_last() =~= cells.drop_last().update(k, s));
    } else {
        assert(cells.update(k, s).drop_last() =~= cells.drop_last());
    }
}

/// A ratio that is not above a second, which is below a third, is below the third.
pub proof fn lemma_ratio_chain(a: Stats, b: Stats, c: Stats)
    requires
        !ratio_less(b, a),
        ratio_less(b, c),
    ensures
        ratio_less(a, c),
{
    let (an, ad) = (ratio_num(a), ratio_den(a));
    let (bn, bd) = (ratio_num(b), ratio_den(b));
    let (cn, cd) = (ratio_num(c), ratio_den(c));
    assert(an * cd < cn * ad) by (nonlinear_arith)
        requires
            an * bd <= bn * ad,
            bn * cd < cn * bd,
            ad > 0,
            bd > 0,
            cd > 0,
            an >= 0,
            bn >= 0,
            cn >= 0,
    ;
}

/// Among the playouts that began with one move, those won and those lost
/// are no more than all of them.
pub proof fn lemma_won_and_lost_within_all(history: Seq<Playout>, me: Square, b: usize, c: usize)
    ensures
        history.filter(won_with(b, c, me)).len() + history.filter(lost_with(b, c, me)).len()
            <= history.filter(began_with(b, c)).len(),
    decreases history.len(),
{
    reveal(Seq::filter);
    if history.len() > 0 {
        lemma_won_and_lost_within_all(history.drop_last(), me, b, c);
    }
}

/// What the counters of a search say. For every move, the total is the
/// number of playouts that began with that move, and wins and losses
/// together are no more than the total. The runs are the number of playouts.
pub proof fn law_counters_count_playouts(
    stats: MegaBoardStats,
    history: Seq<Playout>,
    me: Square,
    b: usize,
    c: usize,
)
    requires
        stats.records(history, me),
        b < 9,
        c < 9,
    ensures
        stats.at(b as int, c as int).totals == history.filter(began_with(b, c)).len(),
        stats.at(b as int, c as int).wins + stats.at(b as int, c as int).loses <= stats.at(
            b as int,
            c as int,
        ).totals,
        stats.at(b as int, c as int).totals <= stats.runs,
        stats.runs == history.len(),
{
    let s = stats.at(b as int, c as int);
    assert(s.totals == history.filter(began_with(b, c)).len());
    lemma_won_and_lost_within_all(history, me, b, c);
    history.lemma_filter_len(began_with(b, c));
}

/// There is one best move: two moves that are both best are the same move.
pub proof fn law_best_is_unique(stats: MegaBoardStats, m1: (usize, usize), m2: (usize, usize))
    requires
        stats.is_best(m1),
        stats.is_best(m2),
    ensures
        m1 == m2,
{
    if m1 != m2 {
        if move_before(m1, m2) {
            assert(ratio_less(stats.at(m1.0 as int, m1.1 as int), stats.at(m2.0 as int, m2.1 as int)));
        } else {
            assert(move_before(m2, m1));
            assert(ratio_less(stats.at(m2.0 as int, m2.1 as int), stats.at(m1.0 as int, m1.1 as int)));
        }
    }
}

} // verus!
