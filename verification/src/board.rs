//! One three-by-three board.

use core::ops::Index;
use rand_chacha::ChaCha8Rng;
use vstd::prelude::*;
use vstd::std_specs::convert::FromSpecImpl;
use crate::error::MyError;
use crate::random::pick;
use crate::rules::{
    board_outcome, board_playable, board_refusal, empty_cells, line_owner, line_winner, open_cell,
};
use crate::square::Square;
use crate::{PossibleMoves, Winner};

verus! {

/// The owner of the first complete line among nine owners in row-major order.
///
/// Rows are looked at first, then columns, then the two diagonals.
pub fn check_lines(owners: &[Square; 9]) -> (w: Square)
    ensures
        w == line_winner(owners@),
{
    let lines: [(usize, usize, usize); 8] = [
        (0, 1, 2),
        (3, 4, 5),
        (6, 7, 8),
        (0, 3, 6),
        (1, 4, 7),
        (2, 5, 8),
        (0, 4, 8),
        (2, 4, 6),
    ];
    let mut k: usize = 0;
    while k < 8
        invariant
            k <= 8,
            lines@ =~= seq![
                (0usize, 1usize, 2usize),
                (3usize, 4usize, 5usize),
                (6usize, 7usize, 8usize),
                (0usize, 3usize, 6usize),
                (1usize, 4usize, 7usize),
                (2usize, 5usize, 8usize),
                (0usize, 4usize, 8usize),
                (2usize, 4usize, 6usize),
            ],
            forall|j: int|
                0 <= j < k ==> line_owner(
                    owners@,
                    (#[trigger] lines@[j]).0 as int,
                    lines@[j].1 as int,
                    lines@[j].2 as int,
                ) == Square::Empty,
        decreases 8 - k,
    {
        let (a, b, c) = lines[k];
        let first = owners[a];
        if first != Square::Empty && first == owners[b] && first == owners[c] {
            return first;
        }
        k += 1;
    }
    Square::Empty
}

/// Appending an index that is above every index of an ascending list keeps
/// the list ascending, and adds that index and nothing else.
pub proof fn lemma_push_ascending(before: Seq<usize>, i: usize)
    requires
        forall|j: int, k: int| 0 <= j < k < before.len() ==> before[j] < before[k],
        forall|c: usize| #[trigger] before.contains(c) ==> c < i,
    ensures
        forall|j: int, k: int|
            0 <= j < k < before.push(i).len() ==> before.push(i)[j] < before.push(i)[k],
        forall|c: usize| #[trigger] before.push(i).contains(c) <==> before.contains(c) || c == i,
{
    let after = before.push(i);
    assert forall|j: int, k: int| 0 <= j < k < after.len() implies after[j] < after[k] by {
        if k == before.len() {
            assert(before.contains(before[j]));
        }
    }
    assert forall|c: usize| #[trigger] after.contains(c) <==> before.contains(c) || c == i by {
        if after.contains(c) {
            let j = choose|j: int| 0 <= j < after.len() && after[j] == c;
            if j < before.len() {
                assert(before[j] == c);
            }
        }
        if before.contains(c) {
            let j = choose|j: int| 0 <= j < before.len() && before[j] == c;
            assert(after[j] == c);
        }
        if c == i {
            assert(after[before.len() as int] == c);
        }
    }
}

/// Takes `pos` out of a list of distinct indices; the last index moves into its place.
pub(crate) fn forget(moves: &mut Vec<usize>, pos: usize)
    requires
        old(moves)@.no_duplicates(),
        old(moves)@.contains(pos),
    ensures
        final(moves)@.no_duplicates(),
        final(moves)@.len() + 1 == old(moves)@.len(),
        forall|i: usize| #[trigger] final(moves)@.contains(i) <==> old(moves)@.contains(i) && i != pos,
{
    let mut x: usize = 0;
    while moves[x] != pos
        invariant
            x < moves.len(),
            moves@ == old(moves)@,
            moves@.contains(pos),
            forall|j: int| 0 <= j < x ==> moves@[j] != pos,
        decreases moves.len() - x,
    {
        x += 1;
    }
    let ghost before = moves@;
    moves.swap_remove(x);
    proof {
        let after = moves@;
        assert forall|i: usize| #[trigger] after.contains(i) <==> (before.contains(i) && i != pos) by {
            if after.contains(i) {
                let j = choose|j: int| 0 <= j < after.len() && after[j] == i;
                if j == x {
                    assert(before[before.len() - 1] == i);
                } else {
                    assert(before[j] == i);
                }
            }
            if before.contains(i) && i != pos {
                let j = choose|j: int| 0 <= j < before.len() && before[j] == i;
                if j == before.len() - 1 {
                    assert(after[x as int] == i);
                } else {
                    assert(after[j] == i);
                }
            }
        }
    }
}

/// A three-by-three board: nine cells in row-major order, the cells that may
/// still be played, and the winner, kept up to date move by move.
#[derive(Debug)]
pub struct Board {
    grid: [Square; 9],
    moves: Vec<usize>,
    winner: Square,
}

impl View for Board {
    type V = Seq<Square>;

    /// The nine cells, row by row.
    closed spec fn view(&self) -> Seq<Square> {
        self.grid@
    }
}

impl Board {
    /// The open cells in the order in which they are stored.
    pub closed spec fn open_moves(&self) -> Seq<usize> {
        self.moves@
    }

    /// The winner as the board has recorded it.
    pub closed spec fn recorded_winner(&self) -> Square {
        self.winner
    }

    /// The board is consistent: the recorded winner is the winner of the
    /// cells, and the stored open cells are exactly the empty cells of a board
    /// without a winner, each stored once.
    pub open spec fn wf(&self) -> bool {
        &&& self@.len() == 9
        &&& self.recorded_winner() == line_winner(self@)
        &&& self.open_moves().no_duplicates()
        &&& forall|i: usize| #[trigger] self.open_moves().contains(i) <==> open_cell(self@, i as int)
    }

    /// Whether a move at `pos` would stand, and if not, why not. Changes nothing.
    pub fn can_play(&self, pos: usize) -> (r: Result<(), MyError>)
        requires
            self.wf(),
        ensures
            r == match board_refusal(self@, pos) {
                Some(e) => Err::<(), MyError>(e),
                None => Ok::<(), MyError>(()),
            },
            r is Ok <==> open_cell(self@, pos as int),
    {
        if pos >= 9 {
            return Err(MyError::InvalidSquare);
        }
        if self.grid[pos] != Square::Empty {
            return Err(MyError::AlreadyPlayed);
        }
        if self.winner != Square::Empty {
            return Err(MyError::AlreadyWon);
        }
        Ok(())
    }

    /// Plays at the specific position. Returns true if this board is over (won or drawn).
    pub fn play(&mut self, pos: usize, player: Square) -> (r: Result<bool, MyError>)
        requires
            old(self).wf(),
            player != Square::Empty,
        ensures
            final(self).wf(),
            r == board_outcome(old(self)@, pos, player),
            r is Ok ==> final(self)@ == old(self)@.update(pos as int, player),
            r is Err ==> *final(self) == *old(self),
    {
        if pos >= 9 {
            return Err(MyError::InvalidSquare);
        }
        if self.grid[pos] != Square::Empty {
            return Err(MyError::AlreadyPlayed);
        }
        if self.winner != Square::Empty {
            return Err(MyError::AlreadyWon);
        }
        assert(open_cell(self@, pos as int));
        assert(self.moves@.contains(pos));

        self.grid[pos] = player;
        self.winner = check_lines(&self.grid);

        forget(&mut self.moves, pos);
        if self.winner != Square::Empty {
            self.moves.clear();
        }
        let over = self.winner != Square::Empty || self.moves.is_empty();
        proof {
            let cells = self@;
            if self.moves@.len() > 0 {
                assert(self.moves@.contains(self.moves@[0]));
                assert(open_cell(cells, self.moves@[0] as int));
            }
            if board_playable(cells) {
                let i = choose|i: int| 0 <= i < 9 && cells[i] == Square::Empty;
                assert(open_cell(cells, i));
                assert(self.moves@.contains(i as usize));
            }
        }
        Ok(over)
    }

    /// The mark at cell `square_pos`.
    pub fn square(&self, square_pos: usize) -> (r: Result<Square, MyError>)
        ensures
            r == if square_pos < 9 {
                Ok::<Square, MyError>(self@[square_pos as int])
            } else {
                Err::<Square, MyError>(MyError::InvalidSquare)
            },
    {
        if square_pos >= 9 {
            return Err(MyError::InvalidSquare);
        }
        Ok(self.grid[square_pos])
    }

    /// The number of cells, which is nine.
    pub fn len(&self) -> (n: usize)
        ensures
            n == 9,
            n == self@.len(),
    {
        9
    }

    /// The cells that may still be played, in ascending order.
    pub fn legal_moves(&self) -> (cells: Vec<usize>)
        requires
            self.wf(),
        ensures
            forall|i: usize| #[trigger] cells@.contains(i) <==> open_cell(self@, i as int),
            forall|j: int, k: int| 0 <= j < k < cells@.len() ==> cells@[j] < cells@[k],
    {
        let mut cells: Vec<usize> = Vec::new();
        if self.winner != Square::Empty {
            return cells;
        }
        let mut i: usize = 0;
        while i < 9
            invariant
                i <= 9,
                self.wf(),
                self.winner == Square::Empty,
                forall|c: usize| #[trigger] cells@.contains(c) <==> c < i && open_cell(self@, c as int),
                forall|j: int, k: int| 0 <= j < k < cells@.len() ==> cells@[j] < cells@[k],
            decreases 9 - i,
        {
            if self.grid[i] == Square::Empty {
                let ghost before = cells@;
                cells.push(i);
                proof {
                    lemma_push_ascending(before, i);
                    assert forall|c: usize| #[trigger] cells@.contains(c) <==> c < i + 1 && open_cell(
                        self@,
                        c as int,
                    ) by {
                        assert(cells@.contains(c) <==> before.contains(c) || c == i);
                    }
                }
            }
            i += 1;
        }
        cells
    }
}

impl Default for Board {
    /// The board with nothing on it.
    fn default() -> (b: Self)
        ensures
            b.wf(),
            b@ == empty_cells(),
    {
        let b = Board {
            grid: [
                Square::Empty,
                Square::Empty,
                Square::Empty,
                Square::Empty,
                Square::Empty,
                Square::Empty,
                Square::Empty,
                Square::Empty,
                Square::Empty,
            ],
            moves: vec![0, 1, 2, 3, 4, 5, 6, 7, 8],
            winner: Square::Empty,
        };
        proof {
            assert(b@ =~= empty_cells());
            assert forall|i: usize| #[trigger] b.moves@.contains(i) <==> open_cell(b@, i as int) by {
                if open_cell(b@, i as int) {
                    assert(b.moves@[i as int] == i);
                }
            }
        }
        b
    }
}

impl FromSpecImpl<[Square; 9]> for Board {
    /// The order in which the open cells are stored is left to `from`.
    open spec fn obeys_from_spec() -> bool {
        false
    }

    open spec fn from_spec(grid: [Square; 9]) -> Board {
        arbitrary()
    }
}

impl From<[Square; 9]> for Board {
    /// The consistent board with these cells: its winner is the winner of
    /// the cells, and its open cells are the empty ones unless it is won.
    fn from(grid: [Square; 9]) -> (b: Self)
        ensures
            b.wf(),
            b@ == grid@,
    {
        let winner = check_lines(&grid);
        let mut moves: Vec<usize> = Vec::new();
        let mut i: usize = 0;
        while i < 9
            invariant
                i <= 9,
                winner == line_winner(grid@),
                forall|c: usize| #[trigger] moves@.contains(c) <==> c < i && open_cell(grid@, c as int),
                forall|j: int, k: int| 0 <= j < k < moves@.len() ==> moves@[j] < moves@[k],
            decreases 9 - i,
        {
            if winner == Square::Empty && grid[i] == Square::Empty {
                let ghost before = moves@;
                moves.push(i);
                proof {
                    lemma_push_ascending(before, i);
                    assert forall|c: usize| #[trigger] moves@.contains(c) <==> c < i + 1 && open_cell(
                        grid@,
                        c as int,
                    ) by {
                        assert(moves@.contains(c) <==> before.contains(c) || c == i);
                    }
                }
            }
            i += 1;
        }
        Board { grid, moves, winner }
    }
}

impl vstd::std_specs::core::IndexSpecImpl<usize> for Board {
    /// A cell is named by its place in row-major order.
    open spec fn index_req(&self, index: &usize) -> bool {
        *index < 9
    }
}

impl Index<usize> for Board {
    type Output = Square;

    /// The mark at cell `pos`.
    fn index(&self, pos: usize) -> (s: &Square)
        ensures
            *s == self@[pos as int],
    {
        &self.grid[pos]
    }
}

impl vstd::std_specs::core::IndexSpecImpl<(usize, usize)> for Board {
    /// A cell is named by its column and its row, in that order.
    open spec fn index_req(&self, index: &(usize, usize)) -> bool {
        index.1 * 3 + index.0 < 9
    }
}

impl Index<(usize, usize)> for Board {
    type Output = Square;

    /// The mark at column `p.0` of row `p.1`.
    fn index(&self, p: (usize, usize)) -> (s: &Square)
        ensures
            *s == self@[p.1 * 3 + p.0],
    {
        &self.grid[p.1 * 3 + p.0]
    }
}

impl Clone for Board {
    /// An independent copy: same cells, same open cells in the same order.
    fn clone(&self) -> (b: Self)
        ensures
            b@ == self@,
            b.open_moves() == self.open_moves(),
            b.recorded_winner() == self.recorded_winner(),
            self.wf() ==> b.wf(),
    {
        let b = Board { grid: self.grid, moves: self.moves.clone(), winner: self.winner };
        assert(b.moves@ =~= self.moves@);
        b
    }
}

impl Winner for Board {
    open spec fn spec_winner(&self) -> Square {
        self.recorded_winner()
    }

    /// The owner of the first complete line, or `Empty`.
    fn winner(&self) -> (w: Square)
        ensures
            self.wf() ==> w == line_winner(self@),
    {
        self.winner
    }
}

impl PossibleMoves for Board {
    open spec fn choices(&self) -> Set<usize> {
        self.open_moves().to_set()
    }

    open spec fn spec_playable(&self) -> bool {
        self.open_moves().len() > 0 && self.recorded_winner() == Square::Empty
    }

    /// Whether the board still takes moves.
    fn playable(&self) -> (b: bool)
        ensures
            self.wf() ==> b == board_playable(self@),
    {
        proof {
            if self.wf() {
                self.lemma_playable();
            }
        }
        !self.moves.is_empty() && !self.has_winner()
    }

    /// Draws one of the open cells, or `None` when the board takes no move.
    fn choose_move(&self, rng: &mut ChaCha8Rng) -> (r: Option<usize>)
        ensures
            self.wf() ==> match r {
                Some(i) => open_cell(self@, i as int),
                None => !board_playable(self@),
            },
    {
        let r = pick(&self.moves, rng);
        proof {
            if self.moves@.len() == 0 {
                assert(self.moves@.to_set() =~= Set::<usize>::empty());
            }
            if self.wf() {
                self.lemma_playable();
            }
        }
        r
    }
}

impl Board {
    /// In a consistent board the stored open cells say what the rules say.
    pub proof fn lemma_playable(&self)
        requires
            self.wf(),
        ensures
            self.spec_playable() == board_playable(self@),
            self.spec_winner() == line_winner(self@),
            self.spec_playable() ==> !(self.choices() =~= Set::<usize>::empty()),
            forall|i: usize| #[trigger] self.choices().contains(i) <==> open_cell(self@, i as int),
    {
        if self.open_moves().len() > 0 {
            assert(self.open_moves().contains(self.open_moves()[0]));
            assert(self.choices().contains(self.open_moves()[0]));
        }
        if board_playable(self@) {
            let i = choose|i: int| 0 <= i < 9 && self@[i] == Square::Empty;
            assert(self.open_moves().contains(i as usize));
        }
    }
}

} // verus!
