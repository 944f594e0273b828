use vstd::prelude::*;

use crate::dw_fitness::DWFitness;
use crate::dw_individual::DWIndividual;
use crate::dw_rng::{wyrand_from_entropy, wyrand_range};

verus! {

/// The queens seen from `(x, y)` walking in direction `(dx, dy)`, stopping
/// at the board edge; `fuel` bounds the walk, and eight steps always reach
/// the edge of the eight-by-eight board.
pub open spec fn spec_trace(board: Seq<u8>, x: int, y: int, dx: int, dy: int, fuel: nat) -> nat
    decreases fuel,
{
    if fuel == 0 {
        0
    } else {
        let x2 = x + dx;
        let y2 = y + dy;
        if x2 < 0 || x2 > 7 || y2 < 0 || y2 > 7 {
            0
        } else {
            (if board[y2 * 8 + x2] == 1 {
                1nat
            } else {
                0nat
            }) + spec_trace(board, x2, y2, dx, dy, (fuel - 1) as nat)
        }
    }
}

/// A walk never sees more queens than it has fuel.
pub proof fn lemma_trace_bound(board: Seq<u8>, x: int, y: int, dx: int, dy: int, fuel: nat)
    ensures
        spec_trace(board, x, y, dx, dy, fuel) <= fuel,
    decreases fuel,
{
    if fuel > 0 {
        lemma_trace_bound(board, x + dx, y + dy, dx, dy, (fuel - 1) as nat);
    }
}

/// The queens that attack the cell at `(row, col)` along the eight
/// directions.
pub open spec fn spec_find_collisions(board: Seq<u8>, row: int, col: int) -> nat {
    spec_trace(board, col, row, -1, 0, 8) + spec_trace(board, col, row, -1, 1, 8) + spec_trace(
        board,
        col,
        row,
        0,
        1,
        8,
    ) + spec_trace(board, col, row, 1, 1, 8) + spec_trace(board, col, row, 1, 0, 8) + spec_trace(
        board,
        col,
        row,
        1,
        -1,
        8,
    ) + spec_trace(board, col, row, 0, -1, 8) + spec_trace(board, col, row, -1, -1, 8)
}

/// The collision count contributed by one cell: its attackers if a queen
/// stands there, and nothing otherwise.
pub open spec fn spec_cell_term(board: Seq<u8>, idx: int) -> nat {
    if board[idx] == 1 {
        spec_find_collisions(board, idx / 8, idx % 8)
    } else {
        0
    }
}

/// The collision count of the first `n` cells.
pub open spec fn spec_board_collisions_to(board: Seq<u8>, n: int) -> nat
    decreases n,
{
    if n <= 0 {
        0
    } else {
        spec_board_collisions_to(board, n - 1) + spec_cell_term(board, n - 1)
    }
}

/// The queen-pair collision count of the whole board, every pair counted
/// from both of its ends.
pub open spec fn spec_board_collisions(board: Seq<u8>) -> nat {
    spec_board_collisions_to(board, 64)
}

/// One cell contributes at most 64 collisions.
pub proof fn lemma_cell_term_bound(board: Seq<u8>, idx: int)
    ensures
        spec_cell_term(board, idx) <= 64,
{
    lemma_trace_bound(board, idx % 8, idx / 8, -1, 0, 8);
    lemma_trace_bound(board, idx % 8, idx / 8, -1, 1, 8);
    lemma_trace_bound(board, idx % 8, idx / 8, 0, 1, 8);
    lemma_trace_bound(board, idx % 8, idx / 8, 1, 1, 8);
    lemma_trace_bound(board, idx % 8, idx / 8, 1, 0, 8);
    lemma_trace_bound(board, idx % 8, idx / 8, 1, -1, 8);
    lemma_trace_bound(board, idx % 8, idx / 8, 0, -1, 8);
    lemma_trace_bound(board, idx % 8, idx / 8, -1, -1, 8);
}

/// The whole board contributes at most 64 collisions per cell.
pub proof fn lemma_board_collisions_bound(board: Seq<u8>, n: int)
    requires
        n >= 0,
    ensures
        spec_board_collisions_to(board, n) <= 64 * n,
    decreases n,
{
    if n > 0 {
        lemma_board_collisions_bound(board, n - 1);
        lemma_cell_term_bound(board, n - 1);
    }
}

/// The queens on the first `n` cells.
pub open spec fn spec_queens_to(board: Seq<u8>, n: int) -> nat
    decreases n,
{
    if n <= 0 {
        0
    } else {
        spec_queens_to(board, n - 1) + (if board[n - 1] == 1 {
            1nat
        } else {
            0nat
        })
    }
}

/// The number of queens on the board.
pub open spec fn spec_queen_count(board: Seq<u8>) -> nat {
    spec_queens_to(board, board.len() as int)
}

/// Overwriting one cell changes the queen count by exactly the queens
/// taken off and put on that cell.
proof fn lemma_queens_to_update(board: Seq<u8>, n: int, i: int, v: u8)
    requires
        0 <= i < board.len(),
        n <= board.len(),
    ensures
        spec_queens_to(board.update(i, v), n) == if i < n {
            spec_queens_to(board, n) - (if board[i] == 1 {
                1int
            } else {
                0int
            }) + (if v == 1 {
                1int
            } else {
                0int
            })
        } else {
            spec_queens_to(board, n) as int
        },
    decreases n,
{
    if n > 0 {
        lemma_queens_to_update(board, n - 1, i, v);
        assert(board.update(i, v)[n - 1] == if i == n - 1 {
            v
        } else {
            board[n - 1]
        });
    }
}

/// The bundled example individual: the eight-queens board, sixty-four 0/1
/// cells with a queen on every 1 cell, plus a seed word that is carried in
/// its portable form and tags the board's lineage.
pub struct Queens {
    board: Vec<u8>,
    seed: u64,
}

impl Queens {
    /// The cells of the board.
    pub closed spec fn board_view(self) -> Seq<u8> {
        self.board@
    }

    /// The carried seed word.
    pub closed spec fn seed_view(self) -> u64 {
        self.seed
    }

    /// A board of exactly 64 cells.
    pub open spec fn wf(self) -> bool {
        self.board_view().len() == 64
    }

    /// The starting board: eight queens on the first row.
    pub fn new() -> (r: Self)
        ensures
            r.wf(),
            forall|i: int| 0 <= i < 8 ==> r.board_view()[i] == 1,
            forall|i: int| 8 <= i < 64 ==> r.board_view()[i] == 0,
            r.seed_view() == 0,
    {
        let mut board: Vec<u8> = Vec::new();
        let mut i: usize = 0;
        while i < 64
            invariant
                i <= 64,
                board@.len() == i,
                forall|j: int| 0 <= j < i && j < 8 ==> board@[j] == 1,
                forall|j: int| 8 <= j < i ==> board@[j] == 0,
            decreases 64 - i,
        {
            if i < 8 {
                board.push(1);
            } else {
                board.push(0);
            }
            i = i + 1;
        }
        Self { board, seed: 0 }
    }

    /// Walk from `(row, col)` in direction `(dx, dy)` and count the queens
    /// seen before the board edge.
    pub fn one_trace(&self, row: usize, col: usize, dx: i8, dy: i8) -> (r: u8)
        requires
            self.wf(),
            row < 8,
            col < 8,
            -1 <= dx <= 1,
            -1 <= dy <= 1,
            dx != 0 || dy != 0,
        ensures
            r as nat == spec_trace(self.board_view(), col as int, row as int, dx as int, dy as int, 8),
            r <= 8,
    {
        let mut num_of_collisions: u8 = 0;
        let mut x: i16 = col as i16;
        let mut y: i16 = row as i16;
        let mut steps: u8 = 0;
        loop
            invariant
                self.wf(),
                row < 8,
                col < 8,
                -1 <= dx <= 1,
                -1 <= dy <= 1,
                dx != 0 || dy != 0,
                0 <= x <= 7,
                0 <= y <= 7,
                steps <= 7,
                dx == 1 ==> x == col + steps,
                dx == 0 ==> x == col,
                dx == -1 ==> x == col - steps,
                dy == 1 ==> y == row + steps,
                dy == 0 ==> y == row,
                dy == -1 ==> y == row - steps,
                num_of_collisions <= steps,
                spec_trace(self.board_view(), col as int, row as int, dx as int, dy as int, 8)
                    == num_of_collisions + spec_trace(
                    self.board_view(),
                    x as int,
                    y as int,
                    dx as int,
                    dy as int,
                    (8 - steps) as nat,
                ),
            ensures
                num_of_collisions as nat == spec_trace(
                    self.board_view(),
                    col as int,
                    row as int,
                    dx as int,
                    dy as int,
                    8,
                ),
            decreases 8 - steps,
        {
            let x2 = x + dx as i16;
            if x2 < 0 || x2 > 7 {
                break ;
            }
            let y2 = y + dy as i16;
            if y2 < 0 || y2 > 7 {
                break ;
            }
            x = x2;
            y = y2;
            steps = steps + 1;
            if self.board[(y as usize) * 8 + (x as usize)] == 1 {
                num_of_collisions = num_of_collisions + 1;
            }
            proof {
                if dx == 1 {
                    assert(x == col + steps);
                    assert(steps <= 7);
                } else if dx == -1 {
                    assert(x == col - steps);
                    assert(steps <= 7);
                } else if dy == 1 {
                    assert(y == row + steps);
                    assert(steps <= 7);
                } else {
                    assert(y == row - steps);
                    assert(steps <= 7);
                }
            }
        }
        num_of_collisions
    }

    /// The queens attacking the cell at `(row, col)` along all eight
    /// directions.
    pub fn find_collisions(&self, row: usize, col: usize) -> (r: u8)
        requires
            self.wf(),
            row < 8,
            col < 8,
        ensures
            r as nat == spec_find_collisions(self.board_view(), row as int, col as int),
            r <= 64,
    {
        let mut num_of_collisions: u8 = 0;
        // up
        num_of_collisions = num_of_collisions + self.one_trace(row, col, -1, 0);
        // up right
        num_of_collisions = num_of_collisions + self.one_trace(row, col, -1, 1);
        // right
        num_of_collisions = num_of_collisions + self.one_trace(row, col, 0, 1);
        // right down
        num_of_collisions = num_of_collisions + self.one_trace(row, col, 1, 1);
        // down
        num_of_collisions = num_of_collisions + self.one_trace(row, col, 1, 0);
        // down left
        num_of_collisions = num_of_collisions + self.one_trace(row, col, 1, -1);
        // left
        num_of_collisions = num_of_collisions + self.one_trace(row, col, 0, -1);
        // left top
        num_of_collisions = num_of_collisions + self.one_trace(row, col, -1, -1);
        num_of_collisions
    }

    /// The collision count of the whole board.
    pub fn board_fitness(&self) -> (r: u64)
        requires
            self.wf(),
        ensures
            r as nat == spec_board_collisions(self.board_view()),
    {
        let mut num_of_collisions: u64 = 0;
        let mut row: usize = 0;
        while row < 8
            invariant
                self.wf(),
                row <= 8,
                num_of_collisions as nat == spec_board_collisions_to(
                    self.board_view(),
                    8 * row,
                ),
                num_of_collisions <= 64 * 64,
            decreases 8 - row,
        {
            let mut col: usize = 0;
            while col < 8
                invariant
                    self.wf(),
                    row < 8,
                    col <= 8,
                    num_of_collisions as nat == spec_board_collisions_to(
                        self.board_view(),
                        8 * row + col,
                    ),
                    num_of_collisions <= 64 * 64,
                decreases 8 - col,
            {
                proof {
                    lemma_board_collisions_bound(self.board_view(), 8 * row + col);
                }
                if self.board[row * 8 + col] == 1 {
                    let found = self.find_collisions(row, col);
                    proof {
                        let idx = 8 * row + col;
                        assert(idx / 8 == row && idx % 8 == col);
                    }
                    num_of_collisions = num_of_collisions + found as u64;
                } else {
                    proof {
                        let idx = 8 * (row as int) + col;
                        assert(spec_cell_term(self.board_view(), idx) == 0);
                    }
                }
                col = col + 1;
            }
            row = row + 1;
        }
        num_of_collisions
    }

    /// Move one queen to a random empty cell: the board keeps its shape
    /// and its number of queens.
    fn move_random_queen(&mut self)
        ensures
            final(self).board_view().len() == old(self).board_view().len(),
            final(self).wf() == old(self).wf(),
            spec_queen_count(final(self).board_view()) == spec_queen_count(
                old(self).board_view(),
            ),
    {
        let last = self.board.len();
        if last < 2 {
            return ;
        }
        let mut rng = wyrand_from_entropy();
        self.seed = if self.seed <= u64::MAX - 10 {
            self.seed + 10
        } else {
            0
        };
        // find a queen, scanning cyclically from a random start
        let start1 = wyrand_range(&mut rng, 0, last);
        let mut index1 = start1;
        let mut tries: usize = 0;
        let mut found1 = false;
        while tries < last && !found1
            invariant
                index1 < last,
                last == self.board@.len(),
            decreases last - tries, (if found1 { 0int } else { 1int }),
        {
            if self.board[index1] == 1 {
                found1 = true;
            } else {
                index1 = if index1 + 1 < last {
                    index1 + 1
                } else {
                    0
                };
                tries = tries + 1;
            }
        }
        if !found1 {
            return ;
        }
        // find a different empty cell the same way
        let start2 = wyrand_range(&mut rng, 0, last);
        let mut index2 = start2;
        let mut tries2: usize = 0;
        let mut found2 = false;
        while tries2 < last && !found2
            invariant
                index2 < last,
                last == self.board@.len(),
            decreases last - tries2, (if found2 { 0int } else { 1int }),
        {
            if index2 != index1 && self.board[index2] == 0 {
                found2 = true;
            } else {
                index2 = if index2 + 1 < last {
                    index2 + 1
                } else {
                    0
                };
                tries2 = tries2 + 1;
            }
        }
        if !found2 {
            return ;
        }
        // move the queen onto the empty cell
        let cell1 = self.board[index1];
        let cell2 = self.board[index2];
        let ghost pre = self.board@;
        self.board.set(index1, cell2);
        self.board.set(index2, cell1);
        proof {
            let mid = pre.update(index1 as int, cell2);
            lemma_queens_to_update(pre, pre.len() as int, index1 as int, cell2);
            lemma_queens_to_update(mid, mid.len() as int, index2 as int, cell1);
            assert(mid[index2 as int] == pre[index2 as int]);
        }
    }
}

impl Clone for Queens {
    /// The copy inherits the board; the carried seed moves on, so that
    /// lineages stay apart.
    fn clone(&self) -> (r: Self)
        ensures
            r.board_view() == self.board_view(),
    {
        Self {
            board: self.board.clone(),
            seed: if self.seed <= u64::MAX - 100 {
                self.seed + 100
            } else {
                0
            },
        }
    }
}

impl DWIndividual for Queens {
    /// The board cells, widened to words, with the seed at the end.
    open spec fn data_view(&self) -> Seq<u64> {
        self.board_view().map_values(|b: u8| b as u64).push(self.seed_view())
    }

    fn mutate(&mut self, _other: &Self)
        ensures
            final(self).board_view().len() == old(self).board_view().len(),
            spec_queen_count(final(self).board_view()) == spec_queen_count(
                old(self).board_view(),
            ),
    {
        self.move_random_queen();
    }

    fn calculate_fitness(&self) -> DWFitness {
        if self.board.len() == 64 {
            DWFitness::from_key(self.board_fitness())
        } else {
            DWFitness::unscored()
        }
    }

    fn random_reset(&mut self)
        ensures
            final(self).board_view().len() == old(self).board_view().len(),
            spec_queen_count(final(self).board_view()) == spec_queen_count(
                old(self).board_view(),
            ),
    {
        // a fresh random configuration: enough random moves to scramble
        // the whole board
        let ghost pre = *self;
        let mut k: usize = 0;
        while k < 20
            invariant
                self.board_view().len() == pre.board_view().len(),
                spec_queen_count(self.board_view()) == spec_queen_count(pre.board_view()),
            decreases 20 - k,
        {
            self.move_random_queen();
            k = k + 1;
        }
    }

    fn to_data(&self) -> (r: Vec<u64>) {
        let mut out: Vec<u64> = Vec::new();
        let mut i: usize = 0;
        while i < self.board.len()
            invariant
                i <= self.board@.len(),
                out@.len() == i,
                forall|j: int| 0 <= j < i ==> out@[j] == self.board@[j] as u64,
            decreases self.board@.len() - i,
        {
            out.push(self.board[i] as u64);
            i = i + 1;
        }
        out.push(self.seed);
        proof {
            assert(out@ =~= self.data_view());
        }
        out
    }

    fn from_data(data: &Vec<u64>) -> (r: Option<Self>) {
        if data.len() < 1 {
            return None;
        }
        let cells = data.len() - 1;
        let mut board: Vec<u8> = Vec::new();
        let mut i: usize = 0;
        while i < cells
            invariant
                i <= cells,
                cells + 1 == data@.len(),
                board@.len() == i,
                forall|j: int| 0 <= j < i ==> board@[j] as u64 == data@[j] && data@[j] <= 255,
            decreases cells - i,
        {
            let w = data[i];
            if w > 255 {
                return None;
            }
            board.push(w as u8);
            i = i + 1;
        }
        let seed = data[cells];
        let r = Queens { board, seed };
        proof {
            assert(r.data_view() =~= data@);
        }
        Some(r)
    }
}

} // verus!
