use vstd::prelude::*;
use vstd::string::StringExecFns;
use crate::counting::{
    count_where, lemma_count_where_bounds, lemma_count_where_one, lemma_count_where_push,
    lemma_count_where_update, lemma_seq_sum_update, lemma_seq_sum_zero, seq_sum,
};
use crate::laws::lemma_solved_queens_apart;
use crate::rng::{pick_from, seeded_rng};
use crate::{anti_diag_index, main_diag_index};

verus! {

/// Largest supported board size: keeps `2n - 1` within `u32` and the sum of
/// three counters within `u32`.
pub const MAX_BOARD_SIZE: u32 = 0x3fff_ffff;

/// The line predicates: a queen in column `c` on row `x` lies on row `r`,
/// on main diagonal `d`, or on anti-diagonal `d`.
pub open spec fn row_pred(r: int) -> spec_fn(int, u32) -> bool {
    |c: int, x: u32| x == r
}

pub open spec fn main_pred(n: int, d: int) -> spec_fn(int, u32) -> bool {
    |c: int, x: u32| main_diag_index(n, c, x as int) == d
}

pub open spec fn anti_pred(d: int) -> spec_fn(int, u32) -> bool {
    |c: int, x: u32| anti_diag_index(c, x as int) == d
}

/// Number of queens of `q` on row `r`.
pub open spec fn count_row(q: Seq<u32>, r: int) -> int {
    count_where(q, row_pred(r))
}

/// Number of queens of `q` on main diagonal `d` of an n-by-n board.
pub open spec fn count_main(q: Seq<u32>, n: int, d: int) -> int {
    count_where(q, main_pred(n, d))
}

/// Number of queens of `q` on anti-diagonal `d`.
pub open spec fn count_anti(q: Seq<u32>, d: int) -> int {
    count_where(q, anti_pred(d))
}

/// The placement-level meaning of a solution: any two queens stand on
/// distinct rows, distinct main diagonals and distinct anti-diagonals.
pub open spec fn queens_apart(q: Seq<u32>, n: int) -> bool {
    forall|c1: int, c2: int|
        0 <= c1 < n && 0 <= c2 < n && c1 != c2 ==> q[c1] != q[c2] && q[c1] - c1 != q[c2] - c2
            && q[c1] + c1 != q[c2] + c2
}

/// The two characters printed for square (col, row): a queen mark or an
/// empty mark, followed by a space.
pub open spec fn render_cell(q: Seq<u32>, col: int, row: int) -> Seq<char> {
    if q[col] == row {
        seq!['*', ' ']
    } else {
        seq!['_', ' ']
    }
}

/// The first `k` cells of text row `row` (text rows run over columns).
pub open spec fn render_row_prefix(q: Seq<u32>, row: int, k: int) -> Seq<char>
    decreases k,
{
    if k <= 0 {
        Seq::empty()
    } else {
        render_row_prefix(q, row, k - 1) + render_cell(q, k - 1, row)
    }
}

/// The first `k` complete text rows, each ended by a newline.
pub open spec fn render_prefix(q: Seq<u32>, n: int, k: int) -> Seq<char>
    decreases k,
{
    if k <= 0 {
        Seq::empty()
    } else {
        render_prefix(q, n, k - 1) + render_row_prefix(q, k - 1, n) + seq!['\n']
    }
}

/// The text form of an n-by-n placement: one line per row, `*` for a queen
/// and `_` for an empty square, each followed by a space.
pub open spec fn render_board(q: Seq<u32>, n: int) -> Seq<char> {
    render_prefix(q, n, n)
}

/// A fresh counter array of the given length, all entries zero.
fn zero_counters(len: usize) -> (r: Vec<u32>)
    ensures
        r@.len() == len,
        forall|i: int| 0 <= i < len ==> r@[i] == 0,
{
    let mut v: Vec<u32> = Vec::new();
    let mut i: usize = 0;
    while i < len
        invariant
            v@.len() == i,
            i <= len,
            forall|j: int| 0 <= j < i ==> v@[j] == 0,
        decreases len - i,
    {
        v.push(0);
        i += 1;
    }
    v
}

/// An n-by-n board with one queen per column and three counter arrays that
/// give the number of queens on any row or diagonal in constant time.
pub struct Board {
    /// `queens[c] == r` means the queen of column `c` sits on row `r`.
    pub queens: Vec<u32>,
    /// `main_diag_collis[d]` = number of queens on main diagonal `d`.
    pub main_diag_collis: Vec<u32>,
    /// `secondary_diag_collis[d]` = number of queens on anti-diagonal `d`.
    pub secondary_diag_collis: Vec<u32>,
    /// `row_collis[r]` = number of queens on row `r`.
    pub row_collis: Vec<u32>,
    /// Board size.
    pub n: u32,
    /// Seeded generator for random tie-breaking.
    pub rng: rand::rngs::StdRng,
}

impl Board {
    pub open spec fn nn(&self) -> int {
        self.n as int
    }

    /// The counter arrays have their final lengths and `n` is in range.
    pub open spec fn sized(&self) -> bool {
        &&& 1 <= self.n <= MAX_BOARD_SIZE
        &&& self.row_collis@.len() == self.nn()
        &&& self.main_diag_collis@.len() == 2 * self.nn() - 1
        &&& self.secondary_diag_collis@.len() == 2 * self.nn() - 1
    }

    /// Every placed queen sits on a row of the board.
    pub open spec fn queens_in_range(&self) -> bool {
        forall|c: int| 0 <= c < self.queens@.len() ==> self.queens@[c] < self.n
    }

    /// Each counter entry equals the number of placed queens on its line.
    pub open spec fn counts_ok(&self) -> bool {
        &&& forall|r: int|
            0 <= r < self.nn() ==> self.row_collis@[r] == count_row(self.queens@, r)
        &&& forall|d: int|
            0 <= d < 2 * self.nn() - 1 ==> self.main_diag_collis@[d] == count_main(
                self.queens@,
                self.nn(),
                d,
            )
        &&& forall|d: int|
            0 <= d < 2 * self.nn() - 1 ==> self.secondary_diag_collis@[d] == count_anti(
                self.queens@,
                d,
            )
    }

    /// Each counter array sums to the number of placed queens: every queen
    /// contributes one unit to exactly one entry of each array.
    pub open spec fn sums_ok(&self) -> bool {
        &&& seq_sum(self.row_collis@) == self.queens@.len()
        &&& seq_sum(self.main_diag_collis@) == self.queens@.len()
        &&& seq_sum(self.secondary_diag_collis@) == self.queens@.len()
    }

    /// Well-formedness of a board whose first `queens.len()` columns are
    /// placed; the counters already account for exactly those queens.
    /// This is the state construction passes through, one column at a time.
    pub open spec fn partial_wf(&self) -> bool {
        &&& self.sized()
        &&& self.queens_in_range()
        &&& self.queens@.len() <= self.nn()
        &&& self.counts_ok()
        &&& self.sums_ok()
    }

    /// Well-formedness of a fully placed board: one queen in every column.
    pub open spec fn wf(&self) -> bool {
        &&& self.partial_wf()
        &&& self.queens@.len() == self.nn()
    }

    /// Number of queens on the three lines through (col, row); a queen on
    /// (col, row) itself is counted by all three.
    pub open spec fn pos_conflicts(&self, col: int, row: int) -> int {
        count_main(self.queens@, self.nn(), main_diag_index(self.nn(), col, row))
            + count_anti(self.queens@, anti_diag_index(col, row)) + count_row(self.queens@, row)
    }

    /// Conflicts of column `col`'s queen at its current position.
    pub open spec fn queen_conflicts(&self, col: int) -> int {
        self.pos_conflicts(col, self.queens@[col] as int)
    }

    /// Main-diagonal index of column `c`'s queen.
    pub open spec fn queen_main(&self, c: int) -> int {
        main_diag_index(self.nn(), c, self.queens@[c] as int)
    }

    /// Anti-diagonal index of column `c`'s queen.
    pub open spec fn queen_anti(&self, c: int) -> int {
        anti_diag_index(c, self.queens@[c] as int)
    }

    /// Column `col` holds a queen with as many conflicts as any other.
    pub open spec fn is_max_conflict_col(&self, col: int) -> bool {
        &&& 0 <= col < self.nn()
        &&& forall|c: int| 0 <= c < self.nn() ==> self.queen_conflicts(c) <= self.queen_conflicts(col)
    }

    /// Row `row` is a least-conflicted row for column `col`'s queen.
    pub open spec fn is_min_conflict_row(&self, col: int, row: int) -> bool {
        &&& 0 <= row < self.nn()
        &&& forall|r: int|
            0 <= r < self.nn() ==> self.pos_conflicts(col, row) <= self.pos_conflicts(col, r)
    }

    /// No line of the board holds more than one queen.
    pub open spec fn is_solved(&self) -> bool {
        &&& forall|d: int|
            0 <= d < 2 * self.nn() - 1 ==> self.main_diag_collis@[d] <= 1
                && self.secondary_diag_collis@[d] <= 1
        &&& forall|r: int| 0 <= r < self.nn() ==> self.row_collis@[r] <= 1
    }

    /// All fields but the tie-break generator agree.
    pub open spec fn same_state(a: &Board, b: &Board) -> bool {
        &&& a.n == b.n
        &&& a.queens@ == b.queens@
        &&& a.row_collis@ == b.row_collis@
        &&& a.main_diag_collis@ == b.main_diag_collis@
        &&& a.secondary_diag_collis@ == b.secondary_diag_collis@
    }

    pub fn get_pos_main_diag_index(&self, col_idx: usize, row_idx: usize) -> (r: usize)
        requires
            self.sized(),
            col_idx < self.n,
            row_idx < self.n,
        ensures
            r == main_diag_index(self.nn(), col_idx as int, row_idx as int),
            r < 2 * self.nn() - 1,
    {
        col_idx + (self.n - 1) as usize - row_idx
    }

    pub fn get_pos_secondary_diag_index(&self, col_idx: usize, row_idx: usize) -> (r: usize)
        requires
            self.sized(),
            col_idx < self.n,
            row_idx < self.n,
        ensures
            r == anti_diag_index(col_idx as int, row_idx as int),
            r < 2 * self.nn() - 1,
    {
        col_idx + row_idx
    }

    pub fn get_queen_main_diag_index(&self, queen_idx: usize) -> (r: usize)
        requires
            self.sized(),
            self.queens_in_range(),
            queen_idx < self.queens@.len(),
            queen_idx < self.n,
        ensures
            r == self.queen_main(queen_idx as int),
            r < 2 * self.nn() - 1,
    {
        self.get_pos_main_diag_index(queen_idx, self.queens[queen_idx] as usize)
    }

    pub fn get_queen_secondary_diag_index(&self, queen_idx: usize) -> (r: usize)
        requires
            self.sized(),
            self.queens_in_range(),
            queen_idx < self.queens@.len(),
            queen_idx < self.n,
        ensures
            r == self.queen_anti(queen_idx as int),
            r < 2 * self.nn() - 1,
    {
        self.get_pos_secondary_diag_index(queen_idx, self.queens[queen_idx] as usize)
    }

    /// Conflict count of a hypothetical queen at (col_idx, row_idx): the sum
    /// of the three counters of the lines through that square.
    pub fn get_pos_collisions(&self, col_idx: usize, row_idx: u32) -> (r: u32)
        requires
            self.partial_wf(),
            col_idx < self.n,
            row_idx < self.n,
        ensures
            r == self.pos_conflicts(col_idx as int, row_idx as int),
            r <= 3 * self.queens@.len(),
    {
        proof {
            lemma_count_where_bounds(
                self.queens@,
                main_pred(self.nn(), main_diag_index(self.nn(), col_idx as int, row_idx as int)),
            );
            lemma_count_where_bounds(
                self.queens@,
                anti_pred(anti_diag_index(col_idx as int, row_idx as int)),
            );
            lemma_count_where_bounds(self.queens@, row_pred(row_idx as int));
        }
        let main_idx = self.get_pos_main_diag_index(col_idx, row_idx as usize);
        let sec_idx = self.get_pos_secondary_diag_index(col_idx, row_idx as usize);
        self.main_diag_collis[main_idx] + self.secondary_diag_collis[sec_idx]
            + self.row_collis[row_idx as usize]
    }

    /// Conflict count of column `queen_idx`'s queen at its current position.
    /// The result is a function of the placement alone, so two queries
    /// without an intervening move return the same value.
    pub fn get_queen_collisions(&self, queen_idx: usize) -> (r: u32)
        requires
            self.wf(),
            queen_idx < self.n,
        ensures
            r == self.queen_conflicts(queen_idx as int),
    {
        self.get_pos_collisions(queen_idx, self.queens[queen_idx])
    }

    /// True iff the placement is a solution: no row or diagonal holds more
    /// than one queen.
    pub fn should_stop(&self) -> (r: bool)
        requires
            self.sized(),
        ensures
            r == self.is_solved(),
    {
        let diag_len = (self.n * 2 - 1) as usize;
        let mut i: usize = 0;
        while i < diag_len
            invariant
                self.sized(),
                diag_len == 2 * self.nn() - 1,
                i <= diag_len,
                forall|d: int|
                    0 <= d < i ==> self.main_diag_collis@[d] <= 1
                        && self.secondary_diag_collis@[d] <= 1,
            decreases diag_len - i,
        {
            if self.main_diag_collis[i] > 1 {
                return false;
            }
            if self.secondary_diag_collis[i] > 1 {
                return false;
            }
            i += 1;
        }
        let n = self.n as usize;
        let mut j: usize = 0;
        while j < n
            invariant
                self.sized(),
                n == self.nn(),
                j <= n,
                forall|d: int|
                    0 <= d < 2 * self.nn() - 1 ==> self.main_diag_collis@[d] <= 1
                        && self.secondary_diag_collis@[d] <= 1,
                forall|r: int| 0 <= r < j ==> self.row_collis@[r] <= 1,
            decreases n - j,
        {
            if self.row_collis[j] > 1 {
                return false;
            }
            j += 1;
        }
        true
    }

    /// A new board of size `n`, with a placement built greedily: for each
    /// column in order, the queen goes to a row that currently minimizes the
    /// conflicts at that square, ties broken at random by a generator seeded
    /// with `seed`.
    pub fn new(n: u32, seed: u64) -> (board: Board)
        requires
            1 <= n <= MAX_BOARD_SIZE,
        ensures
            board.wf(),
            board.n == n,
    {
        let mut board = Board {
            queens: Vec::new(),
            main_diag_collis: Vec::new(),
            secondary_diag_collis: Vec::new(),
            row_collis: Vec::new(),
            n,
            rng: seeded_rng(seed),
        };
        board.init();
        board
    }

    /// Discards the placement and rebuilds it greedily from scratch; used at
    /// construction and at every restart of the search.
    pub fn init(&mut self)
        requires
            1 <= old(self).n <= MAX_BOARD_SIZE,
        ensures
            final(self).wf(),
            final(self).n == old(self).n,
    {
        let n = self.n;
        let diag_len = (2 * n - 1) as usize;
        self.main_diag_collis = zero_counters(diag_len);
        self.secondary_diag_collis = zero_counters(diag_len);
        self.row_collis = zero_counters(n as usize);
        self.queens = Vec::new();
        proof {
            lemma_seq_sum_zero(self.main_diag_collis@);
            lemma_seq_sum_zero(self.secondary_diag_collis@);
            lemma_seq_sum_zero(self.row_collis@);
        }
        let mut i: u32 = 0;
        while i < n
            invariant
                self.partial_wf(),
                self.n == n,
                self.queens@.len() == i,
                i <= n,
            decreases n - i,
        {
            let ghost pre = *self;
            let rows = self.get_min_rows_for_queen(i as usize);
            let row = pick_from(&mut self.rng, &rows);
            proof {
                let j = choose|j: int| 0 <= j < rows@.len() && rows@[j] == row;
                assert(pre.is_min_conflict_row(i as int, rows@[j] as int));
            }
            let ghost q0 = self.queens@;
            let ghost nn = self.nn();
            self.queens.push(row);
            let ghost q1 = self.queens@;
            let ghost m0 = self.main_diag_collis@;
            let ghost s0 = self.secondary_diag_collis@;
            let ghost r0 = self.row_collis@;
            let ghost i_m = main_diag_index(nn, i as int, row as int);
            let ghost i_s = anti_diag_index(i as int, row as int);
            let ghost i_r = row as int;
            proof {
                // The counters still account for the first i queens only, so
                // the three entries to be incremented are below u32::MAX.
                lemma_count_where_bounds(q0, main_pred(nn, i_m));
                lemma_count_where_bounds(q0, anti_pred(i_s));
                lemma_count_where_bounds(q0, row_pred(i_r));
                assert(self.queen_main(i as int) == i_m);
                assert(self.queen_anti(i as int) == i_s);
            }
            self.change_collision_for_queen(i as usize, 1);
            proof {
                assert forall|d: int| 0 <= d < 2 * nn - 1 implies self.main_diag_collis@[d]
                    == count_main(q1, nn, d) by {
                    lemma_count_where_push(q0, main_pred(nn, d), row);
                }
                assert forall|d: int| 0 <= d < 2 * nn - 1 implies self.secondary_diag_collis@[d]
                    == count_anti(q1, d) by {
                    lemma_count_where_push(q0, anti_pred(d), row);
                }
                assert forall|r: int| 0 <= r < nn implies self.row_collis@[r] == count_row(
                    q1,
                    r,
                ) by {
                    lemma_count_where_push(q0, row_pred(r), row);
                }
                // One entry of each array went up by one, as did the number
                // of placed queens.
                lemma_seq_sum_update(m0, i_m, ((m0[i_m] + 1) as u32));
                lemma_seq_sum_update(s0, i_s, ((s0[i_s] + 1) as u32));
                lemma_seq_sum_update(r0, i_r, ((r0[i_r] + 1) as u32));
            }
            i += 1;
        }
    }

    /// The row of each column's queen.
    pub fn placement(&self) -> (r: &Vec<u32>)
        ensures
            r@ == self.queens@,
    {
        &self.queens
    }

    /// The columns whose queens have the most conflicts, in increasing
    /// order: exactly the columns `c` for which no queen has more conflicts
    /// than column `c`'s.
    pub fn get_all_max_queens(&self) -> (r: Vec<usize>)
        requires
            self.wf(),
        ensures
            r@.len() >= 1,
            forall|j: int| 0 <= j < r@.len() ==> self.is_max_conflict_col(r@[j] as int),
            forall|c: int| self.is_max_conflict_col(c) ==> r@.contains(c as usize),
            forall|j1: int, j2: int| 0 <= j1 < j2 < r@.len() ==> r@[j1] < r@[j2],
    {
        let mut max_val: Option<u32> = None;
        let mut max_queens: Vec<usize> = Vec::new();
        let n = self.n as usize;
        let mut i: usize = 0;
        while i < n
            invariant
                self.wf(),
                n == self.nn(),
                i <= n,
                i == 0 ==> max_val is None && max_queens@.len() == 0,
                i > 0 ==> max_val is Some && max_queens@.len() >= 1,
                i > 0 ==> forall|c: int|
                    0 <= c < i ==> self.queen_conflicts(c) <= max_val->Some_0,
                forall|j: int|
                    0 <= j < max_queens@.len() ==> 0 <= max_queens@[j] < i
                        && self.queen_conflicts(max_queens@[j] as int) == max_val->Some_0,
                forall|c: int|
                    0 <= c < i && self.queen_conflicts(c) == max_val->Some_0
                        ==> max_queens@.contains(c as usize),
                forall|j1: int, j2: int|
                    0 <= j1 < j2 < max_queens@.len() ==> max_queens@[j1] < max_queens@[j2],
            decreases n - i,
        {
            let curr_val = self.get_queen_collisions(i);
            match max_val {
                None => {
                    max_val = Some(curr_val);
                    max_queens = vec![i];
                    proof {
                        assert(max_queens@[0] == i);
                    }
                },
                Some(m) => {
                    if m == curr_val {
                        let ghost prev = max_queens@;
                        max_queens.push(i);
                        proof {
                            assert forall|c: int|
                                0 <= c < i + 1 && self.queen_conflicts(c) == curr_val
                                    implies max_queens@.contains(c as usize) by {
                                if c == i as int {
                                    assert(max_queens@[max_queens@.len() - 1] == i);
                                } else {
                                    let k = choose|k: int|
                                        0 <= k < prev.len() && prev[k] == c as usize;
                                    assert(max_queens@[k] == c as usize);
                                }
                            }
                        }
                    } else if m < curr_val {
                        max_val = Some(curr_val);
                        max_queens = vec![i];
                        proof {
                            assert(max_queens@[0] == i);
                        }
                    }
                },
            }
            i += 1;
        }
        proof {
            let m = max_val->Some_0;
            let w = max_queens@[0] as int;
            assert(self.queen_conflicts(w) == m);
            assert forall|c: int| self.is_max_conflict_col(c) implies max_queens@.contains(
                c as usize,
            ) by {
                assert(self.queen_conflicts(w) <= self.queen_conflicts(c));
            }
        }
        max_queens
    }

    /// One most-conflicted column, chosen uniformly at random among all of
    /// them so that the search does not cycle between the same two queens.
    /// Only the tie-break generator changes.
    pub fn get_max_queen(&mut self) -> (col: usize)
        requires
            old(self).wf(),
        ensures
            Board::same_state(old(self), final(self)),
            final(self).wf(),
            final(self).is_max_conflict_col(col as int),
            col < final(self).n,
    {
        let ghost pre = *self;
        let cols = self.get_all_max_queens();
        let col = pick_from(&mut self.rng, &cols);
        proof {
            let j = choose|j: int| 0 <= j < cols@.len() && cols@[j] == col;
            assert(pre.is_max_conflict_col(cols@[j] as int));
            assert forall|c: int| 0 <= c < self.nn() implies self.queen_conflicts(c)
                <= self.queen_conflicts(col as int) by {
                assert(pre.queen_conflicts(c) <= pre.queen_conflicts(col as int));
            }
        }
        col
    }

    /// The least-conflicted rows for column `queen_idx`, in increasing
    /// order: exactly the rows on which a queen of that column would meet no
    /// more queens than on any other row.
    pub fn get_min_rows_for_queen(&self, queen_idx: usize) -> (r: Vec<u32>)
        requires
            self.partial_wf(),
            queen_idx < self.n,
        ensures
            r@.len() >= 1,
            forall|j: int|
                0 <= j < r@.len() ==> self.is_min_conflict_row(queen_idx as int, r@[j] as int),
            forall|row: int|
                self.is_min_conflict_row(queen_idx as int, row) ==> r@.contains(row as u32),
            forall|j1: int, j2: int| 0 <= j1 < j2 < r@.len() ==> r@[j1] < r@[j2],
    {
        let mut min_rows: Vec<u32> = Vec::new();
        let mut min_rows_val: Option<u32> = None;
        let n = self.n;
        let mut i: u32 = 0;
        while i < n
            invariant
                self.partial_wf(),
                queen_idx < n,
                n == self.n,
                i <= n,
                i == 0 ==> min_rows_val is None && min_rows@.len() == 0,
                i > 0 ==> min_rows_val is Some && min_rows@.len() >= 1,
                i > 0 ==> forall|row: int|
                    0 <= row < i ==> min_rows_val->Some_0 <= self.pos_conflicts(
                        queen_idx as int,
                        row,
                    ),
                forall|j: int|
                    0 <= j < min_rows@.len() ==> 0 <= min_rows@[j] < i && self.pos_conflicts(
                        queen_idx as int,
                        min_rows@[j] as int,
                    ) == min_rows_val->Some_0,
                forall|row: int|
                    0 <= row < i && self.pos_conflicts(queen_idx as int, row)
                        == min_rows_val->Some_0 ==> min_rows@.contains(row as u32),
                forall|j1: int, j2: int|
                    0 <= j1 < j2 < min_rows@.len() ==> min_rows@[j1] < min_rows@[j2],
            decreases n - i,
        {
            let val = self.get_pos_collisions(queen_idx, i);
            match min_rows_val {
                None => {
                    min_rows = vec![i];
                    min_rows_val = Some(val);
                    proof {
                        assert(min_rows@[0] == i);
                    }
                },
                Some(m) => {
                    if m > val {
                        min_rows = vec![i];
                        min_rows_val = Some(val);
                        proof {
                            assert(min_rows@[0] == i);
                        }
                    } else if m == val {
                        let ghost prev = min_rows@;
                        min_rows.push(i);
                        proof {
                            assert forall|row: int|
                                0 <= row < i + 1 && self.pos_conflicts(queen_idx as int, row)
                                    == val implies min_rows@.contains(row as u32) by {
                                if row == i as int {
                                    assert(min_rows@[min_rows@.len() - 1] == i);
                                } else {
                                    let k = choose|k: int|
                                        0 <= k < prev.len() && prev[k] == row as u32;
                                    assert(min_rows@[k] == row as u32);
                                }
                            }
                        }
                    }
                },
            }
            i += 1;
        }
        proof {
            let m = min_rows_val->Some_0;
            let w = min_rows@[0] as int;
            assert(self.pos_conflicts(queen_idx as int, w) == m);
            assert forall|row: int| self.is_min_conflict_row(queen_idx as int, row)
                implies min_rows@.contains(row as u32) by {
                assert(self.pos_conflicts(queen_idx as int, row) <= self.pos_conflicts(
                    queen_idx as int,
                    w,
                ));
            }
        }
        min_rows
    }

    /// One least-conflicted row for column `queen_idx`'s queen, chosen
    /// uniformly at random among all of them. Only the tie-break generator
    /// changes.
    pub fn get_min_row_for_queen(&mut self, queen_idx: usize) -> (row: u32)
        requires
            old(self).partial_wf(),
            queen_idx < old(self).n,
        ensures
            Board::same_state(old(self), final(self)),
            final(self).partial_wf(),
            final(self).is_min_conflict_row(queen_idx as int, row as int),
            row < final(self).n,
    {
        let ghost pre = *self;
        let rows = self.get_min_rows_for_queen(queen_idx);
        let row = pick_from(&mut self.rng, &rows);
        proof {
            let j = choose|j: int| 0 <= j < rows@.len() && rows@[j] == row;
            assert(pre.is_min_conflict_row(queen_idx as int, rows@[j] as int));
            assert forall|r: int| 0 <= r < self.nn() implies self.pos_conflicts(
                queen_idx as int,
                row as int,
            ) <= self.pos_conflicts(queen_idx as int, r) by {
                assert(pre.pos_conflicts(queen_idx as int, row as int) <= pre.pos_conflicts(
                    queen_idx as int,
                    r,
                ));
            }
        }
        row
    }

    /// Adds `val` (one of 1, -1) to the three counters of the lines through
    /// column `idx`'s queen. Used to book a queen in before it is counted or
    /// out before it moves; the counters then no longer match the placement,
    /// so the contract states the raw array updates.
    pub fn change_collision_for_queen(&mut self, idx: usize, val: i32)
        requires
            old(self).sized(),
            old(self).queens_in_range(),
            old(self).queens@.len() <= old(self).nn(),
            idx < old(self).queens@.len(),
            idx < old(self).n,
            val == 1i32 || val == -1i32,
            val == -1i32 ==> old(self).main_diag_collis@[old(self).queen_main(idx as int)] >= 1
                && old(self).secondary_diag_collis@[old(self).queen_anti(idx as int)] >= 1
                && old(self).row_collis@[old(self).queens@[idx as int] as int] >= 1,
            val == 1i32 ==> old(self).main_diag_collis@[old(self).queen_main(idx as int)]
                < u32::MAX && old(self).secondary_diag_collis@[old(self).queen_anti(idx as int)]
                < u32::MAX && old(self).row_collis@[old(self).queens@[idx as int] as int]
                < u32::MAX,
        ensures
            final(self).n == old(self).n,
            final(self).queens@ == old(self).queens@,
            final(self).main_diag_collis@ == old(self).main_diag_collis@.update(
                old(self).queen_main(idx as int),
                ((old(self).main_diag_collis@[old(self).queen_main(idx as int)] + val) as u32),
            ),
            final(self).secondary_diag_collis@ == old(self).secondary_diag_collis@.update(
                old(self).queen_anti(idx as int),
                ((old(self).secondary_diag_collis@[old(self).queen_anti(idx as int)]
                    + val) as u32),
            ),
            final(self).row_collis@ == old(self).row_collis@.update(
                old(self).queens@[idx as int] as int,
                ((old(self).row_collis@[old(self).queens@[idx as int] as int] + val) as u32),
            ),
    {
        let main_diag_idx = self.get_queen_main_diag_index(idx);
        let cur_main = self.main_diag_collis[main_diag_idx];
        self.main_diag_collis[main_diag_idx] = if val == 1 {
            cur_main + 1
        } else {
            cur_main - 1
        };

        let secondary_diag_idx = self.get_queen_secondary_diag_index(idx);
        let cur_sec = self.secondary_diag_collis[secondary_diag_idx];
        self.secondary_diag_collis[secondary_diag_idx] = if val == 1 {
            cur_sec + 1
        } else {
            cur_sec - 1
        };

        let row = self.queens[idx] as usize;
        let cur_row = self.row_collis[row];
        self.row_collis[row] = if val == 1 {
            cur_row + 1
        } else {
            cur_row - 1
        };
    }

    /// Moves column `queen_idx`'s queen to row `row_idx`, keeping every
    /// counter equal to the number of queens on its line.
    pub fn move_queen(&mut self, queen_idx: usize, row_idx: u32)
        requires
            old(self).wf(),
            queen_idx < old(self).n,
            row_idx < old(self).n,
        ensures
            final(self).wf(),
            final(self).n == old(self).n,
            final(self).queens@ == old(self).queens@.update(queen_idx as int, row_idx),
    {
        let ghost q0 = self.queens@;
        let ghost nn = self.nn();
        let ghost col = queen_idx as int;
        let ghost m0 = self.main_diag_collis@;
        let ghost s0 = self.secondary_diag_collis@;
        let ghost r0 = self.row_collis@;
        let ghost i_m0 = self.queen_main(col);
        let ghost i_s0 = self.queen_anti(col);
        let ghost i_r0 = q0[col] as int;
        proof {
            // The queen itself is counted on each of its three lines, so the
            // three counters to be decremented are at least 1.
            lemma_count_where_one(q0, main_pred(nn, i_m0), col);
            lemma_count_where_one(q0, anti_pred(i_s0), col);
            lemma_count_where_one(q0, row_pred(i_r0), col);
        }
        self.change_collision_for_queen(queen_idx, -1);
        self.queens[queen_idx] = row_idx;
        let ghost q1 = self.queens@;
        let ghost m1 = self.main_diag_collis@;
        let ghost s1 = self.secondary_diag_collis@;
        let ghost r1 = self.row_collis@;
        let ghost i_m1 = main_diag_index(nn, col, row_idx as int);
        let ghost i_s1 = anti_diag_index(col, row_idx as int);
        let ghost i_r1 = row_idx as int;
        proof {
            // The counters to be incremented held at most n queens before the
            // decrement, so the increment cannot overflow.
            lemma_count_where_bounds(q0, main_pred(nn, i_m1));
            lemma_count_where_bounds(q0, anti_pred(i_s1));
            lemma_count_where_bounds(q0, row_pred(i_r1));
            assert(q1 == q0.update(col, row_idx));
            assert(self.queen_main(col) == i_m1);
            assert(self.queen_anti(col) == i_s1);
        }
        self.change_collision_for_queen(queen_idx, 1);
        proof {
            assert(self.queens@ == q1);
            assert forall|d: int| 0 <= d < 2 * nn - 1 implies self.main_diag_collis@[d]
                == count_main(q1, nn, d) by {
                lemma_count_where_update(q0, main_pred(nn, d), col, row_idx);
            }
            assert forall|d: int| 0 <= d < 2 * nn - 1 implies self.secondary_diag_collis@[d]
                == count_anti(q1, d) by {
                lemma_count_where_update(q0, anti_pred(d), col, row_idx);
            }
            assert forall|r: int| 0 <= r < nn implies self.row_collis@[r] == count_row(q1, r) by {
                lemma_count_where_update(q0, row_pred(r), col, row_idx);
            }
            // Each array lost one unit at the old line and gained one at the
            // new line, so its sum is unchanged.
            lemma_seq_sum_update(m0, i_m0, ((m0[i_m0] - 1) as u32));
            lemma_seq_sum_update(m1, i_m1, ((m1[i_m1] + 1) as u32));
            lemma_seq_sum_update(s0, i_s0, ((s0[i_s0] - 1) as u32));
            lemma_seq_sum_update(s1, i_s1, ((s1[i_s1] + 1) as u32));
            lemma_seq_sum_update(r0, i_r0, ((r0[i_r0] - 1) as u32));
            lemma_seq_sum_update(r1, i_r1, ((r1[i_r1] + 1) as u32));
        }
    }

    /// Min-conflicts search: repeatedly move a most-conflicted queen to a
    /// least-conflicted row of its column; after `2n` fruitless steps restart
    /// from a fresh greedy placement, up to `max_restarts` times. Returns
    /// whether the final placement is a solution.
    ///
    /// The search is randomized and a stuck run ends at the restart budget,
    /// so success cannot be promised; what is promised is that the answer is
    /// truthful and the board stays well-formed. Sizes 2 and 3 are excluded:
    /// they have no solution, and the loop would use its whole budget on
    /// them.
    pub fn solve(&mut self, max_restarts: u32) -> (solved: bool)
        requires
            old(self).wf(),
            old(self).n == 1 || old(self).n >= 4,
        ensures
            final(self).wf(),
            final(self).n == old(self).n,
            solved == final(self).is_solved(),
            solved ==> queens_apart(final(self).queens@, final(self).nn()),
    {
        if self.should_stop() {
            proof {
                lemma_solved_queens_apart(*self);
            }
            return true;
        }
        let mut restarts: u32 = 0;
        loop
            invariant
                self.wf(),
                self.n == old(self).n,
                restarts <= max_restarts,
            decreases max_restarts - restarts,
        {
            let mut steps: u32 = 0;
            let threshold: u32 = 2 * self.n;
            while steps < threshold
                invariant
                    self.wf(),
                    self.n == old(self).n,
                    steps <= threshold,
                decreases threshold - steps,
            {
                let max_queen = self.get_max_queen();
                let min_row = self.get_min_row_for_queen(max_queen);
                self.move_queen(max_queen, min_row);
                steps += 1;
                if self.should_stop() {
                    proof {
                        lemma_solved_queens_apart(*self);
                    }
                    return true;
                }
            }
            if restarts == max_restarts {
                let solved = self.should_stop();
                proof {
                    if solved {
                        lemma_solved_queens_apart(*self);
                    }
                }
                return solved;
            }
            self.init();
            restarts += 1;
        }
    }

    /// The board as text, row by row: `*` for a queen, `_` for an empty
    /// square, each followed by a space, one line per row.
    pub fn to_pretty_string(&self) -> (res: String)
        requires
            self.wf(),
        ensures
            res@ == render_board(self.queens@, self.nn()),
    {
        let ghost q = self.queens@;
        let ghost nn = self.nn();
        let mut res = String::new();
        proof {
            assert(res@ =~= render_prefix(q, nn, 0));
        }
        let n = self.n;
        let mut j: u32 = 0;
        while j < n
            invariant
                self.wf(),
                q == self.queens@,
                nn == self.nn(),
                n == self.n,
                j <= n,
                res@ == render_prefix(q, nn, j as int),
            decreases n - j,
        {
            let mut i: u32 = 0;
            proof {
                assert(res@ =~= render_prefix(q, nn, j as int) + render_row_prefix(
                    q,
                    j as int,
                    0,
                ));
            }
            while i < n
                invariant
                    self.wf(),
                    q == self.queens@,
                    nn == self.nn(),
                    n == self.n,
                    j < n,
                    i <= n,
                    res@ == render_prefix(q, nn, j as int) + render_row_prefix(
                        q,
                        j as int,
                        i as int,
                    ),
                decreases n - i,
            {
                let ghost before = res@;
                if self.queens[i as usize] == j {
                    res.append("* ");
                    proof {
                        reveal_strlit("* ");
                        assert(res@ =~= before + render_cell(q, i as int, j as int));
                    }
                } else {
                    res.append("_ ");
                    proof {
                        reveal_strlit("_ ");
                        assert(res@ =~= before + render_cell(q, i as int, j as int));
                    }
                }
                proof {
                    assert(res@ =~= render_prefix(q, nn, j as int) + render_row_prefix(
                        q,
                        j as int,
                        i as int + 1,
                    ));
                }
                i += 1;
            }
            res.append("\n");
            proof {
                reveal_strlit("\n");
                assert(res@ =~= render_prefix(q, nn, j as int + 1));
            }
            j += 1;
        }
        res
    }
}

/// Caller-side guard for `solve`: only size 1 and sizes from 4 up (within
/// the supported range) have a reachable solution; sizes 2 and 3 have none
/// at all and must be rejected instead of searched.
pub fn solvable_size(n: u32) -> (r: bool)
    ensures
        r == (n == 1 || (4 <= n && n <= MAX_BOARD_SIZE)),
{
    n == 1 || (4 <= n && n <= MAX_BOARD_SIZE)
}

} // verus!
