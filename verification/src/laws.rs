use vstd::prelude::*;
use crate::board::{anti_pred, main_pred, queens_apart, row_pred, Board};
use crate::counting::{
    count_where, lemma_count_where_bounds, lemma_count_where_sum3, lemma_count_where_sum3_except,
    lemma_count_where_two, lemma_count_where_two_witnesses, seq_sum,
};
use crate::{anti_diag_index, main_diag_index};

verus! {

/// A queen in column `c` on row `x` attacks square (col, row) when it shares
/// the square's row, main diagonal or anti-diagonal. Column attacks are not
/// listed: with one queen per column, the only queen of the square's column
/// could attack it only by standing on it.
pub open spec fn attacks_square(n: int, c: int, x: u32, col: int, row: int) -> bool {
    ||| x == row
    ||| main_diag_index(n, c, x as int) == main_diag_index(n, col, row)
    ||| anti_diag_index(c, x as int) == anti_diag_index(col, row)
}

/// Number of queens of `q` that attack square (col, row).
pub open spec fn attackers(q: Seq<u32>, n: int, col: int, row: int) -> int {
    count_where(q, |c: int, x: u32| attacks_square(n, c, x, col, row))
}

/// The counter arrays of a well-formed fully placed board each sum to
/// exactly `n`: construction establishes this and every move preserves it,
/// since `new`, `init` and `move_queen` all ensure `wf`.
pub proof fn lemma_counter_sums(b: Board)
    requires
        b.wf(),
    ensures
        seq_sum(b.row_collis@) == b.n,
        seq_sum(b.main_diag_collis@) == b.n,
        seq_sum(b.secondary_diag_collis@) == b.n,
{
}

/// On a square that holds no queen, the conflict count read off the three
/// counters equals the number of queens attacking that square.
pub proof fn lemma_conflicts_count_attackers(b: Board, col: int, row: int)
    requires
        b.wf(),
        0 <= col < b.nn(),
        0 <= row < b.nn(),
        b.queens@[col] != row,
    ensures
        b.pos_conflicts(col, row) == attackers(b.queens@, b.nn(), col, row),
{
    let n = b.nn();
    let q = b.queens@;
    let f1 = main_pred(n, main_diag_index(n, col, row));
    let f2 = anti_pred(anti_diag_index(col, row));
    let f3 = row_pred(row);
    let g = |c: int, x: u32| attacks_square(n, c, x, col, row);
    assert forall|c: int| 0 <= c < q.len() implies (if g(c, q[c]) {
        1int
    } else {
        0int
    }) == (if f1(c, q[c]) {
        1int
    } else {
        0int
    }) + (if f2(c, q[c]) {
        1int
    } else {
        0int
    }) + (if f3(c, q[c]) {
        1int
    } else {
        0int
    }) by {
        // A queen can share at most one line with a square outside its own
        // column, and the square's own column holds no queen on its lines.
        assert(q[c] < b.n);
    }
    lemma_count_where_sum3(q, f1, f2, f3, g);
}

/// On its own square a queen is counted once by each of its three lines, so
/// the conflict count read off the counters exceeds the number of queens
/// attacking the square by exactly two (the attackers include the queen
/// itself once). Callers comparing a queen's present position against
/// candidate empty rows must account for this offset.
pub proof fn lemma_conflicts_at_queen_square(b: Board, col: int)
    requires
        b.wf(),
        0 <= col < b.nn(),
    ensures
        b.queen_conflicts(col) == attackers(b.queens@, b.nn(), col, b.queens@[col] as int) + 2,
{
    let n = b.nn();
    let q = b.queens@;
    let row = q[col] as int;
    let f1 = main_pred(n, main_diag_index(n, col, row));
    let f2 = anti_pred(anti_diag_index(col, row));
    let f3 = row_pred(row);
    let g = |c: int, x: u32| attacks_square(n, c, x, col, row);
    assert forall|c: int| 0 <= c < q.len() && c != col implies (if g(c, q[c]) {
        1int
    } else {
        0int
    }) == (if f1(c, q[c]) {
        1int
    } else {
        0int
    }) + (if f2(c, q[c]) {
        1int
    } else {
        0int
    }) + (if f3(c, q[c]) {
        1int
    } else {
        0int
    }) by {
        assert(q[c] < b.n);
    }
    lemma_count_where_sum3_except(q, f1, f2, f3, g, col);
}

/// On a solved board the queens stand pairwise on distinct rows, distinct
/// main diagonals and distinct anti-diagonals.
pub proof fn lemma_solved_queens_apart(b: Board)
    requires
        b.wf(),
        b.is_solved(),
    ensures
        queens_apart(b.queens@, b.nn()),
{
    let n = b.nn();
    let q = b.queens@;
    assert forall|c1: int, c2: int|
        0 <= c1 < n && 0 <= c2 < n && c1 != c2 implies q[c1] != q[c2] && q[c1] - c1 != q[c2] - c2
        && q[c1] + c1 != q[c2] + c2 by {
        let lo = if c1 < c2 {
            c1
        } else {
            c2
        };
        let hi = if c1 < c2 {
            c2
        } else {
            c1
        };
        if q[c1] == q[c2] {
            // Two queens on one row would put that row's counter at 2.
            lemma_count_where_two(q, row_pred(q[c1] as int), lo, hi);
            assert(b.row_collis@[q[c1] as int] >= 2);
            assert(false);
        }
        if q[c1] - c1 == q[c2] - c2 {
            // Two queens on one main diagonal.
            let d = main_diag_index(n, c1, q[c1] as int);
            lemma_count_where_two(q, main_pred(n, d), lo, hi);
            assert(b.main_diag_collis@[d] >= 2);
            assert(false);
        }
        if q[c1] + c1 == q[c2] + c2 {
            // Two queens on one anti-diagonal.
            let d = anti_diag_index(c1, q[c1] as int);
            lemma_count_where_two(q, anti_pred(d), lo, hi);
            assert(b.secondary_diag_collis@[d] >= 2);
            assert(false);
        }
    }
}

/// Converse of `lemma_solved_queens_apart`: a well-formed board whose queens
/// stand pairwise apart is recognized as solved. Together the two say that
/// the counter test is exactly the placement-level notion of a solution.
pub proof fn lemma_apart_queens_solved(b: Board)
    requires
        b.wf(),
        queens_apart(b.queens@, b.nn()),
    ensures
        b.is_solved(),
{
    let n = b.nn();
    let q = b.queens@;
    assert forall|d: int| 0 <= d < 2 * n - 1 implies b.main_diag_collis@[d] <= 1
        && b.secondary_diag_collis@[d] <= 1 by {
        if b.main_diag_collis@[d] >= 2 {
            lemma_count_where_two_witnesses(q, main_pred(n, d));
            let (c1, c2) = choose|c1: int, c2: int|
                0 <= c1 < c2 < q.len() && main_pred(n, d)(c1, q[c1]) && main_pred(n, d)(c2, q[c2]);
            assert(q[c1] - c1 == q[c2] - c2);
            assert(false);
        }
        if b.secondary_diag_collis@[d] >= 2 {
            lemma_count_where_two_witnesses(q, anti_pred(d));
            let (c1, c2) = choose|c1: int, c2: int|
                0 <= c1 < c2 < q.len() && anti_pred(d)(c1, q[c1]) && anti_pred(d)(c2, q[c2]);
            assert(q[c1] + c1 == q[c2] + c2);
            assert(false);
        }
    }
    assert forall|r: int| 0 <= r < n implies b.row_collis@[r] <= 1 by {
        if b.row_collis@[r] >= 2 {
            lemma_count_where_two_witnesses(q, row_pred(r));
            let (c1, c2) = choose|c1: int, c2: int|
                0 <= c1 < c2 < q.len() && row_pred(r)(c1, q[c1]) && row_pred(r)(c2, q[c2]);
            assert(q[c1] == q[c2]);
            assert(false);
        }
    }
}

/// A board of size 1 is always solved: no line can hold two queens, and its
/// single queen stands on the single square.
pub proof fn lemma_one_queen_solved(b: Board)
    requires
        b.wf(),
        b.n == 1,
    ensures
        b.is_solved(),
        b.queens@ =~= seq![0u32],
{
    assert forall|d: int| 0 <= d < 2 * b.nn() - 1 implies b.main_diag_collis@[d] <= 1
        && b.secondary_diag_collis@[d] <= 1 by {
        lemma_count_where_bounds(b.queens@, main_pred(b.nn(), d));
        lemma_count_where_bounds(b.queens@, anti_pred(d));
    }
    assert forall|r: int| 0 <= r < b.nn() implies b.row_collis@[r] <= 1 by {
        lemma_count_where_bounds(b.queens@, row_pred(r));
    }
    assert(b.queens@[0] < 1);
}

/// Boards of size 2 and 3 are never solved, whatever the placement: any two
/// of their queens that avoid each other's rows meet on a diagonal.
pub proof fn lemma_small_board_never_solved(b: Board)
    requires
        b.wf(),
        b.n == 2 || b.n == 3,
    ensures
        !b.is_solved(),
{
    if b.is_solved() {
        lemma_solved_queens_apart(b);
        let q = b.queens@;
        if b.n == 2 {
            assert(q[0] < 2 && q[1] < 2);
            assert(q[0] != q[1] && q[0] - 0 != q[1] - 1 && q[0] + 0 != q[1] + 1);
            assert(false);
        } else {
            assert(q[0] < 3 && q[1] < 3 && q[2] < 3);
            assert(q[0] != q[1] && q[0] - 0 != q[1] - 1 && q[0] + 0 != q[1] + 1);
            assert(q[0] != q[2] && q[0] - 0 != q[2] - 2 && q[0] + 0 != q[2] + 2);
            assert(q[1] != q[2] && q[1] - 1 != q[2] - 2 && q[1] + 1 != q[2] + 2);
            assert(false);
        }
    }
}

} // verus!
