//! N-Queens solved by min-conflicts local search.
//!
//! A `Board` keeps one queen per column together with three counter arrays
//! (rows, main diagonals, anti-diagonals) that give the number of queens on
//! any line in constant time. The search repeatedly moves a most-conflicted
//! queen to a least-conflicted row of its column, restarting from a fresh
//! placement when it stalls.

pub mod board;
pub mod counting;
pub mod laws;
pub mod rng;

use vstd::prelude::*;

verus! {

/// Index of the main diagonal through (col, row) on an n-by-n board,
/// always in `[0, 2n - 2]`.
pub open spec fn main_diag_index(n: int, col: int, row: int) -> int {
    col + (n - 1) - row
}

/// Index of the anti-diagonal through (col, row), always in `[0, 2n - 2]`.
pub open spec fn anti_diag_index(col: int, row: int) -> int {
    col + row
}

} // verus!
