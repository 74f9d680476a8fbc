use nqueens::board::{solvable_size, Board};

fn counter_sum(v: &Vec<u32>) -> u64 {
    let mut s: u64 = 0;
    for x in v {
        s += *x as u64;
    }
    s
}

fn assert_counter_sums(b: &Board, n: u64) {
    assert_eq!(counter_sum(&b.row_collis), n);
    assert_eq!(counter_sum(&b.main_diag_collis), n);
    assert_eq!(counter_sum(&b.secondary_diag_collis), n);
}

#[test]
fn counter_sums_after_init_and_moves() {
    let mut b = Board::new(5, 7);
    assert_counter_sums(&b, 5);
    b.move_queen(0, 4);
    assert_counter_sums(&b, 5);
    b.move_queen(3, 0);
    assert_counter_sums(&b, 5);
    b.move_queen(3, 3);
    assert_counter_sums(&b, 5);
}

fn place(b: &mut Board, rows: &[u32]) {
    for (col, row) in rows.iter().enumerate() {
        b.move_queen(col, *row);
    }
}

#[test]
fn conflicts_at_empty_square_count_attackers() {
    let mut b = Board::new(4, 1);
    place(&mut b, &[0, 0, 0, 0]);
    // Square (0, 1) holds no queen. Row 1 is empty, its main diagonal holds
    // no queen, and its anti-diagonal holds the queen of column 1: one
    // attacker.
    assert_eq!(b.get_pos_collisions(0, 1), 1);
    // Square (1, 1): row 1 is empty, its main diagonal holds the queen of
    // column 0, its anti-diagonal the queen of column 2: two attackers.
    assert_eq!(b.get_pos_collisions(1, 1), 2);
    place(&mut b, &[1, 3, 0, 2]);
    // Square (0, 0) on the solved placement: both its diagonals are empty
    // and row 0 holds only the queen of column 2: one attacker.
    assert_eq!(b.get_pos_collisions(0, 0), 1);
}

#[test]
fn queen_conflict_query_is_repeatable() {
    let b = Board::new(6, 42);
    for col in 0..6 {
        let first = b.get_queen_collisions(col);
        let second = b.get_queen_collisions(col);
        assert_eq!(first, second);
    }
}

#[test]
fn eight_queens_solved_within_restart_budget() {
    for seed in 0..5u64 {
        let mut b = Board::new(8, seed);
        assert!(b.solve(50), "seed {} did not solve n=8", seed);
        assert!(b.should_stop());
    }
}

fn is_valid_solution(rows: &[u32]) -> bool {
    let n = rows.len();
    for c1 in 0..n {
        for c2 in (c1 + 1)..n {
            let (r1, r2) = (rows[c1] as i64, rows[c2] as i64);
            let (c1i, c2i) = (c1 as i64, c2 as i64);
            if r1 == r2 || r1 - c1i == r2 - c2i || r1 + c1i == r2 + c2i {
                return false;
            }
        }
    }
    true
}

#[test]
fn solved_boards_have_pairwise_safe_queens() {
    for seed in 0..5u64 {
        let mut b = Board::new(7, seed + 100);
        if b.solve(50) {
            assert!(is_valid_solution(b.placement()));
        }
    }
}

#[test]
fn four_queens_known_solution_is_recognized() {
    let mut b = Board::new(4, 3);
    place(&mut b, &[1, 3, 0, 2]);
    assert!(b.should_stop());
    // On a solved board each queen is attacked by nobody, yet its own square
    // reads 3: the queen itself is counted once per line.
    for col in 0..4 {
        assert_eq!(b.get_queen_collisions(col), 3);
    }
    let mut b2 = Board::new(4, 3);
    place(&mut b2, &[2, 0, 3, 1]);
    assert!(b2.should_stop());
}

#[test]
fn four_queens_search_finds_a_known_solution() {
    let mut b = Board::new(4, 9);
    assert!(b.solve(50));
    let rows = b.placement().clone();
    assert!(rows == vec![1, 3, 0, 2] || rows == vec![2, 0, 3, 1]);
}

#[test]
fn one_queen_is_solved_with_zero_moves() {
    let mut b = Board::new(1, 0);
    assert_eq!(b.placement(), &vec![0u32]);
    assert!(b.should_stop());
    assert!(b.solve(0));
    assert_eq!(b.placement(), &vec![0u32]);
}

#[test]
fn guard_rejects_sizes_without_reachable_solution() {
    assert!(!solvable_size(0));
    assert!(solvable_size(1));
    assert!(!solvable_size(2));
    assert!(!solvable_size(3));
    assert!(solvable_size(4));
    assert!(solvable_size(8));
}

#[test]
fn two_queens_never_solved() {
    let mut b = Board::new(2, 5);
    assert!(!b.should_stop());
    for r0 in 0..2 {
        for r1 in 0..2 {
            place(&mut b, &[r0, r1]);
            assert!(!b.should_stop());
        }
    }
}

#[test]
fn three_queens_never_solved() {
    let mut b = Board::new(3, 5);
    assert!(!b.should_stop());
    for r0 in 0..3 {
        for r1 in 0..3 {
            for r2 in 0..3 {
                place(&mut b, &[r0, r1, r2]);
                assert!(!b.should_stop());
            }
        }
    }
}

#[test]
fn pretty_string_marks_queens_row_by_row() {
    let b = Board::new(1, 0);
    assert_eq!(b.to_pretty_string(), "* \n");
    let mut b2 = Board::new(2, 0);
    place(&mut b2, &[0, 0]);
    assert_eq!(b2.to_pretty_string(), "* * \n_ _ \n");
    place(&mut b2, &[1, 0]);
    assert_eq!(b2.to_pretty_string(), "_ * \n* _ \n");
    let mut b4 = Board::new(4, 0);
    place(&mut b4, &[1, 3, 0, 2]);
    assert_eq!(b4.to_pretty_string(), "_ _ * _ \n* _ _ _ \n_ _ _ * \n_ * _ _ \n");
}

#[test]
fn max_queens_are_all_tied_columns() {
    let mut b = Board::new(4, 2);
    place(&mut b, &[0, 0, 0, 0]);
    // All four queens share row 0 and have the same conflict count.
    assert_eq!(b.get_all_max_queens(), vec![0, 1, 2, 3]);
}

#[test]
fn min_rows_are_all_tied_rows() {
    let mut b = Board::new(4, 2);
    place(&mut b, &[0, 0, 0, 0]);
    // For column 0, every row but the crowded row 0 has one conflict.
    assert_eq!(b.get_min_rows_for_queen(0), vec![1, 2, 3]);
    // The random pick must land inside that set.
    let picked = b.get_min_row_for_queen(0);
    assert!(picked >= 1 && picked <= 3);
    let picked_col = b.get_max_queen();
    assert!(picked_col <= 3);
}
