use game_of_life::rules::{count_live_neighbors, is_rectangular, next_board_state, next_cell_state};

/// A dead board of the given shape with the listed cells set alive.
fn board_with(rows: usize, cols: usize, alive: &[(usize, usize)]) -> Vec<Vec<bool>> {
    let mut board: Vec<Vec<bool>> = vec![vec![false; cols]; rows];
    for &(r, c) in alive {
        board[r][c] = true;
    }
    board
}

#[test]
fn rule_table_for_a_live_cell() {
    assert_eq!(next_cell_state(true, 0), false);
    assert_eq!(next_cell_state(true, 1), false);
    assert_eq!(next_cell_state(true, 2), true);
    assert_eq!(next_cell_state(true, 3), true);
    assert_eq!(next_cell_state(true, 4), false);
    assert_eq!(next_cell_state(true, 5), false);
    assert_eq!(next_cell_state(true, 6), false);
    assert_eq!(next_cell_state(true, 7), false);
    assert_eq!(next_cell_state(true, 8), false);
}

#[test]
fn rule_table_for_a_dead_cell() {
    assert_eq!(next_cell_state(false, 0), false);
    assert_eq!(next_cell_state(false, 1), false);
    assert_eq!(next_cell_state(false, 2), false);
    assert_eq!(next_cell_state(false, 3), true);
    assert_eq!(next_cell_state(false, 4), false);
    assert_eq!(next_cell_state(false, 5), false);
    assert_eq!(next_cell_state(false, 6), false);
    assert_eq!(next_cell_state(false, 7), false);
    assert_eq!(next_cell_state(false, 8), false);
}

#[test]
fn rule_beyond_eight_neighbors() {
    assert_eq!(next_cell_state(true, 9), false);
    assert_eq!(next_cell_state(false, usize::MAX), false);
    assert_eq!(next_cell_state(true, usize::MAX), false);
}

#[test]
fn corner_is_a_neighbor_of_the_opposite_corner() {
    let board = board_with(3, 3, &[(0, 0)]);
    assert_eq!(count_live_neighbors(2, 2, &board), 1);
}

#[test]
fn wrap_along_rows_only_and_columns_only() {
    let board = board_with(4, 5, &[(0, 2)]);
    assert_eq!(count_live_neighbors(3, 2, &board), 1);
    assert_eq!(count_live_neighbors(3, 1, &board), 1);
    assert_eq!(count_live_neighbors(3, 3, &board), 1);
    assert_eq!(count_live_neighbors(2, 2, &board), 0);
    let board = board_with(4, 5, &[(1, 4)]);
    assert_eq!(count_live_neighbors(1, 0, &board), 1);
    assert_eq!(count_live_neighbors(0, 0, &board), 1);
    assert_eq!(count_live_neighbors(2, 0, &board), 1);
    assert_eq!(count_live_neighbors(1, 1, &board), 0);
    assert_eq!(count_live_neighbors(3, 0, &board), 0);
}

#[test]
fn on_three_by_three_every_other_cell_is_a_neighbor() {
    let board = board_with(3, 3, &[(0, 0)]);
    let expected: Vec<Vec<usize>> = vec![vec![0, 1, 1], vec![1, 1, 1], vec![1, 1, 1]];
    for r in 0usize..3 {
        for c in 0usize..3 {
            assert_eq!(count_live_neighbors(r, c, &board), expected[r][c]);
        }
    }
}

#[test]
fn the_cell_itself_is_not_counted() {
    let board = board_with(5, 5, &[(2, 2)]);
    assert_eq!(count_live_neighbors(2, 2, &board), 0);
    let full: Vec<Vec<bool>> = vec![vec![true; 5]; 5];
    assert_eq!(count_live_neighbors(2, 2, &full), 8);
    assert_eq!(count_live_neighbors(0, 0, &full), 8);
    assert_eq!(count_live_neighbors(4, 4, &full), 8);
}

#[test]
fn count_in_the_interior() {
    let board = board_with(5, 5, &[(1, 1), (1, 2), (1, 3), (2, 1), (3, 3)]);
    assert_eq!(count_live_neighbors(2, 2, &board), 5);
    assert_eq!(count_live_neighbors(1, 2, &board), 3);
    assert_eq!(count_live_neighbors(0, 0, &board), 1);
    assert_eq!(count_live_neighbors(4, 4, &board), 1);
    assert_eq!(count_live_neighbors(4, 0, &board), 0);
}

#[test]
fn coordinates_beyond_the_board_wrap() {
    let board = board_with(3, 4, &[(0, 0), (1, 2), (2, 3)]);
    for r in 0usize..3 {
        for c in 0usize..4 {
            let here: usize = count_live_neighbors(r, c, &board);
            assert_eq!(count_live_neighbors(r + 3, c, &board), here);
            assert_eq!(count_live_neighbors(r, c + 4, &board), here);
            assert_eq!(count_live_neighbors(r + 6, c + 8, &board), here);
        }
    }
    assert_eq!(
        count_live_neighbors(usize::MAX, usize::MAX, &board),
        count_live_neighbors(usize::MAX % 3, usize::MAX % 4, &board)
    );
}

#[test]
fn one_by_one_board_counts_itself_eight_times() {
    let alive: Vec<Vec<bool>> = vec![vec![true]];
    assert_eq!(count_live_neighbors(0, 0, &alive), 8);
    assert_eq!(next_board_state(&alive), vec![vec![false]]);
    let dead: Vec<Vec<bool>> = vec![vec![false]];
    assert_eq!(count_live_neighbors(0, 0, &dead), 0);
    assert_eq!(next_board_state(&dead), vec![vec![false]]);
}

#[test]
fn single_row_board_wraps_onto_itself() {
    let board: Vec<Vec<bool>> = vec![vec![true, false, false]];
    assert_eq!(count_live_neighbors(0, 0, &board), 2);
    assert_eq!(count_live_neighbors(0, 1, &board), 3);
    assert_eq!(count_live_neighbors(0, 2, &board), 3);
    let next = next_board_state(&board);
    assert_eq!(next, vec![vec![true, true, true]]);
    assert_eq!(count_live_neighbors(0, 1, &next), 8);
    assert_eq!(next_board_state(&next), vec![vec![false, false, false]]);
}

#[test]
fn single_column_board_wraps_onto_itself() {
    let board: Vec<Vec<bool>> = vec![vec![false], vec![true], vec![false], vec![false]];
    assert_eq!(count_live_neighbors(0, 0, &board), 3);
    assert_eq!(count_live_neighbors(1, 0, &board), 2);
    assert_eq!(count_live_neighbors(2, 0, &board), 3);
    assert_eq!(count_live_neighbors(3, 0, &board), 0);
    assert_eq!(
        next_board_state(&board),
        vec![vec![true], vec![true], vec![true], vec![false]]
    );
}

#[test]
fn two_by_two_board_counts_each_other_cell_twice_or_four_times() {
    let board: Vec<Vec<bool>> = vec![vec![true, false], vec![false, false]];
    assert_eq!(count_live_neighbors(0, 0, &board), 0);
    assert_eq!(count_live_neighbors(0, 1, &board), 2);
    assert_eq!(count_live_neighbors(1, 0, &board), 2);
    assert_eq!(count_live_neighbors(1, 1, &board), 4);
    assert_eq!(
        next_board_state(&board),
        vec![vec![false, false], vec![false, false]]
    );
}

#[test]
fn block_is_a_still_life() {
    let board = board_with(4, 4, &[(1, 1), (1, 2), (2, 1), (2, 2)]);
    assert_eq!(next_board_state(&board), board);
}

#[test]
fn block_across_the_edges_is_a_still_life() {
    let board = board_with(4, 4, &[(3, 3), (3, 0), (0, 3), (0, 0)]);
    assert_eq!(next_board_state(&board), board);
    let board = board_with(5, 6, &[(4, 2), (4, 3), (0, 2), (0, 3)]);
    assert_eq!(next_board_state(&board), board);
}

#[test]
fn block_on_three_by_three_is_a_still_life() {
    let board = board_with(3, 3, &[(0, 0), (0, 1), (1, 0), (1, 1)]);
    assert_eq!(next_board_state(&board), board);
    let board = board_with(3, 5, &[(2, 4), (2, 0), (0, 4), (0, 0)]);
    assert_eq!(next_board_state(&board), board);
}

#[test]
fn block_on_two_rows_dies_of_crowding() {
    let board = board_with(2, 5, &[(0, 1), (0, 2), (1, 1), (1, 2)]);
    assert_eq!(count_live_neighbors(0, 1, &board), 5);
    assert_eq!(next_board_state(&board)[0][1], false);
}

#[test]
fn dead_cell_with_three_neighbors_is_born() {
    let board = board_with(3, 3, &[(0, 0), (0, 1), (1, 0)]);
    assert_eq!(count_live_neighbors(1, 1, &board), 3);
    let next = next_board_state(&board);
    assert!(next[1][1]);
    // On this torus every cell is next to every other: the three live
    // cells see two, the six dead ones see three.
    assert_eq!(next, vec![vec![true; 3]; 3]);
    assert_eq!(next_board_state(&next), vec![vec![false; 3]; 3]);
}

#[test]
fn birth_in_open_space() {
    let board = board_with(6, 6, &[(1, 1), (1, 2), (2, 1)]);
    let next = next_board_state(&board);
    assert_eq!(next, board_with(6, 6, &[(1, 1), (1, 2), (2, 1), (2, 2)]));
}

#[test]
fn lonely_cell_dies() {
    let board = board_with(5, 5, &[(2, 2)]);
    assert_eq!(count_live_neighbors(2, 2, &board), 0);
    let next = next_board_state(&board);
    assert!(!next[2][2]);
    assert_eq!(next, board_with(5, 5, &[]));
}

#[test]
fn cell_with_one_neighbor_dies() {
    let board = board_with(5, 5, &[(2, 2), (2, 3)]);
    assert_eq!(count_live_neighbors(2, 2, &board), 1);
    assert_eq!(count_live_neighbors(2, 3, &board), 1);
    let next = next_board_state(&board);
    assert!(!next[2][2]);
    assert!(!next[2][3]);
    assert_eq!(next, board_with(5, 5, &[]));
}

#[test]
fn crowded_cell_dies() {
    let board = board_with(5, 5, &[(1, 2), (2, 1), (2, 2), (2, 3), (3, 2)]);
    assert_eq!(count_live_neighbors(2, 2, &board), 4);
    let next = next_board_state(&board);
    assert!(!next[2][2]);
    let ring = board_with(
        5,
        5,
        &[(1, 1), (1, 2), (1, 3), (2, 1), (2, 3), (3, 1), (3, 2), (3, 3)],
    );
    assert_eq!(next, ring);
}

#[test]
fn cell_with_eight_neighbors_dies() {
    let board: Vec<Vec<bool>> = vec![vec![true; 4]; 4];
    assert_eq!(next_board_state(&board), vec![vec![false; 4]; 4]);
}

#[test]
fn blinker_has_period_two() {
    let flat = board_with(5, 5, &[(2, 1), (2, 2), (2, 3)]);
    let upright = board_with(5, 5, &[(1, 2), (2, 2), (3, 2)]);
    assert_eq!(next_board_state(&flat), upright);
    assert_eq!(next_board_state(&upright), flat);
}

#[test]
fn glider_moves_one_cell_diagonally_in_four_steps() {
    let start = board_with(6, 6, &[(0, 1), (1, 2), (2, 0), (2, 1), (2, 2)]);
    let mut board = start.clone();
    for _ in 0usize..4 {
        board = next_board_state(&board);
    }
    assert_eq!(
        board,
        board_with(6, 6, &[(1, 2), (2, 3), (3, 1), (3, 2), (3, 3)])
    );
    // After six times four steps on a six by six torus it is back.
    for _ in 0usize..20 {
        board = next_board_state(&board);
    }
    assert_eq!(board, start);
}

#[test]
fn step_keeps_the_shape() {
    let board = board_with(3, 7, &[(0, 0), (1, 3), (2, 6), (2, 5), (1, 6)]);
    let next = next_board_state(&board);
    assert_eq!(next.len(), 3);
    for row in &next {
        assert_eq!(row.len(), 7);
    }
    assert!(is_rectangular(&next));
}

#[test]
fn step_is_deterministic_and_leaves_its_input() {
    let board = board_with(4, 6, &[(0, 0), (0, 1), (1, 0), (3, 5), (2, 2), (2, 3), (1, 3)]);
    let before = board.clone();
    let first = next_board_state(&board);
    let second = next_board_state(&board);
    assert_eq!(first, second);
    assert_eq!(board, before);
    assert_ne!(first, board);
}

#[test]
fn board_without_cells_comes_back_as_it_is() {
    let none: Vec<Vec<bool>> = Vec::new();
    assert_eq!(next_board_state(&none), none);
    let hollow: Vec<Vec<bool>> = vec![Vec::new(), Vec::new(), Vec::new()];
    assert_eq!(next_board_state(&hollow), hollow);
}

#[test]
fn rectangular_boards_are_told_from_ragged_ones() {
    let none: Vec<Vec<bool>> = Vec::new();
    assert!(is_rectangular(&none));
    assert!(is_rectangular(&vec![Vec::<bool>::new(), Vec::new()]));
    assert!(is_rectangular(&vec![vec![true, false], vec![false, false]]));
    assert!(is_rectangular(&vec![vec![true]]));
    assert!(!is_rectangular(&vec![vec![true, false], vec![false]]));
    assert!(!is_rectangular(&vec![vec![true], vec![false, true]]));
    assert!(!is_rectangular(&vec![vec![], vec![false]]));
    assert!(!is_rectangular(&vec![
        vec![true, true],
        vec![true, true],
        vec![true, true, true]
    ]));
}
