//! The transition engine: the toroidal neighbour count and the step from
//! one generation to the next.

use vstd::prelude::*;
use crate::grid::{
    grid_of, has_shape, height, inhabited, lemma_wrap_in_range, lemma_wrap_steps, live_neighbors,
    next_cell, next_generation, rectangular, steps_to, width, wrap,
};
use crate::laws::{law_next_generation_is_the_step, law_shape_preserved};

verus! {

/// The state of a cell in the next generation, from its state now and the
/// number of its live neighbours.
///
/// A live cell with fewer than two or more than three live neighbours dies,
/// one with two or three lives on, a dead cell with exactly three comes
/// alive, and every other cell stays as it is.
pub fn next_cell_state(cell: bool, live_neighbors: usize) -> (next: bool)
    ensures
        next == next_cell(cell, live_neighbors as int),
{
    if cell && (live_neighbors < 2 || live_neighbors > 3) {
        false
    } else if cell && (live_neighbors == 2 || live_neighbors == 3) {
        true
    } else if !cell && live_neighbors == 3 {
        true
    } else {
        cell
    }
}

/// The position before `i` on a ring of `n` positions.
fn step_back(i: usize, n: usize) -> (k: usize)
    requires
        i < n,
    ensures
        k < n,
        k == wrap(i as int, -1, n as int),
{
    proof {
        lemma_wrap_steps(i as int, n as int);
    }
    if i == 0 {
        n - 1
    } else {
        i - 1
    }
}

/// The position after `i` on a ring of `n` positions.
fn step_forward(i: usize, n: usize) -> (k: usize)
    requires
        i < n,
    ensures
        k < n,
        k == wrap(i as int, 1, n as int),
{
    proof {
        lemma_wrap_steps(i as int, n as int);
    }
    if i == n - 1 {
        0
    } else {
        i + 1
    }
}

/// One if the cell `(r, c)` is alive, zero if it is dead.
fn alive_count(board: &Vec<Vec<bool>>, r: usize, c: usize) -> (n: usize)
    requires
        inhabited(grid_of(board)),
        r < height(grid_of(board)),
        c < width(grid_of(board)),
    ensures
        n == (if grid_of(board)[r as int][c as int] { 1int } else { 0int }),
{
    assert(grid_of(board)[r as int] == board@[r as int]@);
    if board[r][c] {
        1
    } else {
        0
    }
}

/// Whether every row of `board` has the same length.
pub fn is_rectangular(board: &Vec<Vec<bool>>) -> (ok: bool)
    ensures
        ok == rectangular(grid_of(board)),
{
    if board.len() == 0 {
        return true;
    }
    let cols = board[0].len();
    let ghost g = grid_of(board);
    assert(g[0] == board@[0]@);
    let mut i: usize = 1;
    while i < board.len()
        invariant
            1 <= i <= board.len(),
            g == grid_of(board),
            cols == width(g),
            forall|k: int| 0 <= k < i ==> (#[trigger] g[k]).len() == cols,
        decreases board.len() - i,
    {
        assert(g[i as int] == board@[i as int]@);
        if board[i].len() != cols {
            return false;
        }
        i += 1;
    }
    true
}

/// Counts the live cells among the eight neighbours of the cell in row `y`
/// and column `x`, on the torus: the row above the first is the last, the
/// column after the last is the first.
///
/// The board must be rectangular and hold at least one cell. A coordinate
/// beyond the board stands for its position on the ring (`y` for
/// `y % rows`). On a board with fewer than three rows or columns some of
/// the eight positions coincide, with each other or with the cell itself;
/// each of the eight is still counted.
pub fn count_live_neighbors(y: usize, x: usize, board: &Vec<Vec<bool>>) -> (count: usize)
    requires
        inhabited(grid_of(board)),
    ensures
        count == live_neighbors(grid_of(board), y as int, x as int),
        count <= 8,
{
    let ghost g = grid_of(board);
    let rows = board.len();
    assert(g[0] == board@[0]@);
    let cols = board[0].len();
    let mid_y = y % rows;
    let mid_x = x % cols;
    proof {
        lemma_wrap_in_range(y as int, -1, rows as int);
        lemma_wrap_in_range(y as int, 0, rows as int);
        lemma_wrap_in_range(y as int, 1, rows as int);
        lemma_wrap_in_range(x as int, -1, cols as int);
        lemma_wrap_in_range(x as int, 0, cols as int);
        lemma_wrap_in_range(x as int, 1, cols as int);
        lemma_wrap_steps(mid_y as int, rows as int);
        lemma_wrap_steps(mid_x as int, cols as int);
    }
    let up = step_back(mid_y, rows);
    let down = step_forward(mid_y, rows);
    let left = step_back(mid_x, cols);
    let right = step_forward(mid_x, cols);
    let above = alive_count(board, up, left) + alive_count(board, up, mid_x) + alive_count(board, up, right);
    let beside = alive_count(board, mid_y, left) + alive_count(board, mid_y, right);
    let below = alive_count(board, down, left) + alive_count(board, down, mid_x)
        + alive_count(board, down, right);
    above + beside + below
}

/// Computes the next generation of `board` as a new board; `board` itself
/// is only read.
///
/// The result has the shape of `board`, and each of its cells is what the
/// rule makes of that cell and its eight toroidal neighbours in `board`.
/// A board without rows, or with empty rows, has no cell and comes back as
/// it is.
pub fn next_board_state(board: &Vec<Vec<bool>>) -> (next: Vec<Vec<bool>>)
    requires
        rectangular(grid_of(board)),
    ensures
        next@.len() == board@.len(),
        forall|i: int| 0 <= i < board@.len() ==> (#[trigger] next@[i])@.len() == board@[i]@.len(),
        has_shape(grid_of(&next), height(grid_of(board)), width(grid_of(board))),
        rectangular(grid_of(&next)),
        grid_of(&next) == next_generation(grid_of(board)),
        steps_to(grid_of(board), grid_of(&next)),
{
    let ghost g = grid_of(board);
    let rows = board.len();
    let mut next: Vec<Vec<bool>> = Vec::new();
    let mut i: usize = 0;
    while i < rows
        invariant
            i <= rows,
            rows == board.len(),
            g == grid_of(board),
            rectangular(g),
            next.len() == i,
            forall|k: int| 0 <= k < i ==> (#[trigger] next@[k])@ == next_generation(g)[k],
        decreases rows - i,
    {
        assert(g[i as int] == board@[i as int]@);
        let cols = board[i].len();
        let mut row: Vec<bool> = Vec::new();
        let mut j: usize = 0;
        while j < cols
            invariant
                i < rows,
                j <= cols,
                rows == board.len(),
                cols == board@[i as int]@.len(),
                g == grid_of(board),
                rectangular(g),
                row.len() == j,
                forall|k: int|
                    0 <= k < j ==> #[trigger] row@[k] == next_cell(
                        g[i as int][k],
                        live_neighbors(g, i as int, k),
                    ),
            decreases cols - j,
        {
            assert(g[i as int] == board@[i as int]@);
            let n = count_live_neighbors(i, j, board);
            let cell = board[i][j];
            row.push(next_cell_state(cell, n));
            j += 1;
        }
        assert(row@ =~= next_generation(g)[i as int]);
        next.push(row);
        i += 1;
    }
    proof {
        assert(grid_of(&next) =~= next_generation(g));
        law_shape_preserved(g);
        law_next_generation_is_the_step(g, next_generation(g));
    }
    next
}

} // verus!
