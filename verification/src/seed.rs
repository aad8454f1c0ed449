//! The first generation: a board whose cells are drawn at random.
//!
//! The draws are made in one place and laid out in another:
//! [`initialize_board`] collects one draw for each cell, and
//! [`board_from_draws`] makes the board of them, row by row.

use vstd::prelude::*;
use rand::Rng;
use crate::grid::{grid_of, has_shape, live_count, rectangular, true_count};
use crate::laws::law_live_cells_are_true_draws;

verus! {

/// `rand::rngs::ThreadRng`, the handle to the thread-local generator. It is
/// carried through as it is; nothing is known of its state.
#[verifier::external_type_specification]
#[verifier::external_body]
pub struct ExThreadRng(rand::rngs::ThreadRng);

/// `rand::thread_rng` hands out the handle to the calling thread's
/// generator, which the system seeds on first use. Nothing is claimed of
/// the handle. Where the system cannot give a seed, the first call on a
/// thread panics.
pub assume_specification[ rand::thread_rng ]() -> (rng: rand::rngs::ThreadRng);

/// `rand::Rng::gen::<bool>` on the thread-local generator: one draw, `true`
/// or `false` with equal weight. The value depends on the generator's
/// state, so nothing is claimed of it. The generator reseeds itself from
/// the system from time to time, and after a fork; where the system then
/// gives no seed, or the fork handler cannot be registered, the call
/// panics.
#[verifier::external_body]
fn draw(rng: &mut rand::rngs::ThreadRng) -> (bit: bool) {
    rng.gen()
}

/// The grid of `rows` by `cols` cells that a sequence of draws fills row by
/// row: the cell in row `i` and column `j` is draw number `i * cols + j`.
pub open spec fn grid_from_draws(rows: int, cols: int, draws: Seq<bool>) -> Seq<Seq<bool>> {
    Seq::new(rows as nat, |i: int| Seq::new(cols as nat, |j: int| draws[i * cols + j]))
}

/// The draw of a cell has a number below `rows * cols`, and a row takes
/// `cols` numbers.
pub proof fn lemma_draw_index(rows: int, cols: int, i: int, j: int)
    requires
        0 <= i < rows,
        0 <= j < cols,
    ensures
        0 <= i * cols + j < rows * cols,
        (i + 1) * cols == i * cols + cols,
        (i + 1) * cols <= rows * cols,
{
    assert(0 <= i * cols && (i + 1) * cols == i * cols + cols && (i + 1) * cols <= rows * cols)
        by (nonlinear_arith)
        requires
            0 <= i < rows,
            0 <= cols,
    ;
}

/// Lays `draws` out as a board of `rows` rows and `cols` columns, row by
/// row: each cell is one draw, the cell in row `i` and column `j` draw
/// number `i * cols + j`, and every draw is the state of one cell. So the
/// board has as many live cells as there are `true` draws.
///
/// There must be as many draws as cells.
pub fn board_from_draws(rows: usize, cols: usize, draws: &Vec<bool>) -> (board: Vec<Vec<bool>>)
    requires
        draws@.len() == (rows as int) * (cols as int),
    ensures
        board@.len() == rows,
        forall|i: int| 0 <= i < rows ==> (#[trigger] board@[i])@.len() == cols,
        has_shape(grid_of(&board), rows as int, cols as int),
        rectangular(grid_of(&board)),
        grid_of(&board) == grid_from_draws(rows as int, cols as int, draws@),
        forall|i: int, j: int|
            0 <= i < rows && 0 <= j < cols ==> #[trigger] grid_of(&board)[i][j]
                == draws@[i * (cols as int) + j],
        live_count(grid_of(&board)) == true_count(draws@),
{
    let ghost want = grid_from_draws(rows as int, cols as int, draws@);
    let total = draws.len();
    let mut board: Vec<Vec<bool>> = Vec::new();
    let mut next: usize = 0;
    let mut i: usize = 0;
    while i < rows
        invariant
            i <= rows,
            total == draws@.len() == (rows as int) * (cols as int),
            next == (i as int) * (cols as int),
            board.len() == i,
            want == grid_from_draws(rows as int, cols as int, draws@),
            forall|k: int| 0 <= k < i ==> (#[trigger] board@[k])@ == want[k],
        decreases rows - i,
    {
        let mut row: Vec<bool> = Vec::new();
        let mut j: usize = 0;
        while j < cols
            invariant
                i < rows,
                j <= cols,
                total == draws@.len() == (rows as int) * (cols as int),
                next == (i as int) * (cols as int) + j,
                row.len() == j,
                forall|k: int| 0 <= k < j ==> #[trigger] row@[k] == draws@[i * (cols as int) + k],
            decreases cols - j,
        {
            proof {
                lemma_draw_index(rows as int, cols as int, i as int, j as int);
            }
            row.push(draws[next]);
            next += 1;
            j += 1;
        }
        proof {
            if cols > 0 {
                lemma_draw_index(rows as int, cols as int, i as int, 0);
            } else {
                assert((i as int) * 0 == 0 && (i as int + 1) * 0 == 0);
            }
            assert(row@ =~= want[i as int]);
        }
        board.push(row);
        i += 1;
    }
    proof {
        assert(grid_of(&board) =~= want);
        assert forall|r: int| 0 <= r < grid_of(&board).len() implies (#[trigger] grid_of(
            &board,
        )[r]).len() == cols by {
            assert(want[r].len() == cols);
        }
        law_live_cells_are_true_draws(rows as int, cols as int, draws@);
    }
    board
}

/// Makes a board of `rows` rows and `cols` columns and sets each cell,
/// independently of the others, alive or dead by one unbiased draw from
/// the thread-local random generator.
///
/// One draw is made for each cell, row by row, and the board is
/// [`board_from_draws`] of those draws. The board always has exactly the
/// requested shape. With `rows == 0` it has no rows, and with `cols == 0`
/// it has `rows` empty rows: such a board has no cell, and no draw is made
/// for it.
pub fn initialize_board(rows: usize, cols: usize) -> (board: Vec<Vec<bool>>)
    ensures
        board@.len() == rows,
        forall|i: int| 0 <= i < rows ==> (#[trigger] board@[i])@.len() == cols,
        has_shape(grid_of(&board), rows as int, cols as int),
        rectangular(grid_of(&board)),
{
    let mut rng = rand::thread_rng();
    let mut draws: Vec<bool> = Vec::new();
    let mut i: usize = 0;
    while i < rows
        invariant
            i <= rows,
            draws@.len() == (i as int) * (cols as int),
        decreases rows - i,
    {
        let mut j: usize = 0;
        while j < cols
            invariant
                i < rows,
                j <= cols,
                draws@.len() == (i as int) * (cols as int) + j,
            decreases cols - j,
        {
            let bit = draw(&mut rng);
            draws.push(bit);
            j += 1;
        }
        proof {
            if cols > 0 {
                lemma_draw_index(rows as int, cols as int, i as int, 0);
            } else {
                assert((i as int) * 0 == 0 && (i as int + 1) * 0 == 0);
            }
        }
        i += 1;
    }
    board_from_draws(rows, cols, &draws)
}

} // verus!
