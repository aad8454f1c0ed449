//! What holds of every board and every step, proved over the model of
//! [`crate::grid`].

use vstd::prelude::*;
use vstd::arithmetic::div_mod::{
    lemma_div_pos_is_pos, lemma_fundamental_div_mod, lemma_fundamental_div_mod_converse,
    lemma_mod_bound, lemma_multiply_divide_lt, lemma_small_mod,
};
use crate::grid::{
    alive_at, has_shape, height, inhabited, lemma_wrap_in_range, lemma_wrap_steps, live_count,
    live_neighbors, neighbor, next_generation, rectangular, steps_to, true_count, width, wrap,
};
use crate::seed::{grid_from_draws, lemma_draw_index};

verus! {

/// A step keeps the shape: the next generation has as many rows as `g`,
/// and each row keeps its length. So an `R` by `C` grid steps to an `R` by
/// `C` grid.
pub proof fn law_shape_preserved(g: Seq<Seq<bool>>)
    ensures
        next_generation(g).len() == g.len(),
        forall|i: int| 0 <= i < g.len() ==> (#[trigger] next_generation(g)[i]).len() == g[i].len(),
        rectangular(g) ==> has_shape(next_generation(g), height(g), width(g)),
        rectangular(g) ==> rectangular(next_generation(g)),
        width(next_generation(g)) == width(g),
{
    let n = next_generation(g);
    if rectangular(g) {
        assert forall|i: int| 0 <= i < n.len() implies (#[trigger] n[i]).len() == width(g) by {
            assert(g[i].len() == width(g));
        }
    }
}

/// A grid is a step from `g` exactly if it is the next generation of `g`.
pub proof fn law_next_generation_is_the_step(g: Seq<Seq<bool>>, h: Seq<Seq<bool>>)
    ensures
        steps_to(g, h) <==> h == next_generation(g),
{
    let n = next_generation(g);
    if steps_to(g, h) {
        assert forall|i: int| 0 <= i < g.len() implies h[i] == n[i] by {
            assert(h[i] =~= n[i]);
        }
        assert(h =~= n);
    }
}

/// A step is determined by the grid it starts from: two grids that are
/// both a step from `g` are the same grid, so stepping twice from one
/// board gives one result.
pub proof fn law_step_deterministic(g: Seq<Seq<bool>>, h1: Seq<Seq<bool>>, h2: Seq<Seq<bool>>)
    requires
        steps_to(g, h1),
        steps_to(g, h2),
    ensures
        h1 == h2,
{
    law_next_generation_is_the_step(g, h1);
    law_next_generation_is_the_step(g, h2);
}

/// Each of the eight neighbours of a cell is a cell of the grid, whatever
/// the cell's coordinates, and the count lies between zero and eight.
pub proof fn law_neighbors_on_the_grid(g: Seq<Seq<bool>>, r: int, c: int)
    requires
        inhabited(g),
    ensures
        forall|dy: int, dx: int|
            0 <= #[trigger] wrap(r, dy, height(g)) < height(g) && 0 <= #[trigger] wrap(
                c,
                dx,
                width(g),
            ) < width(g),
        0 <= live_neighbors(g, r, c) <= 8,
{
    assert forall|dy: int, dx: int|
        0 <= #[trigger] wrap(r, dy, height(g)) < height(g) && 0 <= #[trigger] wrap(
            c,
            dx,
            width(g),
        ) < width(g) by {
        lemma_wrap_in_range(r, dy, height(g));
        lemma_wrap_in_range(c, dx, width(g));
    }
}

/// Away from the edges a neighbour is the cell at the plain sum of the
/// coordinates.
pub proof fn law_neighbor_inside(g: Seq<Seq<bool>>, r: int, c: int, dy: int, dx: int)
    requires
        inhabited(g),
        0 <= r + dy < height(g),
        0 <= c + dx < width(g),
    ensures
        neighbor(g, r, c, dy, dx) == g[r + dy][c + dx],
{
    lemma_small_mod((r + dy) as nat, height(g) as nat);
    lemma_small_mod((c + dx) as nat, width(g) as nat);
}

/// The grid is a torus: above the first row lies the last row, below the
/// last row the first, and likewise for the columns; across a corner lies
/// the opposite corner.
pub proof fn law_edges_meet(g: Seq<Seq<bool>>, r: int, c: int)
    requires
        inhabited(g),
        0 <= r < height(g),
        0 <= c < width(g),
    ensures
        neighbor(g, 0, c, -1, 0) == g[height(g) - 1][c],
        neighbor(g, height(g) - 1, c, 1, 0) == g[0][c],
        neighbor(g, r, 0, 0, -1) == g[r][width(g) - 1],
        neighbor(g, r, width(g) - 1, 0, 1) == g[r][0],
        neighbor(g, height(g) - 1, width(g) - 1, 1, 1) == g[0][0],
        neighbor(g, 0, 0, -1, -1) == g[height(g) - 1][width(g) - 1],
{
    lemma_wrap_steps(0, height(g));
    lemma_wrap_steps(height(g) - 1, height(g));
    lemma_wrap_steps(0, width(g));
    lemma_wrap_steps(width(g) - 1, width(g));
    lemma_wrap_steps(r, height(g));
    lemma_wrap_steps(c, width(g));
}

/// Birth: a dead cell with exactly three live neighbours is alive in the
/// next generation.
pub proof fn law_birth(g: Seq<Seq<bool>>, r: int, c: int)
    requires
        0 <= r < g.len(),
        0 <= c < g[r].len(),
        !g[r][c],
        live_neighbors(g, r, c) == 3,
    ensures
        next_generation(g)[r][c],
{
}

/// Death: a live cell with fewer than two live neighbours, or with more
/// than three, is dead in the next generation.
pub proof fn law_death(g: Seq<Seq<bool>>, r: int, c: int)
    requires
        0 <= r < g.len(),
        0 <= c < g[r].len(),
        g[r][c],
        live_neighbors(g, r, c) < 2 || live_neighbors(g, r, c) > 3,
    ensures
        !next_generation(g)[r][c],
{
}

/// Survival: a live cell with two or three live neighbours stays alive.
pub proof fn law_survival(g: Seq<Seq<bool>>, r: int, c: int)
    requires
        0 <= r < g.len(),
        0 <= c < g[r].len(),
        g[r][c],
        live_neighbors(g, r, c) == 2 || live_neighbors(g, r, c) == 3,
    ensures
        next_generation(g)[r][c],
{
}

/// A dead cell whose number of live neighbours is not three stays dead.
pub proof fn law_stays_dead(g: Seq<Seq<bool>>, r: int, c: int)
    requires
        0 <= r < g.len(),
        0 <= c < g[r].len(),
        !g[r][c],
        live_neighbors(g, r, c) != 3,
    ensures
        !next_generation(g)[r][c],
{
}

/// The rule looks at nothing but the cell and its eight neighbours: two
/// grids of one shape that agree on those nine cells give the cell the
/// same next state.
pub proof fn law_step_is_local(g: Seq<Seq<bool>>, h: Seq<Seq<bool>>, r: int, c: int)
    requires
        0 <= r < g.len(),
        0 <= c < g[r].len(),
        h.len() == g.len(),
        h[r].len() == g[r].len(),
        width(h) == width(g),
        forall|dy: int, dx: int|
            -1 <= dy <= 1 && -1 <= dx <= 1 ==> #[trigger] neighbor(h, r, c, dy, dx) == neighbor(
                g,
                r,
                c,
                dy,
                dx,
            ),
        h[r][c] == g[r][c],
    ensures
        next_generation(h)[r][c] == next_generation(g)[r][c],
{
    assert(alive_at(h, r, c, -1, -1) == alive_at(g, r, c, -1, -1));
    assert(alive_at(h, r, c, -1, 0) == alive_at(g, r, c, -1, 0));
    assert(alive_at(h, r, c, -1, 1) == alive_at(g, r, c, -1, 1));
    assert(alive_at(h, r, c, 0, -1) == alive_at(g, r, c, 0, -1));
    assert(alive_at(h, r, c, 0, 1) == alive_at(g, r, c, 0, 1));
    assert(alive_at(h, r, c, 1, -1) == alive_at(g, r, c, 1, -1));
    assert(alive_at(h, r, c, 1, 0) == alive_at(g, r, c, 1, 0));
    assert(alive_at(h, r, c, 1, 1) == alive_at(g, r, c, 1, 1));
}

/// The grid of `rows` by `cols` cells whose only live cells are the two by
/// two block with its upper left cell at `(r, c)`; the block runs on across
/// an edge where `r` is the last row or `c` the last column.
pub open spec fn block_grid(rows: int, cols: int, r: int, c: int) -> Seq<Seq<bool>> {
    Seq::new(
        rows as nat,
        |i: int|
            Seq::new(
                cols as nat,
                |j: int| (i == r || i == wrap(r, 1, rows)) && (j == c || j == wrap(c, 1, cols)),
            ),
    )
}

/// The block is a still life: on a grid of at least three rows and three
/// columns, a two by two block of live cells among dead ones steps to
/// itself, wherever it lies. (With only two rows or columns the block
/// meets itself round the torus and dies of crowding.)
pub proof fn law_block_is_still(rows: int, cols: int, r: int, c: int)
    requires
        rows >= 3,
        cols >= 3,
        0 <= r < rows,
        0 <= c < cols,
    ensures
        next_generation(block_grid(rows, cols, r, c)) == block_grid(rows, cols, r, c),
{
    let b = block_grid(rows, cols, r, c);
    let n = next_generation(b);
    lemma_wrap_steps(r, rows);
    lemma_wrap_steps(c, cols);
    assert(b[0].len() == cols);
    assert forall|i: int| 0 <= i < rows implies #[trigger] n[i] == b[i] by {
        lemma_wrap_steps(i, rows);
        assert forall|j: int| 0 <= j < cols implies #[trigger] n[i][j] == b[i][j] by {
            lemma_wrap_steps(j, cols);
        }
        assert(n[i] =~= b[i]);
    }
    assert(n =~= b);
}

/// No two cells share a draw: cells whose draws have the same number are
/// the same cell.
pub proof fn law_one_draw_per_cell(rows: int, cols: int, i1: int, j1: int, i2: int, j2: int)
    requires
        0 <= i1 < rows,
        0 <= j1 < cols,
        0 <= i2 < rows,
        0 <= j2 < cols,
        i1 * cols + j1 == i2 * cols + j2,
    ensures
        i1 == i2,
        j1 == j2,
{
    lemma_fundamental_div_mod_converse(i1 * cols + j1, cols, i1, j1);
    lemma_fundamental_div_mod_converse(i2 * cols + j2, cols, i2, j2);
}

/// No draw is left out: where there are as many draws as cells, draw
/// number `k` is the state of the cell in row `k / cols` and column
/// `k % cols`.
pub proof fn law_one_cell_per_draw(rows: int, cols: int, draws: Seq<bool>, k: int)
    requires
        0 <= rows,
        0 <= cols,
        draws.len() == rows * cols,
        0 <= k < draws.len(),
    ensures
        0 <= k / cols < rows,
        0 <= k % cols < cols,
        (k / cols) * cols + k % cols == k,
        grid_from_draws(rows, cols, draws)[k / cols][k % cols] == draws[k],
{
    assert(cols > 0) by (nonlinear_arith)
        requires
            rows * cols > 0,
            cols >= 0,
    ;
    lemma_fundamental_div_mod(k, cols);
    lemma_mod_bound(k, cols);
    lemma_div_pos_is_pos(k, cols);
    assert(cols * rows == rows * cols) by (nonlinear_arith);
    lemma_multiply_divide_lt(k, cols, rows);
    assert((k / cols) * cols == cols * (k / cols)) by (nonlinear_arith);
}

/// The count of a sequence followed by another is the sum of their counts.
pub proof fn lemma_true_count_concat(a: Seq<bool>, b: Seq<bool>)
    ensures
        true_count(a + b) == true_count(a) + true_count(b),
    decreases b.len(),
{
    if b.len() == 0 {
        assert(a + b =~= a);
    } else {
        assert((a + b).drop_last() =~= a + b.drop_last());
        assert((a + b).last() == b.last());
        lemma_true_count_concat(a, b.drop_last());
    }
}

/// A board laid out from draws has as many live cells as there are `true`
/// draws: every draw is counted, and none twice.
pub proof fn law_live_cells_are_true_draws(rows: int, cols: int, draws: Seq<bool>)
    requires
        0 <= rows,
        0 <= cols,
        draws.len() == rows * cols,
    ensures
        live_count(grid_from_draws(rows, cols, draws)) == true_count(draws),
    decreases rows,
{
    let g = grid_from_draws(rows, cols, draws);
    if rows == 0 {
        assert(rows * cols == 0) by (nonlinear_arith)
            requires
                rows == 0,
        ;
    } else {
        let m = (rows - 1) * cols;
        assert(0 <= m && m + cols == rows * cols) by (nonlinear_arith)
            requires
                m == (rows - 1) * cols,
                rows >= 1,
                cols >= 0,
        ;
        let head = draws.subrange(0, m);
        let tail = draws.subrange(m, draws.len() as int);
        assert(draws =~= head + tail);
        assert(g.last() =~= tail);
        let rest = grid_from_draws(rows - 1, cols, head);
        assert forall|i: int| 0 <= i < rows - 1 implies #[trigger] g.drop_last()[i] == rest[i] by {
            assert forall|j: int| 0 <= j < cols implies g[i][j] == #[trigger] rest[i][j] by {
                lemma_draw_index(rows - 1, cols, i, j);
            }
            assert(g.drop_last()[i] =~= rest[i]);
        }
        assert(g.drop_last() =~= rest);
        law_live_cells_are_true_draws(rows - 1, cols, head);
        lemma_true_count_concat(head, tail);
    }
}

} // verus!
