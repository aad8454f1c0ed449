//! The mathematical model of a board and of one generation step.

use vstd::prelude::*;
use vstd::arithmetic::div_mod::{
    lemma_add_mod_noop_right, lemma_mod_add_multiples_vanish, lemma_mod_self_0, lemma_small_mod,
};

verus! {

/// The board as a sequence of rows, each a sequence of cell states
/// (`true` is alive).
pub open spec fn grid_of(board: &Vec<Vec<bool>>) -> Seq<Seq<bool>> {
    Seq::new(board@.len(), |i: int| board@[i]@)
}

/// Number of rows of a grid.
pub open spec fn height(g: Seq<Seq<bool>>) -> int {
    g.len() as int
}

/// Number of columns of a grid: the length of its first row, and zero for
/// a grid without rows.
pub open spec fn width(g: Seq<Seq<bool>>) -> int {
    if g.len() == 0 {
        0
    } else {
        g[0].len() as int
    }
}

/// Every row has the same length.
pub open spec fn rectangular(g: Seq<Seq<bool>>) -> bool {
    forall|i: int| 0 <= i < g.len() ==> (#[trigger] g[i]).len() == width(g)
}

/// A rectangular grid with at least one cell.
pub open spec fn inhabited(g: Seq<Seq<bool>>) -> bool {
    &&& rectangular(g)
    &&& height(g) > 0
    &&& width(g) > 0
}

/// `g` has exactly `rows` rows of `cols` cells each.
pub open spec fn has_shape(g: Seq<Seq<bool>>, rows: int, cols: int) -> bool {
    &&& g.len() == rows
    &&& forall|i: int| 0 <= i < g.len() ==> (#[trigger] g[i]).len() == cols
}

/// The number of `true` values in a sequence.
pub open spec fn true_count(s: Seq<bool>) -> nat
    decreases s.len(),
{
    if s.len() == 0 {
        0
    } else {
        true_count(s.drop_last()) + (if s.last() {
            1nat
        } else {
            0nat
        })
    }
}

/// The number of live cells of a grid.
pub open spec fn live_count(g: Seq<Seq<bool>>) -> nat
    decreases g.len(),
{
    if g.len() == 0 {
        0
    } else {
        live_count(g.drop_last()) + true_count(g.last())
    }
}

/// The coordinate reached from `i` by the step `d` on a ring of `n`
/// positions. The remainder is the mathematical one, so the result lies in
/// `0..n` also where `i + d` is negative.
pub open spec fn wrap(i: int, d: int, n: int) -> int {
    (i + d) % n
}

/// The state of the cell that lies `dy` rows and `dx` columns away from
/// `(r, c)` on the torus.
pub open spec fn neighbor(g: Seq<Seq<bool>>, r: int, c: int, dy: int, dx: int) -> bool {
    g[wrap(r, dy, height(g))][wrap(c, dx, width(g))]
}

/// One if that cell is alive, zero if it is dead.
pub open spec fn alive_at(g: Seq<Seq<bool>>, r: int, c: int, dy: int, dx: int) -> int {
    if neighbor(g, r, c, dy, dx) {
        1
    } else {
        0
    }
}

/// The number of live cells among the eight positions around `(r, c)`,
/// each coordinate wrapped round its axis. On a grid with fewer than three
/// rows or columns several of the eight positions are the same cell, or the
/// cell `(r, c)` itself; each position still counts once.
pub open spec fn live_neighbors(g: Seq<Seq<bool>>, r: int, c: int) -> int {
    alive_at(g, r, c, -1, -1) + alive_at(g, r, c, -1, 0) + alive_at(g, r, c, -1, 1)
        + alive_at(g, r, c, 0, -1) + alive_at(g, r, c, 0, 1)
        + alive_at(g, r, c, 1, -1) + alive_at(g, r, c, 1, 0) + alive_at(g, r, c, 1, 1)
}

/// The rule of Life: a cell is alive in the next generation exactly if it
/// has three live neighbours, or is alive and has two.
pub open spec fn next_cell(alive: bool, n: int) -> bool {
    n == 3 || (alive && n == 2)
}

/// The next generation: the rule applied to every cell of `g` at once.
pub open spec fn next_generation(g: Seq<Seq<bool>>) -> Seq<Seq<bool>> {
    Seq::new(
        g.len(),
        |i: int| Seq::new(g[i].len(), |j: int| next_cell(g[i][j], live_neighbors(g, i, j))),
    )
}

/// `h` is what one step makes of `g`: the same shape, and every cell as the
/// rule says.
pub open spec fn steps_to(g: Seq<Seq<bool>>, h: Seq<Seq<bool>>) -> bool {
    &&& h.len() == g.len()
    &&& forall|i: int| 0 <= i < g.len() ==> (#[trigger] h[i]).len() == g[i].len()
    &&& forall|i: int, j: int|
        0 <= i < g.len() && 0 <= j < g[i].len() ==> #[trigger] h[i][j] == next_cell(
            g[i][j],
            live_neighbors(g, i, j),
        )
}

/// A wrapped coordinate lies on the ring; the wrap of `i` is that of
/// `i % n`, so only the position on the ring matters; and a whole turn
/// added before the remainder is taken changes nothing.
pub proof fn lemma_wrap_in_range(i: int, d: int, n: int)
    requires
        n > 0,
    ensures
        0 <= wrap(i, d, n) < n,
        wrap(i, d, n) == wrap(i % n, d, n),
        wrap(i, d, n) == (i + d + n) % n,
{
    lemma_mod_add_multiples_vanish(i + d, n);
    assert(n + (i + d) == i + d + n);
    lemma_add_mod_noop_right(d, i, n);
    assert(d + i % n == i % n + d);
    assert(d + i == i + d);
}

/// One step back, no step and one step forward from a position on the
/// ring: the step back from `0` lands on `n - 1`, the step forward from
/// `n - 1` lands on `0`.
pub proof fn lemma_wrap_steps(i: int, n: int)
    requires
        0 <= i < n,
    ensures
        wrap(i, -1, n) == (if i == 0 { n - 1 } else { i - 1 }),
        wrap(i, 0, n) == i,
        wrap(i, 1, n) == (if i == n - 1 { 0 } else { i + 1 }),
{
    lemma_small_mod(i as nat, n as nat);
    if i == 0 {
        lemma_mod_add_multiples_vanish(-1, n);
        lemma_small_mod((n - 1) as nat, n as nat);
    } else {
        lemma_small_mod((i - 1) as nat, n as nat);
    }
    if i == n - 1 {
        lemma_mod_self_0(n);
    } else {
        lemma_small_mod((i + 1) as nat, n as nat);
    }
}

} // verus!
