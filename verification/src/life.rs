//! The mathematical model of the Game of Life on a toroidal grid.
//!
//! A grid of `w` columns and `h` rows is a sequence of `w` columns, each a
//! sequence of `h` booleans; `g[i][j]` is the cell in column `i`, row `j`.
//! The grid wraps around: the neighbor to the left of column 0 is column
//! `w - 1`, and symmetrically on every edge.

use vstd::prelude::*;

verus! {

/// A well-formed `w` by `h` grid: `w` columns, each of `h` rows.
pub open spec fn grid_wf(g: Seq<Seq<bool>>, w: int, h: int) -> bool {
    &&& g.len() == w
    &&& forall|i: int| 0 <= i < w ==> (#[trigger] g[i]).len() == h
}

/// `(i, j)` addresses a cell of a `w` by `h` grid.
pub open spec fn in_bounds(w: int, h: int, i: int, j: int) -> bool {
    &&& 0 <= i < w
    &&& 0 <= j < h
}

/// The toroidal predecessor of index `i` on a ring of `n` positions.
pub open spec fn wrap_dec(i: int, n: int) -> int {
    if i == 0 {
        n - 1
    } else {
        i - 1
    }
}

/// The toroidal successor of index `i` on a ring of `n` positions.
pub open spec fn wrap_inc(i: int, n: int) -> int {
    if i == n - 1 {
        0
    } else {
        i + 1
    }
}

/// An alive cell counts for one.
pub open spec fn count1(b: bool) -> int {
    if b {
        1
    } else {
        0
    }
}

/// The number of alive cells among the 8 toroidal neighbors of `(i, j)`.
pub open spec fn neighbor_count(g: Seq<Seq<bool>>, w: int, h: int, i: int, j: int) -> int {
    let l = wrap_dec(i, w);
    let r = wrap_inc(i, w);
    let u = wrap_dec(j, h);
    let d = wrap_inc(j, h);
    count1(g[l][j]) + count1(g[l][u]) + count1(g[i][u]) + count1(g[r][u]) + count1(g[r][j])
        + count1(g[r][d]) + count1(g[i][d]) + count1(g[l][d])
}

/// The Life transition for one cell, judged against the pre-step grid:
/// an alive cell survives with 2 or 3 alive neighbors, a dead cell is born
/// with exactly 3; every other cell is dead afterwards.
pub open spec fn next_cell(g: Seq<Seq<bool>>, w: int, h: int, i: int, j: int) -> bool {
    let n = neighbor_count(g, w, h, i, j);
    if g[i][j] {
        2 <= n && n <= 3
    } else {
        n == 3
    }
}

/// One synchronous generation: every cell is judged against the same
/// pre-step grid.
pub open spec fn step_grid(g: Seq<Seq<bool>>, w: int, h: int) -> Seq<Seq<bool>> {
    Seq::new(w as nat, |i: int| Seq::new(h as nat, |j: int| next_cell(g, w, h, i, j)))
}

/// `n` consecutive generations.
pub open spec fn step_n(g: Seq<Seq<bool>>, w: int, h: int, n: nat) -> Seq<Seq<bool>>
    decreases n,
{
    if n == 0 {
        g
    } else {
        step_grid(step_n(g, w, h, (n - 1) as nat), w, h)
    }
}

/// The grid with the cell at `(i, j)` flipped.
pub open spec fn toggle(g: Seq<Seq<bool>>, i: int, j: int) -> Seq<Seq<bool>> {
    g.update(i, g[i].update(j, !g[i][j]))
}

/// The all-dead `w` by `h` grid.
pub open spec fn dead_grid(w: int, h: int) -> Seq<Seq<bool>> {
    Seq::new(w as nat, |i: int| Seq::new(h as nat, |j: int| false))
}

} // verus!
