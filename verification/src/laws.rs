//! General properties of the engine, stated over the abstract model and
//! proved once for every grid.

use vstd::prelude::*;

use crate::engine::{adjust_rate_m, step_if_due_m, toggle_cell_m, toggle_running_m, Model};
use crate::life::{
    grid_wf, in_bounds, neighbor_count, step_grid, step_n, toggle, wrap_dec, wrap_inc,
};

verus! {

/// Toroidal wrap: cell (0, 0) is among the 8 neighbors of the opposite
/// corner (w-1, h-1), so when it is alive the corner's neighbor count
/// includes it.
pub proof fn lemma_wrap_corner(g: Seq<Seq<bool>>, w: int, h: int)
    requires
        grid_wf(g, w, h),
        w >= 1,
        h >= 1,
        g[0][0],
    ensures
        neighbor_count(g, w, h, w - 1, h - 1) >= 1,
{
    assert(wrap_inc(w - 1, w) == 0);
    assert(wrap_inc(h - 1, h) == 0);
}

/// Toroidal wrap, exactly: toggling cell (0, 0) moves the neighbor count of
/// the opposite corner by one, up when the cell comes alive and down when it
/// dies.  (On grids narrower than 3 in either direction the corner meets the
/// cell in more than one direction and the count moves by more.)
pub proof fn lemma_toggle_origin_counted_at_corner(g: Seq<Seq<bool>>, w: int, h: int)
    requires
        grid_wf(g, w, h),
        w >= 3,
        h >= 3,
    ensures
        neighbor_count(toggle(g, 0, 0), w, h, w - 1, h - 1) == neighbor_count(g, w, h, w - 1, h - 1)
            + (if g[0][0] {
            -1
        } else {
            1
        }),
{
    let g2 = toggle(g, 0, 0);
    assert(wrap_inc(w - 1, w) == 0);
    assert(wrap_inc(h - 1, h) == 0);
    assert(wrap_dec(w - 1, w) == w - 2);
    assert(wrap_dec(h - 1, h) == h - 2);
    assert(g2[0][0] == !g[0][0]);
    assert(g2[w - 2][h - 1] == g[w - 2][h - 1]);
    assert(g2[w - 2][h - 2] == g[w - 2][h - 2]);
    assert(g2[w - 1][h - 2] == g[w - 1][h - 2]);
    assert(g2[0][h - 2] == g[0][h - 2]);
    assert(g2[0][h - 1] == g[0][h - 1]);
    assert(g2[w - 1][0] == g[w - 1][0]);
    assert(g2[w - 2][0] == g[w - 2][0]);
}

/// Birth rule: a dead cell with exactly 3 alive neighbors is alive after one
/// step; with 2 or 4 alive neighbors it stays dead.
pub proof fn lemma_birth(g: Seq<Seq<bool>>, w: int, h: int, i: int, j: int)
    requires
        grid_wf(g, w, h),
        in_bounds(w, h, i, j),
        !g[i][j],
    ensures
        neighbor_count(g, w, h, i, j) == 3 ==> step_grid(g, w, h)[i][j],
        neighbor_count(g, w, h, i, j) == 2 ==> !step_grid(g, w, h)[i][j],
        neighbor_count(g, w, h, i, j) == 4 ==> !step_grid(g, w, h)[i][j],
{
}

/// Survival and death rule: an alive cell with 2 or 3 alive neighbors stays
/// alive; with fewer than 2 or more than 3 it dies.
pub proof fn lemma_survival(g: Seq<Seq<bool>>, w: int, h: int, i: int, j: int)
    requires
        grid_wf(g, w, h),
        in_bounds(w, h, i, j),
        g[i][j],
    ensures
        2 <= neighbor_count(g, w, h, i, j) <= 3 ==> step_grid(g, w, h)[i][j],
        neighbor_count(g, w, h, i, j) < 2 ==> !step_grid(g, w, h)[i][j],
        neighbor_count(g, w, h, i, j) > 3 ==> !step_grid(g, w, h)[i][j],
{
}

/// A grid that one step leaves unchanged is unchanged by any number of
/// steps.
pub proof fn lemma_still_life(g: Seq<Seq<bool>>, w: int, h: int, n: nat)
    requires
        step_grid(g, w, h) == g,
    ensures
        step_n(g, w, h, n) == g,
    decreases n,
{
    if n > 0 {
        lemma_still_life(g, w, h, (n - 1) as nat);
    }
}

/// The grid whose only alive cells are the 2 by 2 block with corner (c, r).
pub open spec fn block_grid(w: int, h: int, c: int, r: int) -> Seq<Seq<bool>> {
    Seq::new(
        w as nat,
        |i: int| Seq::new(h as nat, |j: int| (i == c || i == c + 1) && (j == r || j == r + 1)),
    )
}

/// Stability: the 2 by 2 block is a still life — any number of steps leaves
/// it exactly as it is.
pub proof fn lemma_block_still_life(w: int, h: int, c: int, r: int, n: nat)
    requires
        3 <= w,
        3 <= h,
        0 <= c,
        c + 1 < w,
        0 <= r,
        r + 1 < h,
    ensures
        step_grid(block_grid(w, h, c, r), w, h) == block_grid(w, h, c, r),
        step_n(block_grid(w, h, c, r), w, h, n) == block_grid(w, h, c, r),
{
    let g = block_grid(w, h, c, r);
    assert forall|i: int, j: int| in_bounds(w, h, i, j) implies #[trigger] step_grid(g, w, h)[i][j]
        == g[i][j] by {
        assert(0 <= wrap_dec(i, w) < w);
        assert(0 <= wrap_inc(i, w) < w);
        assert(0 <= wrap_dec(j, h) < h);
        assert(0 <= wrap_inc(j, h) < h);
    }
    assert(step_grid(g, w, h) =~~= g);
    lemma_still_life(g, w, h, n);
}

/// The grid whose only alive cells are the horizontal triple centered on
/// (c, r).
pub open spec fn blinker_row(w: int, h: int, c: int, r: int) -> Seq<Seq<bool>> {
    Seq::new(w as nat, |i: int| Seq::new(h as nat, |j: int| j == r && c - 1 <= i <= c + 1))
}

/// The grid whose only alive cells are the vertical triple centered on
/// (c, r).
pub open spec fn blinker_col(w: int, h: int, c: int, r: int) -> Seq<Seq<bool>> {
    Seq::new(w as nat, |i: int| Seq::new(h as nat, |j: int| i == c && r - 1 <= j <= r + 1))
}

/// Synchronous update: a horizontal blinker centered away from the edges
/// turns vertical in one step and is restored by a second — a period-2
/// oscillator.
pub proof fn lemma_blinker_oscillates(w: int, h: int, c: int, r: int)
    requires
        2 <= c,
        c + 2 < w,
        2 <= r,
        r + 2 < h,
    ensures
        step_grid(blinker_row(w, h, c, r), w, h) == blinker_col(w, h, c, r),
        step_grid(blinker_col(w, h, c, r), w, h) == blinker_row(w, h, c, r),
        step_n(blinker_row(w, h, c, r), w, h, 2) == blinker_row(w, h, c, r),
{
    let gr = blinker_row(w, h, c, r);
    let gc = blinker_col(w, h, c, r);
    assert forall|i: int, j: int| in_bounds(w, h, i, j) implies #[trigger] step_grid(gr, w, h)[i][j]
        == gc[i][j] by {
        assert(0 <= wrap_dec(i, w) < w);
        assert(0 <= wrap_inc(i, w) < w);
        assert(0 <= wrap_dec(j, h) < h);
        assert(0 <= wrap_inc(j, h) < h);
    }
    assert(step_grid(gr, w, h) =~~= gc);
    assert forall|i: int, j: int| in_bounds(w, h, i, j) implies #[trigger] step_grid(gc, w, h)[i][j]
        == gr[i][j] by {
        assert(0 <= wrap_dec(i, w) < w);
        assert(0 <= wrap_inc(i, w) < w);
        assert(0 <= wrap_dec(j, h) < h);
        assert(0 <= wrap_inc(j, h) < h);
    }
    assert(step_grid(gc, w, h) =~~= gr);
    assert(step_n(gr, w, h, 0) == gr);
    assert(step_n(gr, w, h, 1) == step_grid(step_n(gr, w, h, 0), w, h));
    assert(step_n(gr, w, h, 2) == step_grid(step_n(gr, w, h, 1), w, h));
}

/// The rate never drops below one generation per second, whatever the
/// adjustment.
pub proof fn lemma_rate_floor(m: Model, delta: int)
    ensures
        adjust_rate_m(m, delta).rate >= 1,
{
}

/// Idempotent toggle: toggling the same cell twice restores the whole state
/// exactly.
pub proof fn lemma_toggle_twice(m: Model, i: int, j: int)
    requires
        m.wf(),
        0 <= i < m.width,
        0 <= j < m.height,
    ensures
        toggle_cell_m(toggle_cell_m(m, i, j), i, j) == m,
{
    let g1 = toggle(m.grid, i, j);
    let g2 = toggle(g1, i, j);
    assert(g1[i][j] == !m.grid[i][j]);
    assert(g2 =~~= m.grid);
    assert(toggle_cell_m(toggle_cell_m(m, i, j), i, j) =~= m);
}

/// The state after a sequence of due-checks, one per elapsed span.
pub open spec fn run_elapsed(m: Model, es: Seq<int>) -> Model
    decreases es.len(),
{
    if es.len() == 0 {
        m
    } else {
        run_elapsed(step_if_due_m(m, es[0]), es.drop_first())
    }
}

/// Pause semantics: while paused, due-checks never move the grid, however
/// much time they report, and they drain the accumulator.  After un-pausing,
/// the next due-check steps exactly the generations owed by the time elapsed
/// since then at the configured rate — no backlog from the pause.
pub proof fn lemma_pause_semantics(m: Model, es: Seq<int>, e: int)
    requires
        !m.running,
    ensures
        run_elapsed(m, es).grid == m.grid,
        !run_elapsed(m, es).running,
        run_elapsed(m, es).rate == m.rate,
        run_elapsed(m, es).width == m.width,
        run_elapsed(m, es).height == m.height,
        es.len() > 0 ==> run_elapsed(m, es).accum == 0,
        es.len() > 0 ==> step_if_due_m(toggle_running_m(run_elapsed(m, es)), e).grid == step_n(
            m.grid,
            m.width,
            m.height,
            ((e * m.rate) / 1000) as nat,
        ),
    decreases es.len(),
{
    if es.len() > 0 {
        lemma_pause_semantics(step_if_due_m(m, es[0]), es.drop_first(), e);
    }
}

} // verus!
