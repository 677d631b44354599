//! The simulation engine: an owned state holding the grid, the running flag,
//! the stepping rate, and the timing accumulator that gates generations.
//!
//! The grid is stored column-major in one flat vector; the abstract view is
//! the two-dimensional grid of [`crate::life`], together with the control
//! fields.

use vstd::prelude::*;

use crate::life::{
    count1, dead_grid, grid_wf, in_bounds, neighbor_count, next_cell, step_grid, step_n, toggle,
    wrap_dec, wrap_inc,
};

verus! {

/// The abstract state of the engine: the grid as a sequence of columns plus
/// the control fields.
#[verifier::ext_equal]
pub ghost struct Model {
    pub width: int,
    pub height: int,
    pub grid: Seq<Seq<bool>>,
    pub rate: int,
    pub running: bool,
    /// Pending time, in thousandths of a generation at the current rate.
    pub accum: int,
}

impl Model {
    /// A well-formed abstract state: positive dimensions, a matching grid,
    /// a rate of at least one generation per second, and an accumulator that
    /// has not yet reached a whole generation.
    pub open spec fn wf(self) -> bool {
        &&& 1 <= self.width
        &&& 1 <= self.height
        &&& grid_wf(self.grid, self.width, self.height)
        &&& 1 <= self.rate <= u32::MAX
        &&& 0 <= self.accum < 1000
    }
}

/// The simulation engine state.
pub struct State {
    /// Cell states, column-major: cell `(i, j)` lives at index `i * height + j`.
    cells: Vec<bool>,
    width: usize,
    height: usize,
    /// Generations per second while running; at least 1.
    rate: u32,
    /// Whether the simulation advances when time elapses.
    running: bool,
    /// Elapsed running time not yet turned into generations, in thousandths
    /// of a generation (milliseconds times rate).
    accum: u64,
}

impl View for State {
    type V = Model;

    closed spec fn view(&self) -> Model {
        Model {
            width: self.width as int,
            height: self.height as int,
            grid: Seq::new(
                self.width as nat,
                |i: int| Seq::new(self.height as nat, |j: int| self.cells@[i * self.height + j]),
            ),
            rate: self.rate as int,
            running: self.running,
            accum: self.accum as int,
        }
    }
}

impl State {
    /// The concrete state matches its abstract view.
    pub closed spec fn wf(self) -> bool {
        &&& self@.wf()
        &&& self.cells@.len() == self.width * self.height
        &&& self.width * self.height <= usize::MAX
    }

    /// A well-formed engine has a well-formed abstract state.
    pub proof fn lemma_wf_view(self)
        requires
            self.wf(),
        ensures
            self@.wf(),
    {
    }

    /// A fresh engine: every cell dead, paused, one generation per second.
    /// The grid is the 40 by 40 board the interactive tool starts with.
    pub fn new() -> (s: State)
        ensures
            s.wf(),
            s@.width == 40,
            s@.height == 40,
            s@.grid == dead_grid(40, 40),
            s@.rate == 1,
            !s@.running,
            s@.accum == 0,
    {
        State::with_size(40, 40)
    }

    /// A fresh engine over a `width` by `height` grid: every cell dead,
    /// paused, one generation per second.
    pub fn with_size(width: usize, height: usize) -> (s: State)
        requires
            1 <= width,
            1 <= height,
            width * height <= usize::MAX,
        ensures
            s.wf(),
            s@.width == width,
            s@.height == height,
            s@.grid == dead_grid(width as int, height as int),
            s@.rate == 1,
            !s@.running,
            s@.accum == 0,
    {
        let n = width * height;
        let mut cells: Vec<bool> = Vec::new();
        let mut k: usize = 0;
        while k < n
            invariant
                k <= n,
                cells@.len() == k,
                forall|x: int| 0 <= x < k ==> !(#[trigger] cells@[x]),
            decreases n - k,
        {
            cells.push(false);
            k = k + 1;
        }
        let s = State { cells, width, height, rate: 1, running: false, accum: 0 };
        proof {
            assert forall|i: int, j: int|
                0 <= i < width && 0 <= j < height implies !(#[trigger] s@.grid[i][j]) by {
                lemma_flat_index_bounds(width as int, height as int, i, j);
            }
            assert(s@.grid =~~= dead_grid(width as int, height as int));
        }
        s
    }

    /// The number of columns.
    pub fn width(&self) -> (w: usize)
        ensures
            w == self@.width,
    {
        self.width
    }

    /// The number of rows.
    pub fn height(&self) -> (h: usize)
        ensures
            h == self@.height,
    {
        self.height
    }

    /// Read-only query of one cell, for the renderer.
    pub fn cell_at(&self, col: usize, row: usize) -> (alive: bool)
        requires
            self.wf(),
            col < self@.width,
            row < self@.height,
        ensures
            alive == self@.grid[col as int][row as int],
    {
        proof {
            lemma_flat_index_bounds(self.width as int, self.height as int, col as int, row as int);
        }
        self.cells[col * self.height + row]
    }

    /// Read-only query of the stepping rate, for on-screen display.
    pub fn current_rate(&self) -> (r: u32)
        ensures
            r == self@.rate,
    {
        self.rate
    }

    /// Whether the simulation is advancing.
    pub fn is_running(&self) -> (b: bool)
        ensures
            b == self@.running,
    {
        self.running
    }

    /// The number of alive cells among the 8 toroidal neighbors of `(i, j)`,
    /// mirroring [`neighbor_count`].
    #[verifier::spinoff_prover]
    #[verifier::rlimit(100)]
    fn live_neighbors(&self, i: usize, j: usize) -> (n: u8)
        requires
            self.wf(),
            i < self@.width,
            j < self@.height,
        ensures
            n as int == neighbor_count(self@.grid, self@.width, self@.height, i as int, j as int),
    {
        let l = if i > 0 {
            i - 1
        } else {
            self.width - 1
        };
        let r = if i < self.width - 1 {
            i + 1
        } else {
            0
        };
        let u = if j > 0 {
            j - 1
        } else {
            self.height - 1
        };
        let d = if j < self.height - 1 {
            j + 1
        } else {
            0
        };
        proof {
            assert(l as int == wrap_dec(i as int, self@.width));
            assert(r as int == wrap_inc(i as int, self@.width));
            assert(u as int == wrap_dec(j as int, self@.height));
            assert(d as int == wrap_inc(j as int, self@.height));
        }
        let c1: u8 = if self.cell_at(l, j) {
            1
        } else {
            0
        };
        let c2: u8 = if self.cell_at(l, u) {
            1
        } else {
            0
        };
        let c3: u8 = if self.cell_at(i, u) {
            1
        } else {
            0
        };
        let c4: u8 = if self.cell_at(r, u) {
            1
        } else {
            0
        };
        let c5: u8 = if self.cell_at(r, j) {
            1
        } else {
            0
        };
        let c6: u8 = if self.cell_at(r, d) {
            1
        } else {
            0
        };
        let c7: u8 = if self.cell_at(i, d) {
            1
        } else {
            0
        };
        let c8: u8 = if self.cell_at(l, d) {
            1
        } else {
            0
        };
        let total = c1 + c2 + c3 + c4 + c5 + c6 + c7 + c8;
        proof {
            let g = self@.grid;
            let wi = self@.width;
            let hi = self@.height;
            assert(c1 as int == count1(g[wrap_dec(i as int, wi)][j as int]));
            assert(c2 as int == count1(g[wrap_dec(i as int, wi)][wrap_dec(j as int, hi)]));
            assert(c3 as int == count1(g[i as int][wrap_dec(j as int, hi)]));
            assert(c4 as int == count1(g[wrap_inc(i as int, wi)][wrap_dec(j as int, hi)]));
            assert(c5 as int == count1(g[wrap_inc(i as int, wi)][j as int]));
            assert(c6 as int == count1(g[wrap_inc(i as int, wi)][wrap_inc(j as int, hi)]));
            assert(c7 as int == count1(g[i as int][wrap_inc(j as int, hi)]));
            assert(c8 as int == count1(g[wrap_dec(i as int, wi)][wrap_inc(j as int, hi)]));
            assert(total as int == neighbor_count(g, wi, hi, i as int, j as int));
        }
        total
    }

    /// One synchronous generation.  The whole grid is scanned against the
    /// pre-step snapshot and the cells that must flip are collected first;
    /// the flips are applied as a batch afterwards, so no cell's decision
    /// sees another cell's already-updated value.
    pub fn step(&mut self)
        requires
            old(self).wf(),
        ensures
            final(self).wf(),
            final(self)@.grid == step_grid(old(self)@.grid, old(self)@.width, old(self)@.height),
            final(self)@.width == old(self)@.width,
            final(self)@.height == old(self)@.height,
            final(self)@.rate == old(self)@.rate,
            final(self)@.running == old(self)@.running,
            final(self)@.accum == old(self)@.accum,
    {
        let ghost m0 = self@;
        let w = self.width;
        let h = self.height;
        let mut flips: Vec<(usize, usize)> = Vec::new();
        let mut i: usize = 0;
        while i < w
            invariant
                self.wf(),
                self@ == m0,
                w == self@.width,
                h == self@.height,
                i <= w,
                forall|k: int|
                    0 <= k < flips@.len() ==> (#[trigger] flips@[k]).0 < i && flips@[k].1 < h
                        && must_flip(m0, flips@[k].0 as int, flips@[k].1 as int),
                forall|a: int, b: int|
                    0 <= a < i && 0 <= b < h && #[trigger] must_flip(m0, a, b)
                        ==> flips@.contains((a as usize, b as usize)),
                forall|k1: int, k2: int|
                    0 <= k1 < k2 < flips@.len() ==> flips@[k1] != flips@[k2],
            decreases w - i,
        {
            let mut j: usize = 0;
            while j < h
                invariant
                    self.wf(),
                    self@ == m0,
                    w == self@.width,
                    h == self@.height,
                    i < w,
                    j <= h,
                    forall|k: int|
                        0 <= k < flips@.len() ==> ((#[trigger] flips@[k]).0 < i || (flips@[k].0
                            == i && flips@[k].1 < j)) && flips@[k].1 < h && must_flip(
                            m0,
                            flips@[k].0 as int,
                            flips@[k].1 as int,
                        ),
                    forall|a: int, b: int|
                        0 <= a < w && 0 <= b < h && (a < i || (a == i && b < j))
                            && #[trigger] must_flip(m0, a, b) ==> flips@.contains(
                            (a as usize, b as usize),
                        ),
                    forall|k1: int, k2: int|
                        0 <= k1 < k2 < flips@.len() ==> flips@[k1] != flips@[k2],
                decreases h - j,
            {
                let alive = self.cell_at(i, j);
                let n = self.live_neighbors(i, j);
                let ghost old_flips = flips@;
                if (alive && (n < 2 || n > 3)) || (!alive && n == 3) {
                    flips.push((i, j));
                    proof {
                        assert forall|a: int, b: int|
                            0 <= a < w && 0 <= b < h && (a < i || (a == i && b < j + 1))
                                && #[trigger] must_flip(m0, a, b) implies flips@.contains(
                            (a as usize, b as usize),
                        ) by {
                            if a == i && b == j {
                                assert(flips@[old_flips.len() as int] == (i, j));
                            } else {
                                let t = choose|t: int|
                                    0 <= t < old_flips.len() && old_flips[t] == (
                                    a as usize,
                                    b as usize,
                                );
                                assert(flips@[t] == (a as usize, b as usize));
                            }
                        }
                    }
                }
                j = j + 1;
            }
            i = i + 1;
        }
        let n = flips.len();
        let mut k: usize = 0;
        while k < n
            invariant
                self.wf(),
                k <= n,
                n == flips@.len(),
                self@.width == m0.width,
                self@.height == m0.height,
                self@.rate == m0.rate,
                self@.running == m0.running,
                self@.accum == m0.accum,
                m0.wf(),
                forall|t: int|
                    0 <= t < flips@.len() ==> (#[trigger] flips@[t]).0 < m0.width && flips@[t].1
                        < m0.height && must_flip(m0, flips@[t].0 as int, flips@[t].1 as int),
                forall|a: int, b: int|
                    0 <= a < m0.width && 0 <= b < m0.height && #[trigger] must_flip(m0, a, b)
                        ==> flips@.contains((a as usize, b as usize)),
                forall|k1: int, k2: int|
                    0 <= k1 < k2 < flips@.len() ==> flips@[k1] != flips@[k2],
                forall|a: int, b: int|
                    0 <= a < m0.width && 0 <= b < m0.height ==> #[trigger] self@.grid[a][b] == (
                    if flips@.take(k as int).contains((a as usize, b as usize)) {
                        !m0.grid[a][b]
                    } else {
                        m0.grid[a][b]
                    }),
            decreases n - k,
        {
            let pair = flips[k];
            let ci = pair.0;
            let cj = pair.1;
            proof {
                lemma_flat_index_bounds(m0.width, m0.height, ci as int, cj as int);
            }
            let idx = ci * self.height + cj;
            let cur = self.cells[idx];
            let ghost prev = self@;
            self.cells[idx] = !cur;
            proof {
                let ghost before = flips@.take(k as int);
                let ghost after = flips@.take(k as int + 1);
                assert(after =~= before.push(flips@[k as int]));
                if before.contains((ci, cj)) {
                    let t = choose|t: int| 0 <= t < before.len() && before[t] == (ci, cj);
                    assert(flips@[t] == flips@[k as int]);
                    assert(false);
                }
                assert forall|a: int, b: int|
                    0 <= a < m0.width && 0 <= b < m0.height implies #[trigger] self@.grid[a][b]
                    == (if after.contains((a as usize, b as usize)) {
                    !m0.grid[a][b]
                } else {
                    m0.grid[a][b]
                }) by {
                    lemma_flat_index_bounds(m0.width, m0.height, a, b);
                    assert(prev.grid[a][b] == (if before.contains((a as usize, b as usize)) {
                        !m0.grid[a][b]
                    } else {
                        m0.grid[a][b]
                    }));
                    if a == ci as int && b == cj as int {
                        assert(cur == prev.grid[a][b]);
                        assert(self@.grid[a][b] == !cur);
                        assert(after[k as int] == (ci, cj));
                        assert(after.contains((ci, cj)));
                    } else {
                        if a * m0.height + b == ci * m0.height + cj {
                            lemma_flat_index_injective(m0.height, a, b, ci as int, cj as int);
                        }
                        assert(self@.grid[a][b] == prev.grid[a][b]);
                        assert(after.contains((a as usize, b as usize)) <==> before.contains(
                            (a as usize, b as usize),
                        )) by {
                            if before.contains((a as usize, b as usize)) {
                                let t = choose|t: int|
                                    0 <= t < before.len() && before[t] == (a as usize, b as usize);
                                assert(after[t] == (a as usize, b as usize));
                            }
                            if after.contains((a as usize, b as usize)) {
                                let t = choose|t: int|
                                    0 <= t < after.len() && after[t] == (a as usize, b as usize);
                                assert(t != k as int);
                                assert(before[t] == (a as usize, b as usize));
                            }
                        }
                    }
                }
            }
            k = k + 1;
        }
        proof {
            assert forall|a: int, b: int|
                0 <= a < m0.width && 0 <= b < m0.height implies #[trigger] self@.grid[a][b]
                == step_grid(m0.grid, m0.width, m0.height)[a][b] by {
                assert(flips@.take(n as int) =~= flips@);
                if must_flip(m0, a, b) {
                    assert(flips@.contains((a as usize, b as usize)));
                } else {
                    if flips@.contains((a as usize, b as usize)) {
                        let t = choose|t: int|
                            0 <= t < flips@.len() && flips@[t] == (a as usize, b as usize);
                        assert(must_flip(m0, flips@[t].0 as int, flips@[t].1 as int));
                        assert(false);
                    }
                }
            }
            assert(self@.grid =~~= step_grid(m0.grid, m0.width, m0.height));
        }
    }

    /// Flip the addressed cell.  The caller guarantees in-range coordinates:
    /// the pixel-to-cell mapping clamps or rejects before calling.
    pub fn toggle_cell(&mut self, col: usize, row: usize)
        requires
            old(self).wf(),
            col < old(self)@.width,
            row < old(self)@.height,
        ensures
            final(self).wf(),
            final(self)@ == toggle_cell_m(old(self)@, col as int, row as int),
    {
        let ghost m0 = self@;
        proof {
            lemma_flat_index_bounds(m0.width, m0.height, col as int, row as int);
        }
        let idx = col * self.height + row;
        let cur = self.cells[idx];
        self.cells[idx] = !cur;
        proof {
            assert forall|a: int, b: int|
                0 <= a < m0.width && 0 <= b < m0.height implies #[trigger] self@.grid[a][b]
                == toggle(m0.grid, col as int, row as int)[a][b] by {
                lemma_flat_index_bounds(m0.width, m0.height, a, b);
                if !(a == col as int && b == row as int) {
                    if a * m0.height + b == col * m0.height + row {
                        lemma_flat_index_injective(m0.height, a, b, col as int, row as int);
                    }
                }
            }
            assert(self@.grid =~~= toggle(m0.grid, col as int, row as int));
            assert(self@ =~= toggle_cell_m(m0, col as int, row as int));
        }
    }

    /// Set the running flag; only future stepping is affected.
    pub fn set_running(&mut self, flag: bool)
        requires
            old(self).wf(),
        ensures
            final(self).wf(),
            final(self)@ == set_running_m(old(self)@, flag),
    {
        let ghost m0 = self@;
        self.running = flag;
        proof {
            assert(self@.grid =~~= m0.grid);
            assert(self@ =~= set_running_m(m0, flag));
        }
    }

    /// Flip the running flag.  A held key must not reach this repeatedly:
    /// suppressing auto-repeat is the input dispatcher's responsibility.
    pub fn toggle_running(&mut self)
        requires
            old(self).wf(),
        ensures
            final(self).wf(),
            final(self)@ == toggle_running_m(old(self)@),
    {
        let ghost m0 = self@;
        self.running = !self.running;
        proof {
            assert(self@.grid =~~= m0.grid);
            assert(self@ =~= toggle_running_m(m0));
        }
    }

    /// Add `delta` to the rate, clamped to at least 1 generation per second.
    /// The grid and the running flag are untouched.
    pub fn adjust_rate(&mut self, delta: i32)
        requires
            old(self).wf(),
        ensures
            final(self).wf(),
            final(self)@ == adjust_rate_m(old(self)@, delta as int),
    {
        let ghost m0 = self@;
        let wanted: i64 = self.rate as i64 + delta as i64;
        self.rate = if wanted < 1 {
            1
        } else if wanted > u32::MAX as i64 {
            u32::MAX
        } else {
            wanted as u32
        };
        proof {
            assert(self@.grid =~~= m0.grid);
            assert(self@ =~= adjust_rate_m(m0, delta as int));
        }
    }

    /// Clear the grid: every cell dead.  The running flag and the rate are
    /// untouched.
    pub fn reset(&mut self)
        requires
            old(self).wf(),
        ensures
            final(self).wf(),
            final(self)@ == reset_m(old(self)@),
    {
        let ghost m0 = self@;
        let n = self.cells.len();
        let mut k: usize = 0;
        while k < n
            invariant
                k <= n,
                n == self.cells@.len(),
                self@.width == m0.width,
                self@.height == m0.height,
                self@.rate == m0.rate,
                self@.running == m0.running,
                self@.accum == m0.accum,
                forall|x: int| 0 <= x < k ==> !(#[trigger] self.cells@[x]),
            decreases n - k,
        {
            self.cells[k] = false;
            k = k + 1;
        }
        proof {
            assert forall|a: int, b: int|
                0 <= a < m0.width && 0 <= b < m0.height implies !(#[trigger] self@.grid[a][b]) by {
                lemma_flat_index_bounds(m0.width, m0.height, a, b);
            }
            assert(self@.grid =~~= dead_grid(m0.width, m0.height));
            assert(self@ =~= reset_m(m0));
        }
    }

    /// Offer `elapsed_ms` milliseconds of wall-clock time to the engine and
    /// advance the generations they owe at the current rate.  While paused
    /// the time is discarded — the grid never moves and no backlog builds up
    /// — so un-pausing starts the count afresh.  While running, every owed
    /// generation is stepped (owed-generations catch-up, as when frames
    /// lag), and the remainder below one generation stays accumulated.
    /// Returns the number of generations advanced.
    pub fn step_if_due(&mut self, elapsed_ms: u64) -> (steps: u64)
        requires
            old(self).wf(),
            old(self)@.accum + elapsed_ms as int * old(self)@.rate <= u64::MAX as int,
        ensures
            final(self).wf(),
            final(self)@ == step_if_due_m(old(self)@, elapsed_ms as int),
            steps as int == due_steps_m(old(self)@, elapsed_ms as int),
    {
        let ghost m0 = self@;
        if !self.running {
            self.accum = 0;
            proof {
                assert(self@.grid =~~= m0.grid);
                assert(self@ =~= step_if_due_m(m0, elapsed_ms as int));
            }
            return 0;
        }
        let total: u64 = self.accum + elapsed_ms * (self.rate as u64);
        let owed: u64 = total / 1000;
        self.accum = total % 1000;
        proof {
            assert(self@.grid =~~= m0.grid);
        }
        let mut k: u64 = 0;
        while k < owed
            invariant
                self.wf(),
                k <= owed,
                self@.width == m0.width,
                self@.height == m0.height,
                self@.rate == m0.rate,
                self@.running == m0.running,
                self@.accum == total % 1000,
                self@.grid == step_n(m0.grid, m0.width, m0.height, k as nat),
            decreases owed - k,
        {
            self.step();
            k = k + 1;
        }
        proof {
            assert(owed as int == due_steps_m(m0, elapsed_ms as int));
            assert(self@ =~= step_if_due_m(m0, elapsed_ms as int));
        }
        owed
    }
}

/// Whether the rule flips the cell at `(i, j)` of the grid of `m`.
spec fn must_flip(m: Model, i: int, j: int) -> bool {
    next_cell(m.grid, m.width, m.height, i, j) != m.grid[i][j]
}

/// The abstract effect of toggling cell `(i, j)`: only that cell flips.
pub open spec fn toggle_cell_m(m: Model, i: int, j: int) -> Model {
    Model { grid: toggle(m.grid, i, j), ..m }
}

/// The abstract effect of setting the running flag: nothing else moves.
pub open spec fn set_running_m(m: Model, flag: bool) -> Model {
    Model { running: flag, ..m }
}

/// The abstract effect of flipping the running flag: nothing else moves.
pub open spec fn toggle_running_m(m: Model) -> Model {
    Model { running: !m.running, ..m }
}

/// A rate adjusted by `delta` and clamped to at least 1 generation per
/// second; the machine word puts the only ceiling on it.
pub open spec fn clamp_rate(r: int) -> int {
    if r < 1 {
        1
    } else if r > u32::MAX as int {
        u32::MAX as int
    } else {
        r
    }
}

/// The abstract effect of adjusting the rate: the grid is untouched.
pub open spec fn adjust_rate_m(m: Model, delta: int) -> Model {
    Model { rate: clamp_rate(m.rate + delta), ..m }
}

/// The abstract effect of a reset: every cell dead, everything else kept.
pub open spec fn reset_m(m: Model) -> Model {
    Model { grid: dead_grid(m.width, m.height), ..m }
}

/// How many whole generations `elapsed_ms` milliseconds owe at the rate of
/// `m`, on top of the time already accumulated; zero while paused.
pub open spec fn due_steps_m(m: Model, elapsed_ms: int) -> int {
    if m.running {
        (m.accum + elapsed_ms * m.rate) / 1000
    } else {
        0
    }
}

/// The abstract effect of offering `elapsed_ms` milliseconds to the engine:
/// while paused the time is discarded, so un-pausing never releases a
/// backlog; while running, the owed generations are stepped and the
/// remainder below one generation stays accumulated.
pub open spec fn step_if_due_m(m: Model, elapsed_ms: int) -> Model {
    if !m.running {
        Model { accum: 0, ..m }
    } else {
        Model {
            grid: step_n(m.grid, m.width, m.height, due_steps_m(m, elapsed_ms) as nat),
            accum: (m.accum + elapsed_ms * m.rate) % 1000,
            ..m
        }
    }
}

/// A cell address maps into the flat, column-major cell vector.
pub proof fn lemma_flat_index_bounds(w: int, h: int, i: int, j: int)
    requires
        in_bounds(w, h, i, j),
    ensures
        0 <= i * h + j < w * h,
{
    assert(0 <= i * h + j < w * h) by (nonlinear_arith)
        requires
            0 <= i < w,
            0 <= j < h,
    ;
}

/// Distinct cell addresses map to distinct flat indices.
pub proof fn lemma_flat_index_injective(h: int, i1: int, j1: int, i2: int, j2: int)
    requires
        0 <= j1 < h,
        0 <= j2 < h,
        0 <= i1,
        0 <= i2,
        i1 * h + j1 == i2 * h + j2,
    ensures
        i1 == i2,
        j1 == j2,
{
    assert(i1 == i2 && j1 == j2) by (nonlinear_arith)
        requires
            0 <= j1 < h,
            0 <= j2 < h,
            0 <= i1,
            0 <= i2,
            i1 * h + j1 == i2 * h + j2,
    ;
}

} // verus!
