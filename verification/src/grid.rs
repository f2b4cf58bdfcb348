//! The grid engine: a dense, bounded two-dimensional automaton with a
//! double-buffered state transition (each generation is computed entirely
//! from the previous one, so a step never reads the buffer it writes).

use rand::Rng;
use vstd::prelude::*;

verus! {

/// A bounded Game of Life board. Cell `(r, c)` is stored at index
/// `r * cols + c` of a dense row-major buffer; `true` means Alive.
pub struct Grid {
    rows: usize,
    cols: usize,
    cells: Vec<bool>,
}

/// 1 for an Alive cell, 0 for a Dead one; the unit of a neighbor count.
pub open spec fn bool_to_count(b: bool) -> int {
    if b {
        1
    } else {
        0
    }
}

impl Grid {
    /// Well-formedness: positive fixed dimensions and a dense buffer that
    /// holds exactly one state per coordinate of `[0, rows) x [0, cols)`.
    pub closed spec fn wf(self) -> bool {
        &&& self.rows >= 1
        &&& self.cols >= 1
        &&& self.rows * self.cols <= usize::MAX
        &&& self.cells.len() == self.rows * self.cols
    }

    pub closed spec fn spec_rows(self) -> int {
        self.rows as int
    }

    pub closed spec fn spec_cols(self) -> int {
        self.cols as int
    }

    /// The state of cell `(r, c)`: `true` iff Alive.
    pub closed spec fn spec_cell(self, r: int, c: int) -> bool {
        self.cells[r * self.spec_cols() + c]
    }

    /// Bounded topology: a coordinate outside `[0, rows) x [0, cols)`
    /// simply does not exist, so it never counts as Alive.
    pub open spec fn live_at(self, r: int, c: int) -> bool {
        &&& 0 <= r < self.spec_rows()
        &&& 0 <= c < self.spec_cols()
        &&& self.spec_cell(r, c)
    }

    /// How many of the up-to-8 grid-adjacent cells of `(r, c)` (Chebyshev
    /// distance 1) are Alive, never looking outside the grid.
    pub open spec fn neighbor_count(self, r: int, c: int) -> int {
        bool_to_count(self.live_at(r - 1, c - 1)) + bool_to_count(self.live_at(r - 1, c))
            + bool_to_count(self.live_at(r - 1, c + 1)) + bool_to_count(self.live_at(r, c - 1))
            + bool_to_count(self.live_at(r, c + 1)) + bool_to_count(self.live_at(r + 1, c - 1))
            + bool_to_count(self.live_at(r + 1, c)) + bool_to_count(self.live_at(r + 1, c + 1))
    }

    /// The classic Conway rule: a Dead cell becomes Alive iff it has exactly
    /// 3 Alive neighbors; an Alive cell stays Alive iff it has 2 or 3.
    pub open spec fn next_state(self, r: int, c: int) -> bool {
        let n = self.neighbor_count(r, c);
        if self.spec_cell(r, c) {
            n == 2 || n == 3
        } else {
            n == 3
        }
    }

    /// Allocates a grid of the given fixed dimensions with every cell Dead.
    /// Invalid (zero) dimensions are a construction-time precondition
    /// violation; callers must reject them before calling.
    pub fn new(rows: usize, cols: usize) -> (g: Grid)
        requires
            rows >= 1,
            cols >= 1,
            rows * cols <= usize::MAX,
        ensures
            g.wf(),
            g.spec_rows() == rows,
            g.spec_cols() == cols,
            forall|r: int, c: int| 0 <= r < rows && 0 <= c < cols ==> !g.spec_cell(r, c),
    {
        let n = rows * cols;
        let mut cells: Vec<bool> = Vec::new();
        let mut i: usize = 0;
        while i < n
            invariant
                i <= n,
                cells.len() == i,
                forall|k: int| 0 <= k < i ==> !cells[k],
            decreases n - i,
        {
            cells.push(false);
            i = i + 1;
        }
        let g = Grid { rows, cols, cells };
        proof {
            assert forall|r: int, c: int| 0 <= r < rows && 0 <= c < cols implies !g.spec_cell(
                r,
                c,
            ) by {
                lemma_row_major_index_in_range(rows as int, cols as int, r, c);
            }
        }
        g
    }

    pub fn rows(&self) -> (r: usize)
        ensures
            r == self.spec_rows(),
    {
        self.rows
    }

    pub fn cols(&self) -> (c: usize)
        ensures
            c == self.spec_cols(),
    {
        self.cols
    }

    /// Reads the state of one in-range cell.
    pub fn is_alive(&self, r: usize, c: usize) -> (b: bool)
        requires
            self.wf(),
            r < self.spec_rows(),
            c < self.spec_cols(),
        ensures
            b == self.spec_cell(r as int, c as int),
    {
        proof {
            lemma_row_major_index_in_range(
                self.spec_rows(),
                self.spec_cols(),
                r as int,
                c as int,
            );
        }
        self.cells[r * self.cols + c]
    }

    /// Overwrites the state of one in-range cell, leaving every other cell
    /// and the dimensions unchanged.
    pub fn set_cell(&mut self, r: usize, c: usize, alive: bool)
        requires
            old(self).wf(),
            r < old(self).spec_rows(),
            c < old(self).spec_cols(),
        ensures
            final(self).wf(),
            final(self).spec_rows() == old(self).spec_rows(),
            final(self).spec_cols() == old(self).spec_cols(),
            final(self).spec_cell(r as int, c as int) == alive,
            forall|r2: int, c2: int|
                0 <= r2 < old(self).spec_rows() && 0 <= c2 < old(self).spec_cols() && !(r2 == r
                    && c2 == c) ==> final(self).spec_cell(r2, c2) == old(self).spec_cell(r2, c2),
    {
        proof {
            lemma_row_major_index_in_range(
                self.spec_rows(),
                self.spec_cols(),
                r as int,
                c as int,
            );
        }
        let idx = r * self.cols + c;
        self.cells[idx] = alive;
        proof {
            assert forall|r2: int, c2: int|
                0 <= r2 < old(self).spec_rows() && 0 <= c2 < old(self).spec_cols() && !(r2 == r
                    && c2 == c) implies self.spec_cell(r2, c2) == old(self).spec_cell(r2, c2) by {
                lemma_row_major_index_in_range(
                    old(self).spec_rows(),
                    old(self).spec_cols(),
                    r2,
                    c2,
                );
                lemma_row_major_injective(
                    old(self).spec_rows(),
                    old(self).spec_cols(),
                    r as int,
                    c as int,
                    r2,
                    c2,
                );
            }
        }
    }

    /// Counts the Alive neighbors of `(r, c)`, testing each of the eight
    /// candidate offsets against the grid bounds before reading it.
    fn count_neighbors(&self, r: usize, c: usize) -> (n: u8)
        requires
            self.wf(),
            r < self.spec_rows(),
            c < self.spec_cols(),
        ensures
            n as int == self.neighbor_count(r as int, c as int),
    {
        let mut n: u8 = 0;
        if r > 0 {
            if c > 0 && self.is_alive(r - 1, c - 1) {
                n = n + 1;
            }
            if self.is_alive(r - 1, c) {
                n = n + 1;
            }
            if c + 1 < self.cols && self.is_alive(r - 1, c + 1) {
                n = n + 1;
            }
        }
        if c > 0 && self.is_alive(r, c - 1) {
            n = n + 1;
        }
        if c + 1 < self.cols && self.is_alive(r, c + 1) {
            n = n + 1;
        }
        if r + 1 < self.rows {
            if c > 0 && self.is_alive(r + 1, c - 1) {
                n = n + 1;
            }
            if self.is_alive(r + 1, c) {
                n = n + 1;
            }
            if c + 1 < self.cols && self.is_alive(r + 1, c + 1) {
                n = n + 1;
            }
        }
        n
    }

    /// Computes the next generation and replaces the current one atomically:
    /// every new state is a function of the prior generation alone, written
    /// to a scratch buffer, so the step never reads what it has written.
    pub fn step(&mut self)
        requires
            old(self).wf(),
        ensures
            final(self).wf(),
            final(self).spec_rows() == old(self).spec_rows(),
            final(self).spec_cols() == old(self).spec_cols(),
            forall|r: int, c: int|
                0 <= r < old(self).spec_rows() && 0 <= c < old(self).spec_cols()
                    ==> final(self).spec_cell(r, c) == old(self).next_state(r, c),
    {
        let rows = self.rows;
        let cols = self.cols;
        let mut next: Vec<bool> = Vec::new();
        let mut r: usize = 0;
        while r < rows
            invariant
                self.wf(),
                *self == *old(self),
                rows == self.spec_rows(),
                cols == self.spec_cols(),
                r <= rows,
                next.len() == r * cols,
                forall|r2: int, c2: int|
                    0 <= r2 < r && 0 <= c2 < cols ==> next[r2 * cols + c2]
                        == #[trigger] self.next_state(r2, c2),
            decreases rows - r,
        {
            let mut c: usize = 0;
            while c < cols
                invariant
                    self.wf(),
                    *self == *old(self),
                    rows == self.spec_rows(),
                    cols == self.spec_cols(),
                    r < rows,
                    c <= cols,
                    next.len() == r * cols + c,
                    forall|r2: int, c2: int|
                        0 <= r2 < r && 0 <= c2 < cols ==> next[r2 * cols + c2]
                            == #[trigger] self.next_state(r2, c2),
                    forall|c2: int|
                        0 <= c2 < c ==> next[r * cols + c2] == #[trigger] self.next_state(
                            r as int,
                            c2,
                        ),
                decreases cols - c,
            {
                proof {
                    lemma_row_major_index_in_range(rows as int, cols as int, r as int, c as int);
                }
                let alive = self.is_alive(r, c);
                let cnt = self.count_neighbors(r, c);
                let cell_next = if alive {
                    cnt == 2 || cnt == 3
                } else {
                    cnt == 3
                };
                next.push(cell_next);
                proof {
                    assert forall|r2: int, c2: int| 0 <= r2 < r && 0 <= c2 < cols implies next[r2
                        * cols + c2] == #[trigger] self.next_state(r2, c2) by {
                        lemma_row_major_index_in_range(r as int, cols as int, r2, c2);
                    }
                }
                c = c + 1;
            }
            proof {
                assert((r + 1) * cols == r * cols + cols) by (nonlinear_arith);
            }
            r = r + 1;
        }
        self.cells = next;
        proof {
            assert forall|r2: int, c2: int|
                0 <= r2 < old(self).spec_rows() && 0 <= c2 < old(self).spec_cols() implies self
                .spec_cell(r2, c2) == old(self).next_state(r2, c2) by {
                lemma_row_major_index_in_range(rows as int, cols as int, r2, c2);
            }
        }
    }

    /// Overwrites every cell independently with a uniformly random state.
    /// Which states come back is deliberately unspecified: only the
    /// dimensions and well-formedness survive the call.
    pub fn randomize(&mut self)
        requires
            old(self).wf(),
        ensures
            final(self).wf(),
            final(self).spec_rows() == old(self).spec_rows(),
            final(self).spec_cols() == old(self).spec_cols(),
    {
        let n = self.rows * self.cols;
        let mut fresh: Vec<bool> = Vec::new();
        let mut i: usize = 0;
        while i < n
            invariant
                i <= n,
                fresh.len() == i,
            decreases n - i,
        {
            let v = sample_binary();
            fresh.push(v == 1);
            i = i + 1;
        }
        self.cells = fresh;
    }

    /// Enumerates the coordinates of the Alive cells, in row-major order
    /// (outer index row, inner index col): a snapshot of the state at call
    /// time, with every coordinate in bounds and none listed twice.
    pub fn live_cells(&self) -> (out: Vec<(usize, usize)>)
        requires
            self.wf(),
        ensures
            forall|i: int|
                0 <= i < out.len() ==> (#[trigger] out[i]).0 < self.spec_rows() && out[i].1
                    < self.spec_cols() && self.spec_cell(out[i].0 as int, out[i].1 as int),
            forall|r: int, c: int|
                0 <= r < self.spec_rows() && 0 <= c < self.spec_cols() && #[trigger] self.spec_cell(
                    r,
                    c,
                ) ==> exists|i: int|
                    0 <= i < out.len() && #[trigger] out[i] == (r as usize, c as usize),
            forall|i: int, j: int|
                0 <= i < j < out.len() ==> (#[trigger] out[i]).0 < (#[trigger] out[j]).0 || (
                out[i].0 == out[j].0 && out[i].1 < out[j].1),
            forall|i: int, j: int| 0 <= i < j < out.len() ==> out[i] != out[j],
    {
        let rows = self.rows;
        let cols = self.cols;
        let mut out: Vec<(usize, usize)> = Vec::new();
        let mut r: usize = 0;
        while r < rows
            invariant
                self.wf(),
                rows == self.spec_rows(),
                cols == self.spec_cols(),
                r <= rows,
                forall|i: int|
                    0 <= i < out.len() ==> (#[trigger] out[i]).0 < r && out[i].1 < cols
                        && self.spec_cell(out[i].0 as int, out[i].1 as int),
                forall|r2: int, c2: int|
                    0 <= r2 < r && 0 <= c2 < cols && #[trigger] self.spec_cell(r2, c2) ==> exists|
                        i: int,
                    |
                        0 <= i < out.len() && #[trigger] out[i] == (r2 as usize, c2 as usize),
                forall|i: int, j: int|
                    0 <= i < j < out.len() ==> (#[trigger] out[i]).0 < (#[trigger] out[j]).0 || (
                    out[i].0 == out[j].0 && out[i].1 < out[j].1),
            decreases rows - r,
        {
            let mut c: usize = 0;
            while c < cols
                invariant
                    self.wf(),
                    rows == self.spec_rows(),
                    cols == self.spec_cols(),
                    r < rows,
                    c <= cols,
                    forall|i: int|
                        0 <= i < out.len() ==> ((#[trigger] out[i]).0 < r || (out[i].0 == r
                            && out[i].1 < c)) && out[i].1 < cols && self.spec_cell(
                            out[i].0 as int,
                            out[i].1 as int,
                        ),
                    forall|r2: int, c2: int|
                        0 <= r2 < rows && 0 <= c2 < cols && (r2 < r || (r2 == r && c2 < c))
                            && #[trigger] self.spec_cell(r2, c2) ==> exists|i: int|
                            0 <= i < out.len() && #[trigger] out[i] == (r2 as usize, c2 as usize),
                    forall|i: int, j: int|
                        0 <= i < j < out.len() ==> (#[trigger] out[i]).0 < (#[trigger] out[j]).0
                            || (out[i].0 == out[j].0 && out[i].1 < out[j].1),
                decreases cols - c,
            {
                let ghost out0 = out@;
                let pushed = self.is_alive(r, c);
                if pushed {
                    out.push((r, c));
                }
                proof {
                    assert forall|r2: int, c2: int|
                        0 <= r2 < rows && 0 <= c2 < cols && (r2 < r || (r2 == r && c2 < c + 1))
                            && #[trigger] self.spec_cell(r2, c2) implies exists|i: int|
                        0 <= i < out.len() && #[trigger] out[i] == (r2 as usize, c2 as usize) by {
                        if r2 == r && c2 == c {
                            assert(pushed);
                            assert(out[out0.len() as int] == (r2 as usize, c2 as usize));
                        } else {
                            let i = choose|i: int|
                                0 <= i < out0.len() && out0[i] == (r2 as usize, c2 as usize);
                            assert(out[i] == (r2 as usize, c2 as usize));
                        }
                    }
                }
                c = c + 1;
            }
            r = r + 1;
        }
        proof {
            assert forall|i: int, j: int| 0 <= i < j < out.len() implies out[i] != out[j] by {
                assert((#[trigger] out[i]).0 < (#[trigger] out[j]).0 || (out[i].0 == out[j].0
                    && out[i].1 < out[j].1));
            }
        }
        out
    }
}

/// Relies on `rand::thread_rng` and `rand::Rng::gen_range` over the
/// inclusive range `0..=1`: the sample lies within that (non-empty) range;
/// nothing is promised about which of the two values comes back.
#[verifier::external_body]
fn sample_binary() -> (v: u8)
    ensures
        v == 0 || v == 1,
{
    rand::thread_rng().gen_range(0..=1u8)
}

/// `g2` is exactly the next generation of `g1`: same dimensions, and every
/// cell carries the state the transition rule assigns it.
pub open spec fn is_next_generation(g2: Grid, g1: Grid) -> bool {
    &&& g2.spec_rows() == g1.spec_rows()
    &&& g2.spec_cols() == g1.spec_cols()
    &&& forall|r: int, c: int|
        0 <= r < g1.spec_rows() && 0 <= c < g1.spec_cols() ==> g2.spec_cell(r, c)
            == g1.next_state(r, c)
}

/// `g2` is `g1` evolved by exactly `k` generations.
pub open spec fn evolves_in(g1: Grid, g2: Grid, k: int) -> bool
    decreases k,
{
    if k <= 0 {
        k == 0 && g2 == g1
    } else {
        exists|mid: Grid| is_next_generation(mid, g1) && evolves_in(mid, g2, k - 1)
    }
}

/// Evolving `k` generations and then stepping once is evolving `k + 1`
/// generations.
pub proof fn lemma_evolves_extend(g1: Grid, g2: Grid, g3: Grid, k: int)
    requires
        k >= 0,
        evolves_in(g1, g2, k),
        is_next_generation(g3, g2),
    ensures
        evolves_in(g1, g3, k + 1),
    decreases k,
{
    if k == 0 {
        assert(is_next_generation(g3, g1) && evolves_in(g3, g3, 0));
    } else {
        let mid = choose|mid: Grid| is_next_generation(mid, g1) && evolves_in(mid, g2, k - 1);
        lemma_evolves_extend(mid, g2, g3, k - 1);
        assert(is_next_generation(mid, g1) && evolves_in(mid, g3, k));
    }
}

/// Underpopulation: a live cell with no Alive neighbors is Dead in the
/// next generation.
pub proof fn lemma_underpopulation(g: Grid, r: int, c: int)
    requires
        g.spec_cell(r, c),
        g.neighbor_count(r, c) == 0,
    ensures
        !g.next_state(r, c),
{
}

/// Overpopulation: a live cell with exactly 4 Alive neighbors is Dead in
/// the next generation.
pub proof fn lemma_overpopulation(g: Grid, r: int, c: int)
    requires
        g.spec_cell(r, c),
        g.neighbor_count(r, c) == 4,
    ensures
        !g.next_state(r, c),
{
}

/// Reproduction: a dead cell with exactly 3 Alive neighbors becomes Alive
/// in the next generation; with 2 or with 4 it stays Dead.
pub proof fn lemma_reproduction(g: Grid, r: int, c: int)
    requires
        !g.spec_cell(r, c),
    ensures
        g.neighbor_count(r, c) == 3 ==> g.next_state(r, c),
        g.neighbor_count(r, c) == 2 ==> !g.next_state(r, c),
        g.neighbor_count(r, c) == 4 ==> !g.next_state(r, c),
{
}

/// Bounded topology at the corner: the neighbor count of `(0, 0)` counts
/// only its three in-range neighbor slots — nothing outside
/// `[0, rows) x [0, cols)` ever contributes.
pub proof fn lemma_corner_neighbor_slots(g: Grid)
    ensures
        g.neighbor_count(0, 0) == bool_to_count(g.live_at(0, 1)) + bool_to_count(g.live_at(1, 0))
            + bool_to_count(g.live_at(1, 1)),
{
}

/// A row-major index of an in-range coordinate is in range of the buffer.
pub proof fn lemma_row_major_index_in_range(rows: int, cols: int, r: int, c: int)
    requires
        0 <= r < rows,
        0 <= c < cols,
    ensures
        0 <= r * cols + c < rows * cols,
{
    assert(0 <= r * cols + c < rows * cols) by (nonlinear_arith)
        requires
            0 <= r < rows,
            0 <= c < cols,
    ;
}

/// Distinct in-range coordinates have distinct row-major indices.
pub proof fn lemma_row_major_injective(rows: int, cols: int, r: int, c: int, r2: int, c2: int)
    requires
        0 <= r < rows,
        0 <= c < cols,
        0 <= r2 < rows,
        0 <= c2 < cols,
        !(r2 == r && c2 == c),
    ensures
        r2 * cols + c2 != r * cols + c,
{
    assert(r2 * cols + c2 != r * cols + c) by (nonlinear_arith)
        requires
            0 <= r < rows,
            0 <= c < cols,
            0 <= r2 < rows,
            0 <= c2 < cols,
            !(r2 == r && c2 == c),
    ;
}

} // verus!
