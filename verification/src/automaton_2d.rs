//! The generic two-dimensional engine: two equally shaped buffers of cell
//! values, a transition rule, and a colour map.

use vstd::prelude::*;

pub mod color_gradient;

verus! {

use crate::grid::{
    grid_view, is_grid, rect, von_neumann_at, moore_at, Rule2D, in_region, on_border, step_rel,
    grid_cell, grid_von_neumann, grid_moore, copy_grid, lemma_view_after_cell_write,
};
use crate::random::choose_from;
use crate::{ColorMap, EngineError};

/// A two-dimensional cellular automaton over cell values of type `T`.
///
/// `cells` is the readable generation; `temp` is the write target of the next
/// step.  Both buffers always have `m` rows of `n` columns, and in
/// fixed-border mode their outermost rings agree, so that a step, which only
/// writes the interior of `temp` before swapping, keeps the border frozen.
pub struct Automaton2D<T, R, C> {
    pub m: usize,
    pub n: usize,
    pub q: u32,
    pub states: Vec<T>,
    pub torus: bool,
    pub rule: R,
    pub color: C,
    pub cells: Vec<Vec<T>>,
    pub temp: Vec<Vec<T>>,
}

impl<T: Copy, R: Rule2D<T>, C: ColorMap<T>> Automaton2D<T, R, C> {
    /// The readable generation.
    pub open spec fn grid(&self) -> Seq<Seq<T>> {
        grid_view(self.cells)
    }

    /// The back buffer a step writes into.
    pub open spec fn back(&self) -> Seq<Seq<T>> {
        grid_view(self.temp)
    }

    /// Both buffers have the declared shape, and in fixed-border mode their
    /// borders agree.
    pub open spec fn wf(&self) -> bool {
        &&& is_grid(self.grid(), self.m as int, self.n as int)
        &&& is_grid(self.back(), self.m as int, self.n as int)
        &&& !self.torus ==> forall|i: int, j: int|
            0 <= i < self.m && 0 <= j < self.n && on_border(self.m as int, self.n as int, i, j)
                ==> #[trigger] self.back()[i][j] == self.grid()[i][j]
    }

    /// Everything but the two buffers is as in `other`.
    pub open spec fn same_config(&self, other: &Self) -> bool {
        &&& self.m == other.m
        &&& self.n == other.n
        &&& self.q == other.q
        &&& self.states == other.states
        &&& self.torus == other.torus
        &&& self.rule == other.rule
        &&& self.color == other.color
    }

    /// Build an engine from an `m` by `n` starting grid, which is copied into
    /// both buffers.  Fails if the grid does not have the declared shape.
    pub fn new(
        m: usize,
        n: usize,
        q: u32,
        states: Vec<T>,
        torus: bool,
        rule: R,
        color: C,
        cells: Vec<Vec<T>>,
    ) -> (r: Result<Self, EngineError>)
        ensures
            match r {
                Ok(a) => {
                    &&& is_grid(grid_view(cells), m as int, n as int)
                    &&& a.m == m
                    &&& a.n == n
                    &&& a.q == q
                    &&& a.states == states
                    &&& a.torus == torus
                    &&& a.rule == rule
                    &&& a.color == color
                    &&& a.grid() == grid_view(cells)
                    &&& a.back() == grid_view(cells)
                    &&& a.wf()
                },
                Err(e) => {
                    &&& e == EngineError::DimensionMismatch
                    &&& !is_grid(grid_view(cells), m as int, n as int)
                },
            },
    {
        if cells.len() != m {
            return Err(EngineError::DimensionMismatch);
        }
        let mut i: usize = 0;
        while i < m
            invariant
                i <= m,
                cells@.len() == m,
                forall|a: int| 0 <= a < i ==> (#[trigger] grid_view(cells)[a]).len() == n,
            decreases m - i,
        {
            if cells[i].len() != n {
                proof {
                    assert(grid_view(cells)[i as int] == cells@[i as int]@);
                }
                return Err(EngineError::DimensionMismatch);
            }
            proof {
                assert(grid_view(cells)[i as int] == cells@[i as int]@);
            }
            i += 1;
        }
        let temp = copy_grid(&cells);
        Ok(Automaton2D { m, n, q, states, torus, rule, color, cells, temp })
    }

    /// The dimensions `(m, n)`.
    pub fn get_size(&self) -> (r: (usize, usize))
        ensures
            r.0 == self.m,
            r.1 == self.n,
    {
        (self.m, self.n)
    }

    /// The declared number of distinct states.
    pub fn get_q(&self) -> (r: u32)
        ensures
            r == self.q,
    {
        self.q
    }

    /// A copy of the readable generation.
    pub fn get_cells(&self) -> (r: Vec<Vec<T>>)
        ensures
            grid_view(r) == self.grid(),
    {
        copy_grid(&self.cells)
    }

    /// The value of cell `(i, j)`.
    pub fn get_cell(&self, i: usize, j: usize) -> (r: T)
        requires
            self.wf(),
            i < self.m,
            j < self.n,
        ensures
            r == self.grid()[i as int][j as int],
    {
        grid_cell(&self.cells, i, j)
    }

    /// The colour of cell `(i, j)` under the engine's colour map.
    pub fn get_cell_color(&self, i: usize, j: usize) -> (c: u32)
        requires
            self.wf(),
            i < self.m,
            j < self.n,
        ensures
            c == self.color.color_spec(self.grid()[i as int][j as int]),
    {
        let v = grid_cell(&self.cells, i, j);
        self.color.color_of(v)
    }

    /// The four orthogonal neighbours of `(i, j)`, looked up with wrap.
    pub fn get_von_neumann_neighbours(&self, i: usize, j: usize) -> (r: Vec<T>)
        requires
            self.wf(),
            i < self.m,
            j < self.n,
        ensures
            r@ == von_neumann_at(self.grid(), self.m as int, self.n as int, i as int, j as int),
    {
        grid_von_neumann(&self.cells, i, j)
    }

    /// The eight Moore neighbours of `(i, j)`, looked up with wrap.
    pub fn get_moore_neighbours(&self, i: usize, j: usize) -> (r: Vec<T>)
        requires
            self.wf(),
            i < self.m,
            j < self.n,
        ensures
            r@ == moore_at(self.grid(), self.m as int, self.n as int, i as int, j as int),
    {
        grid_moore(&self.cells, i, j)
    }

    /// Overwrite every cell of the initialisable region with `s`, in both
    /// buffers: the full grid when `edge` holds, else the interior.
    pub fn init_state(&mut self, s: T, edge: bool)
        requires
            old(self).wf(),
            !edge ==> old(self).m >= 1 && old(self).n >= 1,
        ensures
            final(self).wf(),
            final(self).same_config(old(self)),
            forall|a: int, b: int|
                0 <= a < old(self).m && 0 <= b < old(self).n && in_region(
                    edge, old(self).m as int, old(self).n as int, a, b,
                ) ==> #[trigger] final(self).grid()[a][b] == s,
            forall|a: int, b: int|
                0 <= a < old(self).m && 0 <= b < old(self).n && in_region(
                    edge, old(self).m as int, old(self).n as int, a, b,
                ) ==> #[trigger] final(self).back()[a][b] == s,
            forall|a: int, b: int|
                0 <= a < old(self).m && 0 <= b < old(self).n && !in_region(
                    edge, old(self).m as int, old(self).n as int, a, b,
                ) ==> #[trigger] final(self).grid()[a][b] == old(self).grid()[a][b],
            forall|a: int, b: int|
                0 <= a < old(self).m && 0 <= b < old(self).n && !in_region(
                    edge, old(self).m as int, old(self).n as int, a, b,
                ) ==> #[trigger] final(self).back()[a][b] == old(self).back()[a][b],
    {
        let ghost s0 = *self;
        let m = self.m;
        let n = self.n;
        let i_min: usize = if edge { 0 } else { 1 };
        let i_max: usize = if edge { m } else { m - 1 };
        let j_min: usize = if edge { 0 } else { 1 };
        let j_max: usize = if edge { n } else { n - 1 };
        let mut i = i_min;
        while i < i_max
            invariant
                self.same_config(&s0),
                self.m == m,
                self.n == n,
                i_min == if edge { 0int } else { 1int },
                i_max == if edge { m as int } else { m - 1 },
                j_min == if edge { 0int } else { 1int },
                j_max == if edge { n as int } else { n - 1 },
                i_min <= i,
                i <= i_max || i == i_min,
                is_grid(self.grid(), m as int, n as int),
                is_grid(self.back(), m as int, n as int),
                forall|a: int, b: int|
                    0 <= a < m && 0 <= b < n && i_min <= a < i && j_min <= b < j_max
                        ==> #[trigger] self.grid()[a][b] == s,
                forall|a: int, b: int|
                    0 <= a < m && 0 <= b < n && i_min <= a < i && j_min <= b < j_max
                        ==> #[trigger] self.back()[a][b] == s,
                forall|a: int, b: int|
                    0 <= a < m && 0 <= b < n && !(i_min <= a < i && j_min <= b < j_max)
                        ==> #[trigger] self.grid()[a][b] == s0.grid()[a][b],
                forall|a: int, b: int|
                    0 <= a < m && 0 <= b < n && !(i_min <= a < i && j_min <= b < j_max)
                        ==> #[trigger] self.back()[a][b] == s0.back()[a][b],
            decreases i_max - i,
        {
            let mut j = j_min;
            while j < j_max
                invariant
                    self.same_config(&s0),
                    self.m == m,
                    self.n == n,
                    i_min == if edge { 0int } else { 1int },
                    i_max == if edge { m as int } else { m - 1 },
                    j_min == if edge { 0int } else { 1int },
                    j_max == if edge { n as int } else { n - 1 },
                    i_min <= i < i_max,
                    j_min <= j,
                    j <= j_max || j == j_min,
                    is_grid(self.grid(), m as int, n as int),
                    is_grid(self.back(), m as int, n as int),
                    forall|a: int, b: int|
                        0 <= a < m && 0 <= b < n && ((i_min <= a < i && j_min <= b < j_max) || (
                        a == i && j_min <= b < j)) ==> #[trigger] self.grid()[a][b] == s,
                    forall|a: int, b: int|
                        0 <= a < m && 0 <= b < n && ((i_min <= a < i && j_min <= b < j_max) || (
                        a == i && j_min <= b < j)) ==> #[trigger] self.back()[a][b] == s,
                    forall|a: int, b: int|
                        0 <= a < m && 0 <= b < n && !((i_min <= a < i && j_min <= b < j_max) || (
                        a == i && j_min <= b < j)) ==> #[trigger] self.grid()[a][b]
                            == s0.grid()[a][b],
                    forall|a: int, b: int|
                        0 <= a < m && 0 <= b < n && !((i_min <= a < i && j_min <= b < j_max) || (
                        a == i && j_min <= b < j)) ==> #[trigger] self.back()[a][b]
                            == s0.back()[a][b],
                decreases j_max - j,
            {
                let ghost cells_prev = self.cells@;
                let ghost temp_prev = self.temp@;
                let ghost gc = grid_view(self.cells);
                let ghost gt = grid_view(self.temp);
                proof {
                    assert(self.cells@.len() == gc.len());
                    assert(self.temp@.len() == gt.len());
                    assert(gc[i as int] == cells_prev[i as int]@);
                    assert(gt[i as int] == temp_prev[i as int]@);
                }
                self.cells[i][j] = s;
                self.temp[i][j] = s;
                proof {
                    lemma_view_after_cell_write(cells_prev, self.cells@, gc, i as int, j as int, s);
                    lemma_view_after_cell_write(temp_prev, self.temp@, gt, i as int, j as int, s);
                    assert(self.grid() == gc.update(i as int, gc[i as int].update(j as int, s)));
                    assert(self.back() == gt.update(i as int, gt[i as int].update(j as int, s)));
                }
                j += 1;
            }
            i += 1;
        }
    }

    /// Overwrite every cell of the initialisable region with a value drawn
    /// uniformly from the engine's state set, the same draw landing in both
    /// buffers.  Fails, changing nothing, if the state set is empty.
    pub fn init_rand(&mut self, edge: bool) -> (r: Result<(), EngineError>)
        requires
            old(self).wf(),
            !edge ==> old(self).m >= 1 && old(self).n >= 1,
        ensures
            final(self).wf(),
            final(self).same_config(old(self)),
            match r {
                Ok(()) => old(self).states@.len() > 0,
                Err(e) => {
                    &&& e == EngineError::EmptyDomain
                    &&& old(self).states@.len() == 0
                    &&& *final(self) == *old(self)
                },
            },
            r is Ok ==> forall|a: int, b: int|
                0 <= a < old(self).m && 0 <= b < old(self).n && in_region(
                    edge, old(self).m as int, old(self).n as int, a, b,
                ) ==> old(self).states@.contains(#[trigger] final(self).grid()[a][b]),
            r is Ok ==> forall|a: int, b: int|
                0 <= a < old(self).m && 0 <= b < old(self).n && in_region(
                    edge, old(self).m as int, old(self).n as int, a, b,
                ) ==> #[trigger] final(self).back()[a][b] == final(self).grid()[a][b],
            r is Ok ==> forall|a: int, b: int|
                0 <= a < old(self).m && 0 <= b < old(self).n && !in_region(
                    edge, old(self).m as int, old(self).n as int, a, b,
                ) ==> #[trigger] final(self).grid()[a][b] == old(self).grid()[a][b],
            r is Ok ==> forall|a: int, b: int|
                0 <= a < old(self).m && 0 <= b < old(self).n && !in_region(
                    edge, old(self).m as int, old(self).n as int, a, b,
                ) ==> #[trigger] final(self).back()[a][b] == old(self).back()[a][b],
    {
        if self.states.len() == 0 {
            return Err(EngineError::EmptyDomain);
        }
        let ghost s0 = *self;
        let m = self.m;
        let n = self.n;
        let i_min: usize = if edge { 0 } else { 1 };
        let i_max: usize = if edge { m } else { m - 1 };
        let j_min: usize = if edge { 0 } else { 1 };
        let j_max: usize = if edge { n } else { n - 1 };
        let mut i = i_min;
        while i < i_max
            invariant
                self.same_config(&s0),
                self.m == m,
                self.n == n,
                s0.states@.len() > 0,
                i_min == if edge { 0int } else { 1int },
                i_max == if edge { m as int } else { m - 1 },
                j_min == if edge { 0int } else { 1int },
                j_max == if edge { n as int } else { n - 1 },
                i_min <= i,
                i <= i_max || i == i_min,
                is_grid(self.grid(), m as int, n as int),
                is_grid(self.back(), m as int, n as int),
                forall|a: int, b: int|
                    0 <= a < m && 0 <= b < n && i_min <= a < i && j_min <= b < j_max
                        ==> s0.states@.contains(#[trigger] self.grid()[a][b]),
                forall|a: int, b: int|
                    0 <= a < m && 0 <= b < n && i_min <= a < i && j_min <= b < j_max
                        ==> #[trigger] self.back()[a][b] == self.grid()[a][b],
                forall|a: int, b: int|
                    0 <= a < m && 0 <= b < n && !(i_min <= a < i && j_min <= b < j_max)
                        ==> #[trigger] self.grid()[a][b] == s0.grid()[a][b],
                forall|a: int, b: int|
                    0 <= a < m && 0 <= b < n && !(i_min <= a < i && j_min <= b < j_max)
                        ==> #[trigger] self.back()[a][b] == s0.back()[a][b],
            decreases i_max - i,
        {
            let mut j = j_min;
            while j < j_max
                invariant
                    self.same_config(&s0),
                    self.m == m,
                    self.n == n,
                    s0.states@.len() > 0,
                    i_min == if edge { 0int } else { 1int },
                    i_max == if edge { m as int } else { m - 1 },
                    j_min == if edge { 0int } else { 1int },
                    j_max == if edge { n as int } else { n - 1 },
                    i_min <= i < i_max,
                    j_min <= j,
                    j <= j_max || j == j_min,
                    is_grid(self.grid(), m as int, n as int),
                    is_grid(self.back(), m as int, n as int),
                    forall|a: int, b: int|
                        0 <= a < m && 0 <= b < n && ((i_min <= a < i && j_min <= b < j_max) || (
                        a == i && j_min <= b < j)) ==> s0.states@.contains(
                            #[trigger] self.grid()[a][b],
                        ),
                    forall|a: int, b: int|
                        0 <= a < m && 0 <= b < n && ((i_min <= a < i && j_min <= b < j_max) || (
                        a == i && j_min <= b < j)) ==> #[trigger] self.back()[a][b]
                            == self.grid()[a][b],
                    forall|a: int, b: int|
                        0 <= a < m && 0 <= b < n && !((i_min <= a < i && j_min <= b < j_max) || (
                        a == i && j_min <= b < j)) ==> #[trigger] self.grid()[a][b]
                            == s0.grid()[a][b],
                    forall|a: int, b: int|
                        0 <= a < m && 0 <= b < n && !((i_min <= a < i && j_min <= b < j_max) || (
                        a == i && j_min <= b < j)) ==> #[trigger] self.back()[a][b]
                            == s0.back()[a][b],
                decreases j_max - j,
            {
                let v = choose_from(&self.states);
                let ghost cells_prev = self.cells@;
                let ghost temp_prev = self.temp@;
                let ghost gc = grid_view(self.cells);
                let ghost gt = grid_view(self.temp);
                proof {
                    assert(self.cells@.len() == gc.len());
                    assert(self.temp@.len() == gt.len());
                    assert(gc[i as int] == cells_prev[i as int]@);
                    assert(gt[i as int] == temp_prev[i as int]@);
                }
                self.cells[i][j] = v;
                self.temp[i][j] = v;
                proof {
                    lemma_view_after_cell_write(cells_prev, self.cells@, gc, i as int, j as int, v);
                    lemma_view_after_cell_write(temp_prev, self.temp@, gt, i as int, j as int, v);
                    assert(self.grid() == gc.update(i as int, gc[i as int].update(j as int, v)));
                    assert(self.back() == gt.update(i as int, gt[i as int].update(j as int, v)));
                }
                j += 1;
            }
            i += 1;
        }
        Ok(())
    }

    /// Advance one synchronous step: evaluate the rule against the readable
    /// generation for every cell of the update region, write the results into
    /// the back buffer, and swap the buffers.
    pub fn next(&mut self)
        requires
            old(self).wf(),
            !old(self).torus ==> old(self).m >= 1 && old(self).n >= 1,
        ensures
            final(self).wf(),
            final(self).same_config(old(self)),
            step_rel(
                old(self).rule,
                old(self).q,
                old(self).torus,
                old(self).m as int,
                old(self).n as int,
                old(self).grid(),
                final(self).grid(),
            ),
            final(self).back() == old(self).grid(),
    {
        let ghost s0 = *self;
        let m = self.m;
        let n = self.n;
        let i_min: usize = if self.torus { 0 } else { 1 };
        let i_max: usize = if self.torus { m } else { m - 1 };
        let j_min: usize = if self.torus { 0 } else { 1 };
        let j_max: usize = if self.torus { n } else { n - 1 };
        let mut i = i_min;
        while i < i_max
            invariant
                self.same_config(&s0),
                self.m == m,
                self.n == n,
                self.cells == s0.cells,
                is_grid(s0.grid(), m as int, n as int),
                i_min == if s0.torus { 0int } else { 1int },
                i_max == if s0.torus { m as int } else { m - 1 },
                j_min == if s0.torus { 0int } else { 1int },
                j_max == if s0.torus { n as int } else { n - 1 },
                i_min <= i,
                i <= i_max || i == i_min,
                is_grid(self.back(), m as int, n as int),
                forall|a: int, b: int|
                    0 <= a < m && 0 <= b < n ==> {
                        if i_min <= a < i && j_min <= b < j_max {
                            s0.rule.next_ok(s0.grid(), s0.q, a, b, #[trigger] self.back()[a][b])
                        } else {
                            self.back()[a][b] == s0.back()[a][b]
                        }
                    },
            decreases i_max - i,
        {
            let mut j = j_min;
            while j < j_max
                invariant
                    self.same_config(&s0),
                    self.m == m,
                    self.n == n,
                    self.cells == s0.cells,
                    is_grid(s0.grid(), m as int, n as int),
                    i_min == if s0.torus { 0int } else { 1int },
                    i_max == if s0.torus { m as int } else { m - 1 },
                    j_min == if s0.torus { 0int } else { 1int },
                    j_max == if s0.torus { n as int } else { n - 1 },
                    i_min <= i < i_max,
                    j_min <= j,
                    j <= j_max || j == j_min,
                    is_grid(self.back(), m as int, n as int),
                    forall|a: int, b: int|
                        0 <= a < m && 0 <= b < n ==> {
                            if (i_min <= a < i && j_min <= b < j_max) || (a == i && j_min <= b
                                < j) {
                                s0.rule.next_ok(
                                    s0.grid(),
                                    s0.q,
                                    a,
                                    b,
                                    #[trigger] self.back()[a][b],
                                )
                            } else {
                                self.back()[a][b] == s0.back()[a][b]
                            }
                        },
                decreases j_max - j,
            {
                proof {
                    assert(rect(grid_view(self.cells)));
                    assert(grid_view(self.cells)[0].len() == n);
                }
                let v = self.rule.next_value(&self.cells, self.q, i, j);
                let ghost temp_prev = self.temp@;
                let ghost gt = grid_view(self.temp);
                proof {
                    assert(self.temp@.len() == gt.len());
                    assert(gt[i as int] == temp_prev[i as int]@);
                }
                self.temp[i][j] = v;
                proof {
                    lemma_view_after_cell_write(temp_prev, self.temp@, gt, i as int, j as int, v);
                    assert(self.back() == gt.update(i as int, gt[i as int].update(j as int, v)));
                }
                j += 1;
            }
            i += 1;
        }
        core::mem::swap(&mut self.cells, &mut self.temp);
        proof {
            assert forall|a: int, b: int| 0 <= a < m && 0 <= b < n implies {
                if in_region(s0.torus, m as int, n as int, a, b) {
                    s0.rule.next_ok(s0.grid(), s0.q, a, b, #[trigger] self.grid()[a][b])
                } else {
                    self.grid()[a][b] == s0.grid()[a][b]
                }
            } by {
                if !in_region(s0.torus, m as int, n as int, a, b) {
                    if !s0.torus {
                        assert(on_border(m as int, n as int, a, b));
                        assert(s0.back()[a][b] == s0.grid()[a][b]);
                    }
                }
            }
        }
    }
}

} // verus!
