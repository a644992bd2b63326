//! The one-dimensional engine: the same double-buffered pattern as the grid
//! engines, specialised to a line of cells with a three-cell neighbourhood.

use vstd::prelude::*;

verus! {

use vstd::arithmetic::div_mod::{
    lemma_mod_add_multiples_vanish, lemma_small_mod, lemma_div_is_ordered,
    lemma_mod_division_less_than_divisor,
};
use crate::grid::{wrap_dec, wrap_inc};
use crate::random::choose_from;
use crate::{ColorMap, EngineError};

/// The cell of a line addressed with toroidal wrap.
pub open spec fn line_cell_at<T>(g: Seq<T>, n: int, i: int) -> T {
    g[i % n]
}

/// The three-cell neighbourhood of `i`: left, the cell itself, right, each
/// looked up with toroidal wrap.
pub open spec fn neighbours_at<T>(g: Seq<T>, n: int, i: int) -> Seq<T> {
    seq![
        line_cell_at(g, n, i - 1),
        line_cell_at(g, n, i),
        line_cell_at(g, n, i + 1),
    ]
}

/// A neighbourhood on the line has exactly 3 cells, whatever the coordinate.
pub proof fn lemma_line_neighbourhood_size<T>(g: Seq<T>, n: int, i: int)
    ensures
        neighbours_at(g, n, i).len() == 3,
{
}

/// Boundary continuity on the line: the wrapped lookup is periodic, so the
/// neighbourhood read at `i + n` is the neighbourhood read at `i`.
pub proof fn lemma_line_neighbours_wrap<T>(g: Seq<T>, n: int, i: int)
    requires
        n >= 1,
    ensures
        neighbours_at(g, n, i + n) == neighbours_at(g, n, i),
{
    lemma_mod_add_multiples_vanish(i - 1, n);
    lemma_mod_add_multiples_vanish(i, n);
    lemma_mod_add_multiples_vanish(i + 1, n);
    assert(neighbours_at(g, n, i + n) =~= neighbours_at(g, n, i));
}

/// A transition rule for the one-dimensional engine.
pub trait Rule1D<T>: Sized {
    /// The values the rule may produce at `i` of the snapshot `g`.  The
    /// default admits every value: a rule that does not override it promises
    /// nothing about what it writes.
    open spec fn next_ok(&self, g: Seq<T>, q: u32, i: int, r: T) -> bool {
        true
    }

    /// Compute the next value of cell `i` from the snapshot `cells`.
    fn next_value(&self, cells: &Vec<T>, q: u32, i: usize) -> (r: T)
        requires
            i < cells@.len(),
        ensures
            self.next_ok(cells@, q, i as int, r),
    ;
}

/// A rule is deterministic when `next_ok` admits a single value per cell.
pub open spec fn line_rule_deterministic<T, R: Rule1D<T>>(rule: R) -> bool {
    forall|g: Seq<T>, q: u32, i: int, r1: T, r2: T|
        #[trigger] rule.next_ok(g, q, i, r1) && #[trigger] rule.next_ok(g, q, i, r2) ==> r1 == r2
}

/// The cells a step (or a whole-line initialisation) writes: the full line
/// when `full` holds, else the interior, excluding the two end cells.
pub open spec fn in_segment(full: bool, n: int, i: int) -> bool {
    if full {
        0 <= i < n
    } else {
        1 <= i < n - 1
    }
}

/// `i` is one of the two end cells of a line of `n` cells.
pub open spec fn on_line_border(n: int, i: int) -> bool {
    i == 0 || i == n - 1
}

/// How one synchronous step relates the line before to the line after.
pub open spec fn line_step_rel<T, R: Rule1D<T>>(
    rule: R,
    q: u32,
    torus: bool,
    n: int,
    pre: Seq<T>,
    post: Seq<T>,
) -> bool {
    &&& pre.len() == n
    &&& post.len() == n
    &&& forall|i: int|
        0 <= i < n ==> {
            if in_segment(torus, n, i) {
                rule.next_ok(pre, q, i, #[trigger] post[i])
            } else {
                post[i] == pre[i]
            }
        }
}

/// Determinism of a step on the line.
pub proof fn lemma_line_step_deterministic<T, R: Rule1D<T>>(
    rule: R,
    q: u32,
    torus: bool,
    n: int,
    pre: Seq<T>,
    post1: Seq<T>,
    post2: Seq<T>,
)
    requires
        line_rule_deterministic(rule),
        line_step_rel(rule, q, torus, n, pre, post1),
        line_step_rel(rule, q, torus, n, pre, post2),
    ensures
        post1 == post2,
{
    assert forall|i: int| 0 <= i < n implies post1[i] == post2[i] by {
        if in_segment(torus, n, i) {
            assert(rule.next_ok(pre, q, i, post1[i]));
            assert(rule.next_ok(pre, q, i, post2[i]));
        }
    }
    assert(post1 =~= post2);
}

/// A run of the line engine: consecutive lines are related by one step.
pub open spec fn line_run_rel<T, R: Rule1D<T>>(
    rule: R,
    q: u32,
    torus: bool,
    n: int,
    gs: Seq<Seq<T>>,
) -> bool {
    forall|k: int|
        0 <= k < gs.len() - 1 ==> line_step_rel(rule, q, torus, n, #[trigger] gs[k], gs[k + 1])
}

/// Determinism of a run on the line.
pub proof fn lemma_line_run_deterministic<T, R: Rule1D<T>>(
    rule: R,
    q: u32,
    torus: bool,
    n: int,
    gs1: Seq<Seq<T>>,
    gs2: Seq<Seq<T>>,
)
    requires
        line_rule_deterministic(rule),
        line_run_rel(rule, q, torus, n, gs1),
        line_run_rel(rule, q, torus, n, gs2),
        gs1.len() == gs2.len(),
        gs1.len() >= 1,
        gs1[0] == gs2[0],
    ensures
        gs1.last() == gs2.last(),
    decreases gs1.len(),
{
    if gs1.len() > 1 {
        assert(line_step_rel(rule, q, torus, n, gs1[0], gs1[1]));
        assert(line_step_rel(rule, q, torus, n, gs2[0], gs2[1]));
        lemma_line_step_deterministic(rule, q, torus, n, gs1[0], gs1[1], gs2[1]);
        let t1 = gs1.subrange(1, gs1.len() as int);
        let t2 = gs2.subrange(1, gs2.len() as int);
        assert forall|k: int| 0 <= k < t1.len() - 1 implies line_step_rel(
            rule, q, torus, n, #[trigger] t1[k], t1[k + 1],
        ) by {
            assert(t1[k] == gs1[k + 1]);
            assert(t1[k + 1] == gs1[k + 2]);
        }
        assert forall|k: int| 0 <= k < t2.len() - 1 implies line_step_rel(
            rule, q, torus, n, #[trigger] t2[k], t2[k + 1],
        ) by {
            assert(t2[k] == gs2[k + 1]);
            assert(t2[k + 1] == gs2[k + 2]);
        }
        lemma_line_run_deterministic(rule, q, torus, n, t1, t2);
        assert(gs1.last() == t1.last());
        assert(gs2.last() == t2.last());
    }
}

/// The frozen ends: in fixed-border mode every step leaves the two end cells
/// unchanged, so after any number of steps they equal those of the start.
pub proof fn lemma_line_border_frozen<T, R: Rule1D<T>>(
    rule: R,
    q: u32,
    n: int,
    gs: Seq<Seq<T>>,
    i: int,
)
    requires
        line_run_rel(rule, q, false, n, gs),
        gs.len() >= 1,
        0 <= i < n,
        on_line_border(n, i),
        gs[0].len() == n,
    ensures
        gs.last()[i] == gs[0][i],
    decreases gs.len(),
{
    if gs.len() > 1 {
        let t = gs.subrange(1, gs.len() as int);
        assert(line_step_rel(rule, q, false, n, gs[0], gs[1]));
        assert(!in_segment(false, n, i));
        assert(gs[1][i] == gs[0][i]);
        assert forall|k: int| 0 <= k < t.len() - 1 implies line_step_rel(
            rule, q, false, n, #[trigger] t[k], t[k + 1],
        ) by {
            assert(t[k] == gs[k + 1]);
            assert(t[k + 1] == gs[k + 2]);
        }
        lemma_line_border_frozen(rule, q, n, t, i);
        assert(gs.last() == t.last());
    }
}

/// The three-cell neighbourhood of `i` in a line buffer.
pub fn line_neighbours<T: Copy>(cells: &Vec<T>, i: usize) -> (r: Vec<T>)
    requires
        i < cells@.len(),
    ensures
        r@ == neighbours_at(cells@, cells@.len() as int, i as int),
{
    let n = cells.len();
    let im1 = wrap_dec(i, n);
    let ip1 = wrap_inc(i, n);
    proof {
        lemma_small_mod(i as nat, n as nat);
    }
    let mut r: Vec<T> = Vec::new();
    r.push(cells[im1]);
    r.push(cells[i]);
    r.push(cells[ip1]);
    proof {
        assert(r@ =~= neighbours_at(cells@, n as int, i as int));
    }
    r
}

/// A one-dimensional cellular automaton over cell values of type `T`.
///
/// `cells` is the readable generation; `temp` is the write target of the next
/// step.  Both buffers always hold `n` cells, and in fixed-border mode their
/// end cells agree, so that a step, which only writes the interior of `temp`
/// before swapping, keeps the ends frozen.
pub struct Automaton1D<T, R, C> {
    pub n: usize,
    pub q: u32,
    pub states: Vec<T>,
    pub torus: bool,
    pub rule: R,
    pub color: C,
    pub cells: Vec<T>,
    pub temp: Vec<T>,
}

impl<T: Copy, R: Rule1D<T>, C: ColorMap<T>> Automaton1D<T, R, C> {
    /// The readable generation.
    pub open spec fn line(&self) -> Seq<T> {
        self.cells@
    }

    /// The back buffer a step writes into.
    pub open spec fn back(&self) -> Seq<T> {
        self.temp@
    }

    /// Both buffers have the declared length, and in fixed-border mode their
    /// end cells agree.
    pub open spec fn wf(&self) -> bool {
        &&& self.line().len() == self.n
        &&& self.back().len() == self.n
        &&& !self.torus ==> forall|i: int|
            0 <= i < self.n && on_line_border(self.n as int, i)
                ==> #[trigger] self.back()[i] == self.line()[i]
    }

    /// Everything but the two buffers is as in `other`.
    pub open spec fn same_config(&self, other: &Self) -> bool {
        &&& self.n == other.n
        &&& self.q == other.q
        &&& self.states == other.states
        &&& self.torus == other.torus
        &&& self.rule == other.rule
        &&& self.color == other.color
    }

    /// Build an engine from a starting line of `n` cells, which is copied
    /// into both buffers.  Fails if the line does not have the declared
    /// length.
    pub fn new(
        n: usize,
        q: u32,
        states: Vec<T>,
        torus: bool,
        rule: R,
        color: C,
        cells: Vec<T>,
    ) -> (r: Result<Self, EngineError>)
        ensures
            match r {
                Ok(a) => {
                    &&& cells@.len() == n
                    &&& a.n == n
                    &&& a.q == q
                    &&& a.states == states
                    &&& a.torus == torus
                    &&& a.rule == rule
                    &&& a.color == color
                    &&& a.line() == cells@
                    &&& a.back() == cells@
                    &&& a.wf()
                },
                Err(e) => {
                    &&& e == EngineError::DimensionMismatch
                    &&& cells@.len() != n
                },
            },
    {
        if cells.len() != n {
            return Err(EngineError::DimensionMismatch);
        }
        let temp = crate::grid::copy_values(&cells);
        Ok(Automaton1D { n, q, states, torus, rule, color, cells, temp })
    }

    /// The length of the line.
    pub fn get_size(&self) -> (r: usize)
        ensures
            r == self.n,
    {
        self.n
    }

    /// The declared number of distinct states.
    pub fn get_q(&self) -> (r: u32)
        ensures
            r == self.q,
    {
        self.q
    }

    /// A copy of the readable generation.
    pub fn get_cells(&self) -> (r: Vec<T>)
        ensures
            r@ == self.line(),
    {
        crate::grid::copy_values(&self.cells)
    }

    /// The value of cell `i`.
    pub fn get_cell(&self, i: usize) -> (r: T)
        requires
            self.wf(),
            i < self.n,
        ensures
            r == self.line()[i as int],
    {
        self.cells[i]
    }

    /// The colour of cell `i` under the engine's colour map.
    pub fn get_cell_color(&self, i: usize) -> (c: u32)
        requires
            self.wf(),
            i < self.n,
        ensures
            c == self.color.color_spec(self.line()[i as int]),
    {
        self.color.color_of(self.cells[i])
    }

    /// The three-cell neighbourhood of `i`: left, the cell itself, right,
    /// looked up with wrap.
    pub fn get_neighbours(&self, i: usize) -> (r: Vec<T>)
        requires
            self.wf(),
            i < self.n,
        ensures
            r@ == neighbours_at(self.line(), self.n as int, i as int),
    {
        line_neighbours(&self.cells, i)
    }

    /// Overwrite every cell of the initialisable region with `s`, in both
    /// buffers: the full line when `edge` holds, else the interior.
    pub fn init_state(&mut self, s: T, edge: bool)
        requires
            old(self).wf(),
            !edge ==> old(self).n >= 1,
        ensures
            final(self).wf(),
            final(self).same_config(old(self)),
            forall|i: int|
                0 <= i < old(self).n && in_segment(edge, old(self).n as int, i)
                    ==> #[trigger] final(self).line()[i] == s,
            forall|i: int|
                0 <= i < old(self).n && in_segment(edge, old(self).n as int, i)
                    ==> #[trigger] final(self).back()[i] == s,
            forall|i: int|
                0 <= i < old(self).n && !in_segment(edge, old(self).n as int, i)
                    ==> #[trigger] final(self).line()[i] == old(self).line()[i],
            forall|i: int|
                0 <= i < old(self).n && !in_segment(edge, old(self).n as int, i)
                    ==> #[trigger] final(self).back()[i] == old(self).back()[i],
    {
        let ghost s0 = *self;
        let n = self.n;
        let i_min: usize = if edge { 0 } else { 1 };
        let i_max: usize = if edge { n } else { n - 1 };
        let mut i = i_min;
        while i < i_max
            invariant
                self.same_config(&s0),
                self.n == n,
                i_min == if edge { 0int } else { 1int },
                i_max == if edge { n as int } else { n - 1 },
                i_min <= i,
                i <= i_max || i == i_min,
                self.line().len() == n,
                self.back().len() == n,
                forall|a: int|
                    0 <= a < n && i_min <= a < i ==> #[trigger] self.line()[a] == s,
                forall|a: int|
                    0 <= a < n && i_min <= a < i ==> #[trigger] self.back()[a] == s,
                forall|a: int|
                    0 <= a < n && !(i_min <= a < i) ==> #[trigger] self.line()[a] == s0.line()[a],
                forall|a: int|
                    0 <= a < n && !(i_min <= a < i) ==> #[trigger] self.back()[a] == s0.back()[a],
            decreases i_max - i,
        {
            self.cells[i] = s;
            self.temp[i] = s;
            i += 1;
        }
    }

    /// Overwrite every cell of the initialisable region with a value drawn
    /// uniformly from the engine's state set, the same draw landing in both
    /// buffers.  Fails, changing nothing, if the state set is empty.
    pub fn init_rand(&mut self, edge: bool) -> (r: Result<(), EngineError>)
        requires
            old(self).wf(),
            !edge ==> old(self).n >= 1,
        ensures
            final(self).wf(),
            final(self).same_config(old(self)),
            match r {
                Ok(()) => old(self).states@.len() > 0,
                Err(e) => {
                    &&& e == EngineError::EmptyDomain
                    &&& old(self).states@.len() == 0
                    &&& *final(self) == *old(self)
                },
            },
            r is Ok ==> forall|i: int|
                0 <= i < old(self).n && in_segment(edge, old(self).n as int, i)
                    ==> old(self).states@.contains(#[trigger] final(self).line()[i]),
            r is Ok ==> forall|i: int|
                0 <= i < old(self).n && in_segment(edge, old(self).n as int, i)
                    ==> #[trigger] final(self).back()[i] == final(self).line()[i],
            r is Ok ==> forall|i: int|
                0 <= i < old(self).n && !in_segment(edge, old(self).n as int, i)
                    ==> #[trigger] final(self).line()[i] == old(self).line()[i],
            r is Ok ==> forall|i: int|
                0 <= i < old(self).n && !in_segment(edge, old(self).n as int, i)
                    ==> #[trigger] final(self).back()[i] == old(self).back()[i],
    {
        if self.states.len() == 0 {
            return Err(EngineError::EmptyDomain);
        }
        let ghost s0 = *self;
        let n = self.n;
        let i_min: usize = if edge { 0 } else { 1 };
        let i_max: usize = if edge { n } else { n - 1 };
        let mut i = i_min;
        while i < i_max
            invariant
                self.same_config(&s0),
                self.n == n,
                s0.states@.len() > 0,
                i_min == if edge { 0int } else { 1int },
                i_max == if edge { n as int } else { n - 1 },
                i_min <= i,
                i <= i_max || i == i_min,
                self.line().len() == n,
                self.back().len() == n,
                forall|a: int|
                    0 <= a < n && i_min <= a < i ==> s0.states@.contains(
                        #[trigger] self.line()[a],
                    ),
                forall|a: int|
                    0 <= a < n && i_min <= a < i ==> #[trigger] self.back()[a] == self.line()[a],
                forall|a: int|
                    0 <= a < n && !(i_min <= a < i) ==> #[trigger] self.line()[a] == s0.line()[a],
                forall|a: int|
                    0 <= a < n && !(i_min <= a < i) ==> #[trigger] self.back()[a] == s0.back()[a],
            decreases i_max - i,
        {
            let v = choose_from(&self.states);
            self.cells[i] = v;
            self.temp[i] = v;
            i += 1;
        }
        Ok(())
    }

    /// Advance one synchronous step: evaluate the rule against the readable
    /// generation for every cell of the update region, write the results into
    /// the back buffer, and swap the buffers.
    pub fn next(&mut self)
        requires
            old(self).wf(),
            !old(self).torus ==> old(self).n >= 1,
        ensures
            final(self).wf(),
            final(self).same_config(old(self)),
            line_step_rel(
                old(self).rule,
                old(self).q,
                old(self).torus,
                old(self).n as int,
                old(self).line(),
                final(self).line(),
            ),
            final(self).back() == old(self).line(),
    {
        let ghost s0 = *self;
        let n = self.n;
        let i_min: usize = if self.torus { 0 } else { 1 };
        let i_max: usize = if self.torus { n } else { n - 1 };
        let mut i = i_min;
        while i < i_max
            invariant
                self.same_config(&s0),
                self.n == n,
                self.cells == s0.cells,
                s0.line().len() == n,
                i_min == if s0.torus { 0int } else { 1int },
                i_max == if s0.torus { n as int } else { n - 1 },
                i_min <= i,
                i <= i_max || i == i_min,
                self.back().len() == n,
                forall|a: int|
                    0 <= a < n && i_min <= a < i ==> s0.rule.next_ok(
                        s0.line(),
                        s0.q,
                        a,
                        #[trigger] self.back()[a],
                    ),
                forall|a: int|
                    0 <= a < n && !(i_min <= a < i) ==> #[trigger] self.back()[a] == s0.back()[a],
            decreases i_max - i,
        {
            let v = self.rule.next_value(&self.cells, self.q, i);
            self.temp[i] = v;
            i += 1;
        }
        core::mem::swap(&mut self.cells, &mut self.temp);
        proof {
            assert forall|a: int| 0 <= a < n implies {
                if in_segment(s0.torus, n as int, a) {
                    s0.rule.next_ok(s0.line(), s0.q, a, #[trigger] self.line()[a])
                } else {
                    self.line()[a] == s0.line()[a]
                }
            } by {
                if !in_segment(s0.torus, n as int, a) {
                    if !s0.torus {
                        assert(on_line_border(n as int, a));
                        assert(s0.back()[a] == s0.line()[a]);
                    }
                }
            }
        }
    }
}

/// Paint row `k` of a pixel buffer of `width`-pixel rows from the engine's
/// colours, each cell `cell_size` pixels wide, leaving the rest untouched.
pub fn update_buffer<T: Copy, R: Rule1D<T>, C: ColorMap<T>>(
    buffer: &mut Vec<u32>,
    a: &Automaton1D<T, R, C>,
    k: usize,
    width: usize,
    cell_size: usize,
)
    requires
        a.wf(),
        width >= 1,
        cell_size >= 1,
        (k + 1) * width * cell_size <= old(buffer)@.len(),
        (width - 1) / (cell_size as int) < a.n,
    ensures
        final(buffer)@.len() == old(buffer)@.len(),
        forall|x: int|
            k * width * cell_size <= x < (k + 1) * width * cell_size
                ==> #[trigger] final(buffer)@[x] == a.color.color_spec(
                a.line()[(x % (width as int)) / (cell_size as int)],
            ),
        forall|x: int|
            0 <= x < old(buffer)@.len() && !(k * width * cell_size <= x < (k + 1) * width
                * cell_size) ==> #[trigger] final(buffer)@[x] == old(buffer)@[x],
{
    let ghost b0 = buffer@;
    let buffer_len = buffer.len();
    proof {
        assert(b0.len() == buffer_len);
        assert((k * width) * cell_size <= ((k + 1) * width) * cell_size) by (nonlinear_arith)
            requires
                k >= 0,
                width >= 1,
                cell_size >= 1,
        ;
        assert(k * width <= (k + 1) * width) by (nonlinear_arith)
            requires
                k >= 0,
                width >= 1,
        ;
        assert(k * width <= (k * width) * cell_size) by (nonlinear_arith)
            requires
                k >= 0,
                width >= 1,
                cell_size >= 1,
        ;
        assert((k + 1) * width <= ((k + 1) * width) * cell_size) by (nonlinear_arith)
            requires
                k >= 0,
                width >= 1,
                cell_size >= 1,
        ;
        assert(k + 1 <= (k + 1) * width) by (nonlinear_arith)
            requires
                k >= 0,
                width >= 1,
        ;
    }
    let i_min = k * width * cell_size;
    let i_max = (k + 1) * width * cell_size;
    let mut x = i_min;
    while x < i_max
        invariant
            a.wf(),
            width >= 1,
            cell_size >= 1,
            (width - 1) / (cell_size as int) < a.n,
            i_min == k * width * cell_size,
            i_max == (k + 1) * width * cell_size,
            i_min <= x <= i_max,
            i_max <= b0.len(),
            buffer@.len() == b0.len(),
            forall|y: int|
                i_min <= y < x ==> #[trigger] buffer@[y] == a.color.color_spec(
                    a.line()[(y % (width as int)) / (cell_size as int)],
                ),
            forall|y: int|
                0 <= y < b0.len() && !(i_min <= y < x) ==> #[trigger] buffer@[y] == b0[y],
        decreases i_max - x,
    {
        let idx = (x % width) / cell_size;
        proof {
            lemma_mod_division_less_than_divisor(x as int, width as int);
            lemma_div_is_ordered(
                (x as int) % (width as int),
                width - 1,
                cell_size as int,
            );
        }
        let c = a.get_cell_color(idx);
        buffer[x] = c;
        x += 1;
    }
}

} // verus!
