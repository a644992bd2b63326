//! The mathematical model of a two-dimensional grid, the neighbourhood
//! queries over it, and the transition-rule interface shared by the
//! two-dimensional engines.

use vstd::prelude::*;

verus! {

use vstd::arithmetic::div_mod::{lemma_mod_add_multiples_vanish, lemma_small_mod, lemma_mod_self_0};

/// The grid a buffer of rows holds, as a sequence of sequences.
pub open spec fn grid_view<T>(cells: Vec<Vec<T>>) -> Seq<Seq<T>> {
    cells@.map_values(|r: Vec<T>| r@)
}

/// `g` is a rectangular grid of `m` rows and `n` columns.
pub open spec fn is_grid<T>(g: Seq<Seq<T>>, m: int, n: int) -> bool {
    &&& g.len() == m
    &&& forall|i: int| 0 <= i < m ==> (#[trigger] g[i]).len() == n
}

/// Every row of `g` is as long as its first row.
pub open spec fn rect<T>(g: Seq<Seq<T>>) -> bool {
    forall|i: int| 0 <= i < g.len() ==> (#[trigger] g[i]).len() == g[0].len()
}

/// The cell of `g` addressed with toroidal wrap: row and column indices are
/// taken modulo the grid dimensions, so any integer addresses a cell.
pub open spec fn cell_at<T>(g: Seq<Seq<T>>, m: int, n: int, i: int, j: int) -> T {
    g[i % m][j % n]
}

/// The von Neumann neighbourhood of `(i, j)`: up, right, down, left, in that
/// order, each looked up with toroidal wrap.
pub open spec fn von_neumann_at<T>(g: Seq<Seq<T>>, m: int, n: int, i: int, j: int) -> Seq<T> {
    seq![
        cell_at(g, m, n, i - 1, j),
        cell_at(g, m, n, i, j + 1),
        cell_at(g, m, n, i + 1, j),
        cell_at(g, m, n, i, j - 1),
    ]
}

/// The Moore neighbourhood of `(i, j)`: the four orthogonal neighbours first,
/// then the four diagonals (up-left, up-right, down-left, down-right).
pub open spec fn moore_at<T>(g: Seq<Seq<T>>, m: int, n: int, i: int, j: int) -> Seq<T> {
    von_neumann_at(g, m, n, i, j) + seq![
        cell_at(g, m, n, i - 1, j - 1),
        cell_at(g, m, n, i - 1, j + 1),
        cell_at(g, m, n, i + 1, j - 1),
        cell_at(g, m, n, i + 1, j + 1),
    ]
}

/// A von Neumann neighbourhood has exactly 4 cells and a Moore neighbourhood
/// exactly 8, whatever the coordinates.
pub proof fn lemma_neighbourhood_sizes<T>(g: Seq<Seq<T>>, m: int, n: int, i: int, j: int)
    ensures
        von_neumann_at(g, m, n, i, j).len() == 4,
        moore_at(g, m, n, i, j).len() == 8,
{
}

/// Boundary continuity: the wrapped lookup is periodic in both axes, so the
/// neighbourhood read at row `i + m` (conceptually, one full turn around the
/// torus) is the neighbourhood read at row `i`, and likewise for columns.
pub proof fn lemma_neighbours_wrap<T>(g: Seq<Seq<T>>, m: int, n: int, i: int, j: int)
    requires
        m >= 1,
        n >= 1,
    ensures
        von_neumann_at(g, m, n, i + m, j) == von_neumann_at(g, m, n, i, j),
        von_neumann_at(g, m, n, i, j + n) == von_neumann_at(g, m, n, i, j),
        moore_at(g, m, n, i + m, j) == moore_at(g, m, n, i, j),
        moore_at(g, m, n, i, j + n) == moore_at(g, m, n, i, j),
{
    lemma_mod_add_multiples_vanish(i - 1, m);
    lemma_mod_add_multiples_vanish(i, m);
    lemma_mod_add_multiples_vanish(i + 1, m);
    lemma_mod_add_multiples_vanish(j - 1, n);
    lemma_mod_add_multiples_vanish(j, n);
    lemma_mod_add_multiples_vanish(j + 1, n);
    assert(von_neumann_at(g, m, n, i + m, j) =~= von_neumann_at(g, m, n, i, j));
    assert(von_neumann_at(g, m, n, i, j + n) =~= von_neumann_at(g, m, n, i, j));
    assert(moore_at(g, m, n, i + m, j) =~= moore_at(g, m, n, i, j));
    assert(moore_at(g, m, n, i, j + n) =~= moore_at(g, m, n, i, j));
}

/// A transition rule for a two-dimensional engine.
///
/// `next_ok` says which values the rule may write at `(i, j)` given the
/// snapshot `g` of the current buffer and the engine's state count `q`.  A
/// deterministic rule pins the value down exactly; a randomised rule admits
/// every outcome one of its draws can produce.
pub trait Rule2D<T>: Sized {
    /// The values the rule may produce at `(i, j)` of the snapshot `g`.  The
    /// default admits every value: a rule that does not override it promises
    /// nothing about what it writes.
    open spec fn next_ok(&self, g: Seq<Seq<T>>, q: u32, i: int, j: int, r: T) -> bool {
        true
    }

    /// Compute the next value of cell `(i, j)` from the snapshot `cells`.
    fn next_value(&self, cells: &Vec<Vec<T>>, q: u32, i: usize, j: usize) -> (r: T)
        requires
            rect(grid_view(*cells)),
            i < cells@.len(),
            j < grid_view(*cells)[0].len(),
        ensures
            self.next_ok(grid_view(*cells), q, i as int, j as int, r),
    ;
}

/// A rule is deterministic when `next_ok` admits a single value per cell.
pub open spec fn rule_deterministic<T, R: Rule2D<T>>(rule: R) -> bool {
    forall|g: Seq<Seq<T>>, q: u32, i: int, j: int, r1: T, r2: T|
        #[trigger] rule.next_ok(g, q, i, j, r1) && #[trigger] rule.next_ok(g, q, i, j, r2)
            ==> r1 == r2
}

/// The coordinates a step (or a whole-grid initialisation) writes: the full
/// grid when `full` holds, else the interior, excluding the outermost ring.
pub open spec fn in_region(full: bool, m: int, n: int, i: int, j: int) -> bool {
    if full {
        0 <= i < m && 0 <= j < n
    } else {
        1 <= i < m - 1 && 1 <= j < n - 1
    }
}

/// `(i, j)` lies on the outermost ring of an `m` by `n` grid.
pub open spec fn on_border(m: int, n: int, i: int, j: int) -> bool {
    i == 0 || i == m - 1 || j == 0 || j == n - 1
}

/// How one synchronous step relates the grid before (`pre`) to the grid after
/// (`post`): every cell of the update region holds a value the rule admits
/// for its coordinate, read against `pre` alone, and every cell outside it is
/// unchanged.
pub open spec fn step_rel<T, R: Rule2D<T>>(
    rule: R,
    q: u32,
    torus: bool,
    m: int,
    n: int,
    pre: Seq<Seq<T>>,
    post: Seq<Seq<T>>,
) -> bool {
    &&& is_grid(pre, m, n)
    &&& is_grid(post, m, n)
    &&& forall|i: int, j: int|
        0 <= i < m && 0 <= j < n ==> {
            if in_region(torus, m, n, i, j) {
                rule.next_ok(pre, q, i, j, #[trigger] post[i][j])
            } else {
                post[i][j] == pre[i][j]
            }
        }
}

/// Determinism of a step: a deterministic rule leaves a step no choice, so
/// two grids that both stand in the step relation to the same predecessor are
/// equal.
pub proof fn lemma_step_deterministic<T, R: Rule2D<T>>(
    rule: R,
    q: u32,
    torus: bool,
    m: int,
    n: int,
    pre: Seq<Seq<T>>,
    post1: Seq<Seq<T>>,
    post2: Seq<Seq<T>>,
)
    requires
        rule_deterministic(rule),
        step_rel(rule, q, torus, m, n, pre, post1),
        step_rel(rule, q, torus, m, n, pre, post2),
    ensures
        post1 == post2,
{
    assert forall|i: int| 0 <= i < m implies post1[i] =~= post2[i] by {
        assert forall|j: int| 0 <= j < n implies post1[i][j] == post2[i][j] by {
            if in_region(torus, m, n, i, j) {
                assert(rule.next_ok(pre, q, i, j, post1[i][j]));
                assert(rule.next_ok(pre, q, i, j, post2[i][j]));
            }
        }
    }
    assert(post1 =~~= post2);
}

/// A run of an engine: consecutive grids of `gs` are related by one step.
pub open spec fn run_rel<T, R: Rule2D<T>>(
    rule: R,
    q: u32,
    torus: bool,
    m: int,
    n: int,
    gs: Seq<Seq<Seq<T>>>,
) -> bool {
    forall|k: int|
        0 <= k < gs.len() - 1 ==> step_rel(rule, q, torus, m, n, #[trigger] gs[k], gs[k + 1])
}

/// Determinism of a run: under a deterministic rule, two runs of the same
/// length from the same starting grid end in the same grid.
pub proof fn lemma_run_deterministic<T, R: Rule2D<T>>(
    rule: R,
    q: u32,
    torus: bool,
    m: int,
    n: int,
    gs1: Seq<Seq<Seq<T>>>,
    gs2: Seq<Seq<Seq<T>>>,
)
    requires
        rule_deterministic(rule),
        run_rel(rule, q, torus, m, n, gs1),
        run_rel(rule, q, torus, m, n, gs2),
        gs1.len() == gs2.len(),
        gs1.len() >= 1,
        gs1[0] == gs2[0],
    ensures
        gs1.last() == gs2.last(),
    decreases gs1.len(),
{
    if gs1.len() > 1 {
        assert(step_rel(rule, q, torus, m, n, gs1[0], gs1[1]));
        assert(step_rel(rule, q, torus, m, n, gs2[0], gs2[1]));
        lemma_step_deterministic(rule, q, torus, m, n, gs1[0], gs1[1], gs2[1]);
        let t1 = gs1.subrange(1, gs1.len() as int);
        let t2 = gs2.subrange(1, gs2.len() as int);
        assert forall|k: int| 0 <= k < t1.len() - 1 implies step_rel(
            rule, q, torus, m, n, #[trigger] t1[k], t1[k + 1],
        ) by {
            assert(t1[k] == gs1[k + 1]);
            assert(t1[k + 1] == gs1[k + 2]);
        }
        assert forall|k: int| 0 <= k < t2.len() - 1 implies step_rel(
            rule, q, torus, m, n, #[trigger] t2[k], t2[k + 1],
        ) by {
            assert(t2[k] == gs2[k + 1]);
            assert(t2[k + 1] == gs2[k + 2]);
        }
        lemma_run_deterministic(rule, q, torus, m, n, t1, t2);
        assert(gs1.last() == t1.last());
        assert(gs2.last() == t2.last());
    }
}

/// The frozen border: in fixed-border mode every step leaves the outermost
/// ring unchanged, so after any number of steps it still equals the ring of
/// the starting grid.
pub proof fn lemma_border_frozen<T, R: Rule2D<T>>(
    rule: R,
    q: u32,
    m: int,
    n: int,
    gs: Seq<Seq<Seq<T>>>,
    i: int,
    j: int,
)
    requires
        run_rel(rule, q, false, m, n, gs),
        gs.len() >= 1,
        0 <= i < m,
        0 <= j < n,
        on_border(m, n, i, j),
        is_grid(gs[0], m, n),
    ensures
        gs.last()[i][j] == gs[0][i][j],
    decreases gs.len(),
{
    if gs.len() > 1 {
        let t = gs.subrange(1, gs.len() as int);
        assert(step_rel(rule, q, false, m, n, gs[0], gs[1]));
        assert(!in_region(false, m, n, i, j));
        assert(gs[1][i][j] == gs[0][i][j]);
        assert forall|k: int| 0 <= k < t.len() - 1 implies step_rel(
            rule, q, false, m, n, #[trigger] t[k], t[k + 1],
        ) by {
            assert(t[k] == gs[k + 1]);
            assert(t[k + 1] == gs[k + 2]);
        }
        lemma_border_frozen(rule, q, m, n, t, i, j);
        assert(gs.last() == t.last());
    }
}

/// Decrement a grid index with toroidal wrap.
pub fn wrap_dec(i: usize, m: usize) -> (r: usize)
    requires
        i < m,
    ensures
        r as int == (i - 1) % (m as int),
        r < m,
{
    if i == 0 {
        proof {
            lemma_mod_add_multiples_vanish(-1, m as int);
            lemma_small_mod((m - 1) as nat, m as nat);
        }
        m - 1
    } else {
        proof {
            lemma_small_mod((i - 1) as nat, m as nat);
        }
        i - 1
    }
}

/// Increment a grid index with toroidal wrap.
pub fn wrap_inc(i: usize, m: usize) -> (r: usize)
    requires
        i < m,
    ensures
        r as int == (i + 1) % (m as int),
        r < m,
{
    if i + 1 == m {
        proof {
            lemma_mod_self_0(m as int);
        }
        0
    } else {
        proof {
            lemma_small_mod((i + 1) as nat, m as nat);
        }
        i + 1
    }
}

/// Read one cell of a buffer of rows.
pub fn grid_cell<T: Copy>(cells: &Vec<Vec<T>>, i: usize, j: usize) -> (r: T)
    requires
        i < cells@.len(),
        j < grid_view(*cells)[i as int].len(),
    ensures
        r == grid_view(*cells)[i as int][j as int],
{
    cells[i][j]
}

/// The von Neumann neighbourhood of `(i, j)` in a rectangular buffer.
pub fn grid_von_neumann<T: Copy>(cells: &Vec<Vec<T>>, i: usize, j: usize) -> (r: Vec<T>)
    requires
        rect(grid_view(*cells)),
        i < cells@.len(),
        j < grid_view(*cells)[0].len(),
    ensures
        r@ == von_neumann_at(
            grid_view(*cells),
            cells@.len() as int,
            grid_view(*cells)[0].len() as int,
            i as int,
            j as int,
        ),
{
    let ghost g = grid_view(*cells);
    let m = cells.len();
    let n = cells[0].len();
    let im1 = wrap_dec(i, m);
    let ip1 = wrap_inc(i, m);
    let jm1 = wrap_dec(j, n);
    let jp1 = wrap_inc(j, n);
    proof {
        lemma_small_mod(i as nat, m as nat);
        lemma_small_mod(j as nat, n as nat);
        assert forall|a: int| 0 <= a < m implies (#[trigger] cells@[a]@).len() == n by {
            assert(grid_view(*cells)[a] == cells@[a]@);
            assert(grid_view(*cells)[0] == cells@[0]@);
        }
    }
    let mut r: Vec<T> = Vec::new();
    r.push(cells[im1][j]);
    r.push(cells[i][jp1]);
    r.push(cells[ip1][j]);
    r.push(cells[i][jm1]);
    proof {
        assert(r@ =~= von_neumann_at(g, m as int, n as int, i as int, j as int));
    }
    r
}

/// The Moore neighbourhood of `(i, j)` in a rectangular buffer.
pub fn grid_moore<T: Copy>(cells: &Vec<Vec<T>>, i: usize, j: usize) -> (r: Vec<T>)
    requires
        rect(grid_view(*cells)),
        i < cells@.len(),
        j < grid_view(*cells)[0].len(),
    ensures
        r@ == moore_at(
            grid_view(*cells),
            cells@.len() as int,
            grid_view(*cells)[0].len() as int,
            i as int,
            j as int,
        ),
{
    let ghost g = grid_view(*cells);
    let m = cells.len();
    let n = cells[0].len();
    let im1 = wrap_dec(i, m);
    let ip1 = wrap_inc(i, m);
    let jm1 = wrap_dec(j, n);
    let jp1 = wrap_inc(j, n);
    let mut r = grid_von_neumann(cells, i, j);
    r.push(cells[im1][jm1]);
    r.push(cells[im1][jp1]);
    r.push(cells[ip1][jm1]);
    r.push(cells[ip1][jp1]);
    proof {
        assert(r@ =~= moore_at(g, m as int, n as int, i as int, j as int));
    }
    r
}

/// Writing one cell of a buffer of rows updates the grid it holds at exactly
/// that cell.
pub proof fn lemma_view_after_cell_write<T>(
    prev: Seq<Vec<T>>,
    cur: Seq<Vec<T>>,
    gprev: Seq<Seq<T>>,
    i: int,
    j: int,
    v: T,
)
    requires
        gprev == prev.map_values(|r: Vec<T>| r@),
        0 <= i < prev.len(),
        cur.len() == prev.len(),
        cur[i]@ == prev[i]@.update(j, v),
        forall|a: int| 0 <= a < prev.len() && a != i ==> cur[a] == prev[a],
    ensures
        cur.map_values(|r: Vec<T>| r@) == gprev.update(i, gprev[i].update(j, v)),
{
    let gcur = cur.map_values(|r: Vec<T>| r@);
    assert forall|a: int| 0 <= a < cur.len() implies #[trigger] gcur[a] == gprev.update(
        i,
        gprev[i].update(j, v),
    )[a] by {
        assert(gcur[a] == cur[a]@);
        assert(gprev[a] == prev[a]@);
        if a == i {
            assert(gprev[i] == prev[i]@);
        }
    }
    assert(gcur =~= gprev.update(i, gprev[i].update(j, v)));
}

/// Copy a row of values.
pub(crate) fn copy_values<T: Copy>(row: &Vec<T>) -> (r: Vec<T>)
    ensures
        r@ == row@,
{
    let mut r: Vec<T> = Vec::new();
    let mut k: usize = 0;
    while k < row.len()
        invariant
            k <= row@.len(),
            r@ == row@.subrange(0, k as int),
        decreases row@.len() - k,
    {
        r.push(row[k]);
        k += 1;
        proof {
            assert(r@ =~= row@.subrange(0, k as int));
        }
    }
    proof {
        assert(r@ =~= row@);
    }
    r
}

/// Deep-copy a buffer of rows.
pub(crate) fn copy_grid<T: Copy>(cells: &Vec<Vec<T>>) -> (r: Vec<Vec<T>>)
    ensures
        grid_view(r) == grid_view(*cells),
{
    let mut r: Vec<Vec<T>> = Vec::new();
    let mut k: usize = 0;
    while k < cells.len()
        invariant
            k <= cells@.len(),
            r@.len() == k,
            grid_view(r) == grid_view(*cells).subrange(0, k as int),
        decreases cells@.len() - k,
    {
        let row = copy_values(&cells[k]);
        let ghost prev = r@;
        r.push(row);
        k += 1;
        proof {
            assert(r@ == prev.push(row));
            assert forall|a: int| 0 <= a < k implies #[trigger] grid_view(r)[a] == grid_view(
                *cells,
            ).subrange(0, k as int)[a] by {
                if a < k - 1 {
                    assert(r@[a] == prev[a]);
                    assert(grid_view(*cells).subrange(0, k - 1)[a] == cells@[a]@);
                } else {
                    assert(r@[a] == row);
                    assert(grid_view(*cells)[a] == cells@[a]@);
                }
            }
            assert(grid_view(r) =~= grid_view(*cells).subrange(0, k as int));
        }
    }
    proof {
        assert(grid_view(r) =~= grid_view(*cells).subrange(0, cells@.len() as int));
        assert(grid_view(*cells).subrange(0, cells@.len() as int) =~= grid_view(*cells));
    }
    r
}

/// A grid of `m` rows and `n` columns, every cell holding `v`.
pub(crate) fn filled_grid<T: Copy>(m: usize, n: usize, v: T) -> (r: Vec<Vec<T>>)
    ensures
        is_grid(grid_view(r), m as int, n as int),
        forall|i: int, j: int|
            0 <= i < m && 0 <= j < n ==> grid_view(r)[i][j] == v,
{
    let mut r: Vec<Vec<T>> = Vec::new();
    let mut i: usize = 0;
    while i < m
        invariant
            i <= m,
            grid_view(r).len() == i,
            forall|a: int| 0 <= a < i ==> (#[trigger] grid_view(r)[a]).len() == n,
            forall|a: int, b: int| 0 <= a < i && 0 <= b < n ==> grid_view(r)[a][b] == v,
        decreases m - i,
    {
        let mut row: Vec<T> = Vec::new();
        let mut j: usize = 0;
        while j < n
            invariant
                j <= n,
                row@.len() == j,
                forall|b: int| 0 <= b < j ==> row@[b] == v,
            decreases n - j,
        {
            row.push(v);
            j += 1;
        }
        let ghost prev = r@;
        r.push(row);
        i += 1;
        proof {
            assert(r@ == prev.push(row));
            assert(grid_view(r)[i - 1] == row@);
            assert forall|a: int| 0 <= a < i - 1 implies #[trigger] grid_view(r)[a] == prev.map_values(|x: Vec<T>| x@)[a] by {
                assert(r@[a] == prev[a]);
            }
        }
    }
    r
}

} // verus!
