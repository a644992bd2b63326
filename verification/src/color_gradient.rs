//! A colour-gradient automaton over the table-coloured engine: each cell
//! averages its Moore neighbourhood and itself, then advances one hue step,
//! wrapping modulo the state count.

use vstd::prelude::*;

verus! {

use crate::automaton::Automaton;
use crate::grid::{grid_view, moore_at, grid_moore, grid_cell, Rule2D, rule_deterministic, filled_grid};

/// The sum of a sequence of cell values.
pub open spec fn sum_of(s: Seq<u32>) -> int
    decreases s.len(),
{
    if s.len() == 0 {
        0
    } else {
        sum_of(s.drop_last()) + s.last()
    }
}

/// Sum the values of a short buffer of cells.
fn sum_values(v: &Vec<u32>) -> (s: u64)
    requires
        v@.len() <= 1000,
    ensures
        s == sum_of(v@),
{
    let mut s: u64 = 0;
    let mut k: usize = 0;
    while k < v.len()
        invariant
            k <= v@.len(),
            v@.len() <= 1000,
            s == sum_of(v@.take(k as int)),
            s <= 0xFFFFFFFF * (k as u64),
        decreases v@.len() - k,
    {
        s = s + v[k] as u64;
        k += 1;
        proof {
            assert(v@.take(k as int).drop_last() =~= v@.take(k - 1));
            assert(v@.take(k as int).last() == v@[k - 1]);
        }
    }
    proof {
        assert(v@.take(v@.len() as int) =~= v@);
    }
    s
}

/// The gradient rule's value at `(i, j)`: the mean of the cell and its Moore
/// neighbourhood (truncated), plus one, modulo the state count.
pub open spec fn gradient_next(g: Seq<Seq<u32>>, q: u32, i: int, j: int) -> u32 {
    let total = sum_of(moore_at(g, g.len() as int, g[0].len() as int, i, j)) + g[i][j];
    let x = total / 9;
    if q == 0 {
        0
    } else {
        ((x + 1) % (q as int)) as u32
    }
}

/// The colour-gradient transition rule.
pub struct GradientRule;

impl Rule2D<u32> for GradientRule {
    open spec fn next_ok(&self, g: Seq<Seq<u32>>, q: u32, i: int, j: int, r: u32) -> bool {
        r == gradient_next(g, q, i, j)
    }

    fn next_value(&self, cells: &Vec<Vec<u32>>, q: u32, i: usize, j: usize) -> (r: u32) {
        let mut neighbours = grid_moore(cells, i, j);
        proof {
            assert(grid_view(*cells)[i as int].len() == grid_view(*cells)[0].len());
        }
        neighbours.push(grid_cell(cells, i, j));
        let ghost nb = moore_at(
            grid_view(*cells),
            cells@.len() as int,
            grid_view(*cells)[0].len() as int,
            i as int,
            j as int,
        );
        proof {
            assert(neighbours@.drop_last() =~= nb);
            assert(sum_of(neighbours@) == sum_of(nb) + grid_view(*cells)[i as int][j as int]);
        }
        let total = sum_values(&neighbours);
        let x = total / 9;
        if q == 0 {
            0
        } else {
            let w = (x + 1) % (q as u64);
            proof {
                assert(w < q);
            }
            w as u32
        }
    }
}

/// The gradient rule is deterministic: it admits a single value per cell.
pub proof fn lemma_gradient_rule_deterministic()
    ensures
        rule_deterministic::<u32, GradientRule>(GradientRule),
{
}

/// A colour-gradient engine of `m` by `n` cells over 360 hue states, all
/// starting at hue 0, coloured through the supplied 360-entry table.
pub fn new(m: usize, n: usize, torus: bool, colors: Vec<u32>) -> (a: Automaton<GradientRule>)
    ensures
        a.wf(),
        a.m == m,
        a.n == n,
        a.q == 360,
        a.torus == torus,
        a.colors == colors,
        forall|i: int, j: int| 0 <= i < m && 0 <= j < n ==> #[trigger] a.grid()[i][j] == 0,
        a.back() == a.grid(),
{
    let cells = filled_grid(m, n, 0u32);
    match Automaton::new(m, n, 360, torus, GradientRule, colors, cells) {
        Ok(a) => a,
        Err(_) => vstd::pervasive::unreached(),
    }
}

} // verus!
