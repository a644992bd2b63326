//! Conway's game of life as a rule plugin for the two-dimensional engine:
//! two states, dead (0) and alive (1); a dead cell with exactly three live
//! Moore neighbours is born, a live cell with two or three survives.

use vstd::prelude::*;

verus! {

use crate::automaton_2d::Automaton2D;
use crate::grid::{
    grid_view, moore_at, grid_moore, grid_cell, Rule2D, rule_deterministic, filled_grid,
};
use crate::ColorMap;

/// The sum of a sequence of cell values.
pub open spec fn sum_of(s: Seq<u8>) -> int
    decreases s.len(),
{
    if s.len() == 0 {
        0
    } else {
        sum_of(s.drop_last()) + s.last()
    }
}

/// Sum the values of a short buffer of cells.
fn sum_values(v: &Vec<u8>) -> (s: u32)
    requires
        v@.len() <= 1000,
    ensures
        s == sum_of(v@),
{
    let mut s: u32 = 0;
    let mut k: usize = 0;
    while k < v.len()
        invariant
            k <= v@.len(),
            v@.len() <= 1000,
            s == sum_of(v@.take(k as int)),
            s <= 255 * k,
        decreases v@.len() - k,
    {
        s = s + v[k] as u32;
        k += 1;
        proof {
            assert(v@.take(k as int).drop_last() =~= v@.take(k - 1));
            assert(v@.take(k as int).last() == v@[k - 1]);
        }
    }
    proof {
        assert(v@.take(v@.len() as int) =~= v@);
    }
    s
}

/// The life rule's value at `(i, j)`: the Moore neighbourhood is summed, so
/// with cells held to 0 and 1 the sum is the live-neighbour count.
pub open spec fn life_next(g: Seq<Seq<u8>>, i: int, j: int) -> u8 {
    let alive = sum_of(moore_at(g, g.len() as int, g[0].len() as int, i, j));
    let c = g[i][j];
    if c == 0 {
        if alive == 3 {
            1
        } else {
            0
        }
    } else if c == 1 {
        if alive == 2 || alive == 3 {
            1
        } else {
            0
        }
    } else {
        0
    }
}

/// The game-of-life transition rule.
pub struct LifeRule;

impl Rule2D<u8> for LifeRule {
    open spec fn next_ok(&self, g: Seq<Seq<u8>>, q: u32, i: int, j: int, r: u8) -> bool {
        r == life_next(g, i, j)
    }

    fn next_value(&self, cells: &Vec<Vec<u8>>, q: u32, i: usize, j: usize) -> (r: u8) {
        let neighbours = grid_moore(cells, i, j);
        let alive = sum_values(&neighbours);
        proof {
            assert(grid_view(*cells)[i as int].len() == grid_view(*cells)[0].len());
        }
        let c = grid_cell(cells, i, j);
        if c == 0 {
            if alive == 3 {
                1
            } else {
                0
            }
        } else if c == 1 {
            if alive == 2 || alive == 3 {
                1
            } else {
                0
            }
        } else {
            0
        }
    }
}

/// The life rule is deterministic: it admits a single value per cell.
pub proof fn lemma_life_rule_deterministic()
    ensures
        rule_deterministic::<u8, LifeRule>(LifeRule),
{
}

/// The life colours: white for a dead cell, black otherwise.
pub struct LifeColor;

impl ColorMap<u8> for LifeColor {
    open spec fn color_spec(&self, v: u8) -> u32 {
        if v == 0 {
            0xFFFFFF
        } else {
            0
        }
    }

    fn color_of(&self, v: u8) -> (c: u32) {
        if v == 0 {
            0xFFFFFF
        } else {
            0
        }
    }
}

/// A game-of-life engine of `m` by `n` cells, all dead.
pub fn new(m: usize, n: usize, torus: bool) -> (a: Automaton2D<u8, LifeRule, LifeColor>)
    ensures
        a.wf(),
        a.m == m,
        a.n == n,
        a.q == 2,
        a.torus == torus,
        a.states@ == seq![0u8, 1u8],
        forall|i: int, j: int| 0 <= i < m && 0 <= j < n ==> #[trigger] a.grid()[i][j] == 0,
        a.back() == a.grid(),
{
    let cells = filled_grid(m, n, 0u8);
    let mut states: Vec<u8> = Vec::new();
    states.push(0);
    states.push(1);
    proof {
        assert(states@ =~= seq![0u8, 1u8]);
    }
    match Automaton2D::new(m, n, 2, states, torus, LifeRule, LifeColor, cells) {
        Ok(a) => a,
        Err(_) => vstd::pervasive::unreached(),
    }
}

} // verus!
