//! A colour-gradient automaton over the generic two-dimensional engine: each
//! cell averages its Moore neighbourhood and itself, then advances one hue
//! step, wrapping modulo the state count.

use vstd::prelude::*;

verus! {

use crate::automaton_2d::Automaton2D;
use crate::color_gradient::GradientRule;
use crate::grid::filled_grid;
use crate::ColorMap;

/// A colour map backed by a lookup table indexed by the cell value; values
/// beyond the table are drawn black.
pub struct TableColor {
    pub table: Vec<u32>,
}

impl ColorMap<u32> for TableColor {
    open spec fn color_spec(&self, v: u32) -> u32 {
        if v < self.table@.len() {
            self.table@[v as int]
        } else {
            0
        }
    }

    fn color_of(&self, v: u32) -> (c: u32) {
        if (v as usize) < self.table.len() {
            self.table[v as usize]
        } else {
            0
        }
    }
}

/// A colour-gradient engine of `m` by `n` cells over 360 hue states, all
/// starting at hue 0, coloured through the supplied lookup table, whose
/// entry `k` is the colour of hue `k`.
pub fn new(m: usize, n: usize, torus: bool, colors: Vec<u32>) -> (a: Automaton2D<
    u32,
    GradientRule,
    TableColor,
>)
    ensures
        a.wf(),
        a.m == m,
        a.n == n,
        a.q == 360,
        a.torus == torus,
        a.color.table == colors,
        a.states@.len() == 360,
        forall|k: int| 0 <= k < 360 ==> #[trigger] a.states@[k] == k as u32,
        forall|i: int, j: int| 0 <= i < m && 0 <= j < n ==> #[trigger] a.grid()[i][j] == 0,
        a.back() == a.grid(),
{
    let cells = filled_grid(m, n, 0u32);
    let mut states: Vec<u32> = Vec::new();
    let mut k: u32 = 0;
    while k < 360
        invariant
            k <= 360,
            states@.len() == k,
            forall|t: int| 0 <= t < k ==> #[trigger] states@[t] == t as u32,
        decreases 360 - k,
    {
        states.push(k);
        k += 1;
    }
    match Automaton2D::new(m, n, 360, states, torus, GradientRule, TableColor { table: colors }, cells) {
        Ok(a) => a,
        Err(_) => vstd::pervasive::unreached(),
    }
}

} // verus!
