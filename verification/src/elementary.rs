//! Elementary one-dimensional automata: the next value of a cell is the bit
//! of an eight-bit rule number selected by the three-cell neighbourhood,
//! read as the binary number `left * 4 + self * 2 + right`.

use vstd::prelude::*;

verus! {

use crate::automaton_1d::{Automaton1D, Rule1D, line_rule_deterministic, line_neighbours, neighbours_at};
use crate::ColorMap;

/// A cell read as one bit.
pub open spec fn bit_of(v: bool) -> u8 {
    if v {
        1
    } else {
        0
    }
}

/// The neighbourhood configuration: `left * 4 + self * 2 + right`.
pub open spec fn config_of(l: bool, c: bool, r: bool) -> u8 {
    (4 * bit_of(l) + 2 * bit_of(c) + bit_of(r)) as u8
}

/// The elementary rule's value at `i`: bit `config` of the rule number.
pub open spec fn elementary_next(rule: u8, g: Seq<bool>, n: int, i: int) -> bool {
    let nb = neighbours_at(g, n, i);
    ((rule >> config_of(nb[0], nb[1], nb[2])) & 1) != 0
}

/// An elementary transition rule, named by its eight-bit rule number.
pub struct ElementaryRule {
    pub rule: u8,
}

impl Rule1D<bool> for ElementaryRule {
    open spec fn next_ok(&self, g: Seq<bool>, q: u32, i: int, r: bool) -> bool {
        r == elementary_next(self.rule, g, g.len() as int, i)
    }

    fn next_value(&self, cells: &Vec<bool>, q: u32, i: usize) -> (r: bool) {
        let nb = line_neighbours(cells, i);
        let config: u8 = (if nb[0] {
            4
        } else {
            0
        }) + (if nb[1] {
            2
        } else {
            0
        }) + (if nb[2] {
            1
        } else {
            0
        });
        ((self.rule >> config) & 1) != 0
    }
}

/// An elementary rule is deterministic: it admits a single value per cell.
pub proof fn lemma_elementary_rule_deterministic(rule: u8)
    ensures
        line_rule_deterministic::<bool, ElementaryRule>(ElementaryRule { rule }),
{
}

/// The elementary colours: white for a dead cell, black for a live one.
pub struct BinaryColor;

impl ColorMap<bool> for BinaryColor {
    open spec fn color_spec(&self, v: bool) -> u32 {
        if v {
            0
        } else {
            0xFFFFFF
        }
    }

    fn color_of(&self, v: bool) -> (c: u32) {
        if v {
            0
        } else {
            0xFFFFFF
        }
    }
}

/// An elementary engine of `n` cells, all dead but a single live seed at the
/// centre cell `n / 2`.
pub fn new(n: usize, rule: &'static u8, torus: bool) -> (a: Automaton1D<
    bool,
    ElementaryRule,
    BinaryColor,
>)
    requires
        n >= 1,
    ensures
        a.wf(),
        a.n == n,
        a.q == 2,
        a.torus == torus,
        a.rule == (ElementaryRule { rule: *rule }),
        a.states@ == seq![false, true],
        forall|i: int| 0 <= i < n ==> (#[trigger] a.line()[i] <==> i == n as int / 2),
        a.back() == a.line(),
{
    let mut cells: Vec<bool> = Vec::new();
    let mut k: usize = 0;
    while k < n
        invariant
            k <= n,
            cells@.len() == k,
            forall|i: int| 0 <= i < k ==> !(#[trigger] cells@[i]),
        decreases n - k,
    {
        cells.push(false);
        k += 1;
    }
    cells[n / 2] = true;
    let mut states: Vec<bool> = Vec::new();
    states.push(false);
    states.push(true);
    proof {
        assert(states@ =~= seq![false, true]);
    }
    match Automaton1D::new(n, 2, states, torus, ElementaryRule { rule: *rule }, BinaryColor, cells) {
        Ok(a) => a,
        Err(_) => vstd::pervasive::unreached(),
    }
}

} // verus!
