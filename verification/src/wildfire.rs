//! A wildfire simulation as a randomised rule plugin: vegetation grows on
//! ashes, catches fire from burning Moore neighbours (or, rarely, from a
//! dense old-growth cluster), and burns down to ashes again.  The rule draws
//! random numbers, so its contract is the set of successors each state
//! admits, not a single value.

use vstd::prelude::*;

verus! {

use crate::automaton_2d::Automaton2D;
use crate::grid::{grid_view, moore_at, grid_moore, grid_cell, Rule2D, filled_grid};
use crate::random::chance;
use crate::ColorMap;

pub const ROCK: u8 = 0;

pub const ASHES: u8 = 1;

pub const YOUNG: u8 = 2;

pub const OLD: u8 = 3;

pub const NEW_FIRE: u8 = 4;

pub const FIRE: u8 = 5;

pub const FADING_FIRE: u8 = 6;

pub const GREY: u32 = 0xB0B0B0;

pub const BLACK: u32 = 0x3B3737;

pub const GREEN: u32 = 0x68E180;

pub const DARK_GREEN: u32 = 0x24A609;

pub const YELLOW: u32 = 0xF2F26E;

pub const ORANGE: u32 = 0xE48F01;

pub const RED: u32 = 0xBA2E0B;

/// Some neighbour is burning, in any of the three fire stages.
pub open spec fn has_fire_neighbour(nb: Seq<u8>) -> bool {
    nb.contains(NEW_FIRE) || nb.contains(FIRE) || nb.contains(FADING_FIRE)
}

/// How many cells of `s` hold the value `x`.
pub open spec fn count_of(s: Seq<u8>, x: u8) -> int
    decreases s.len(),
{
    if s.len() == 0 {
        0
    } else {
        count_of(s.drop_last(), x) + if s.last() == x {
            1int
        } else {
            0int
        }
    }
}

/// The successors the wildfire rule admits at `(i, j)`: each state either
/// stays put or moves one step along the rock / vegetation / fire cycle, and
/// vegetation can only ignite when a Moore neighbour burns or, for old
/// growth, when at least five of the eight neighbours are old growth too.
pub open spec fn wildfire_ok(g: Seq<Seq<u8>>, i: int, j: int, r: u8) -> bool {
    let nb = moore_at(g, g.len() as int, g[0].len() as int, i, j);
    let c = g[i][j];
    if c == ROCK {
        r == ROCK
    } else if c == ASHES {
        r == ASHES || r == YOUNG
    } else if c == YOUNG {
        r == YOUNG || r == OLD || (r == NEW_FIRE && has_fire_neighbour(nb))
    } else if c == OLD {
        r == OLD || (r == NEW_FIRE && (has_fire_neighbour(nb) || count_of(nb, OLD) >= 5))
    } else if c == NEW_FIRE {
        r == NEW_FIRE || r == FIRE
    } else if c == FIRE {
        r == FIRE || r == FADING_FIRE
    } else if c == FADING_FIRE {
        r == FADING_FIRE || r == ASHES
    } else {
        r == ROCK
    }
}

/// Whether a buffer of cells holds the value `x`.
fn has_value(v: &Vec<u8>, x: u8) -> (b: bool)
    ensures
        b == v@.contains(x),
{
    let mut k: usize = 0;
    while k < v.len()
        invariant
            k <= v@.len(),
            forall|t: int| 0 <= t < k ==> v@[t] != x,
        decreases v@.len() - k,
    {
        if v[k] == x {
            proof {
                assert(v@[k as int] == x);
            }
            return true;
        }
        k += 1;
    }
    false
}

/// How many cells of a buffer hold the value `x`.
fn count_values(v: &Vec<u8>, x: u8) -> (c: usize)
    ensures
        c == count_of(v@, x),
{
    let mut c: usize = 0;
    let mut k: usize = 0;
    while k < v.len()
        invariant
            k <= v@.len(),
            c == count_of(v@.take(k as int), x),
            c <= k,
        decreases v@.len() - k,
    {
        if v[k] == x {
            c += 1;
        }
        k += 1;
        proof {
            assert(v@.take(k as int).drop_last() =~= v@.take(k - 1));
            assert(v@.take(k as int).last() == v@[k - 1]);
        }
    }
    proof {
        assert(v@.take(v@.len() as int) =~= v@);
    }
    c
}

/// The wildfire transition rule.  Every random draw it makes leads to a
/// successor that `wildfire_ok` admits.
pub struct WildfireRule;

impl Rule2D<u8> for WildfireRule {
    open spec fn next_ok(&self, g: Seq<Seq<u8>>, q: u32, i: int, j: int, r: u8) -> bool {
        wildfire_ok(g, i, j, r)
    }

    fn next_value(&self, cells: &Vec<Vec<u8>>, q: u32, i: usize, j: usize) -> (r: u8) {
        proof {
            assert(grid_view(*cells)[i as int].len() == grid_view(*cells)[0].len());
        }
        let c = grid_cell(cells, i, j);
        if c == ROCK {
            ROCK
        } else if c == ASHES {
            if chance(1, 1000) {
                YOUNG
            } else {
                ASHES
            }
        } else if c == YOUNG {
            let nb = grid_moore(cells, i, j);
            if chance(1, 100) && has_value(&nb, NEW_FIRE) {
                NEW_FIRE
            } else if chance(1, 50) && has_value(&nb, FIRE) {
                NEW_FIRE
            } else if chance(1, 100) && has_value(&nb, FADING_FIRE) {
                NEW_FIRE
            } else if chance(5, 1000) {
                OLD
            } else {
                YOUNG
            }
        } else if c == OLD {
            let nb = grid_moore(cells, i, j);
            if chance(1, 10) && has_value(&nb, NEW_FIRE) {
                NEW_FIRE
            } else if chance(2, 10) && has_value(&nb, FIRE) {
                NEW_FIRE
            } else if chance(1, 10) && has_value(&nb, FADING_FIRE) {
                NEW_FIRE
            } else if chance(5, 100000) && count_values(&nb, OLD) >= 5 {
                NEW_FIRE
            } else {
                OLD
            }
        } else if c == NEW_FIRE {
            if chance(1, 10) {
                FIRE
            } else {
                NEW_FIRE
            }
        } else if c == FIRE {
            if chance(1, 10) {
                FADING_FIRE
            } else {
                FIRE
            }
        } else if c == FADING_FIRE {
            if chance(1, 10) {
                ASHES
            } else {
                FADING_FIRE
            }
        } else {
            ROCK
        }
    }
}

/// The wildfire colours: one fixed colour per state.
pub struct WildfireColor;

impl ColorMap<u8> for WildfireColor {
    open spec fn color_spec(&self, v: u8) -> u32 {
        if v == ROCK {
            GREY
        } else if v == ASHES {
            BLACK
        } else if v == YOUNG {
            GREEN
        } else if v == OLD {
            DARK_GREEN
        } else if v == NEW_FIRE {
            YELLOW
        } else if v == FIRE {
            ORANGE
        } else if v == FADING_FIRE {
            RED
        } else {
            GREY
        }
    }

    fn color_of(&self, v: u8) -> (c: u32) {
        if v == ROCK {
            GREY
        } else if v == ASHES {
            BLACK
        } else if v == YOUNG {
            GREEN
        } else if v == OLD {
            DARK_GREEN
        } else if v == NEW_FIRE {
            YELLOW
        } else if v == FIRE {
            ORANGE
        } else if v == FADING_FIRE {
            RED
        } else {
            GREY
        }
    }
}

/// A wildfire engine of `m` by `n` cells, all bare rock.
pub fn new(m: usize, n: usize, torus: bool) -> (a: Automaton2D<u8, WildfireRule, WildfireColor>)
    ensures
        a.wf(),
        a.m == m,
        a.n == n,
        a.q == 7,
        a.torus == torus,
        a.states@ == seq![ROCK, ASHES, YOUNG, OLD, NEW_FIRE, FIRE, FADING_FIRE],
        forall|i: int, j: int| 0 <= i < m && 0 <= j < n ==> #[trigger] a.grid()[i][j] == ROCK,
        a.back() == a.grid(),
{
    let cells = filled_grid(m, n, ROCK);
    let mut states: Vec<u8> = Vec::new();
    states.push(ROCK);
    states.push(ASHES);
    states.push(YOUNG);
    states.push(OLD);
    states.push(NEW_FIRE);
    states.push(FIRE);
    states.push(FADING_FIRE);
    proof {
        assert(states@ =~= seq![ROCK, ASHES, YOUNG, OLD, NEW_FIRE, FIRE, FADING_FIRE]);
    }
    match Automaton2D::new(m, n, 7, states, torus, WildfireRule, WildfireColor, cells) {
        Ok(a) => a,
        Err(_) => vstd::pervasive::unreached(),
    }
}

} // verus!
