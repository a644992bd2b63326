//! The cell states and the pure decision core of an epidemic simulation.
//!
//! The stochastic part of the plugin — drawing against infection and
//! Gaussian-shaped recovery and death probabilities — lives outside the
//! verified library; it reduces each draw to three booleans and hands them,
//! with the infected-neighbour count that scales the infection probability,
//! to the verified transition below.

use vstd::prelude::*;

verus! {

use crate::ColorMap;

/// The state of one inhabitant: an infected cell carries the number of days
/// since infection.
#[allow(non_camel_case_types)]
#[derive(Clone, Copy, Debug, PartialEq, Eq, Hash, Structural)]
pub enum State {
    HEALTHY,
    INFECTED(u32),
    RECOVERED,
    DEAD,
}

/// Whether a cell is infected, at any day count.
pub open spec fn is_infected(s: State) -> bool {
    s matches State::INFECTED(_)
}

/// How many cells of `s` are infected.
pub open spec fn count_infected_of(s: Seq<State>) -> int
    decreases s.len(),
{
    if s.len() == 0 {
        0
    } else {
        count_infected_of(s.drop_last()) + if is_infected(s.last()) {
            1int
        } else {
            0int
        }
    }
}

/// How many cells of a neighbourhood are infected.
pub fn count_infected(neighbours: &Vec<State>) -> (c: usize)
    ensures
        c == count_infected_of(neighbours@),
{
    let mut c: usize = 0;
    let mut k: usize = 0;
    while k < neighbours.len()
        invariant
            k <= neighbours@.len(),
            c == count_infected_of(neighbours@.take(k as int)),
            c <= k,
        decreases neighbours@.len() - k,
    {
        match neighbours[k] {
            State::INFECTED(_) => {
                c += 1;
            },
            _ => {},
        }
        k += 1;
        proof {
            assert(neighbours@.take(k as int).drop_last() =~= neighbours@.take(k - 1));
            assert(neighbours@.take(k as int).last() == neighbours@[k - 1]);
        }
    }
    proof {
        assert(neighbours@.take(neighbours@.len() as int) =~= neighbours@);
    }
    c
}

/// The epidemic transition: a healthy cell catches the infection when the
/// caller's draw says so; an infected cell recovers, dies, or carries the
/// infection one day further; the recovered and the dead stay as they are.
pub open spec fn epidemic_next(cell: State, catch: bool, recover: bool, die: bool) -> State {
    match cell {
        State::HEALTHY => if catch {
            State::INFECTED(0)
        } else {
            State::HEALTHY
        },
        State::INFECTED(x) => if recover {
            State::RECOVERED
        } else if die {
            State::DEAD
        } else {
            State::INFECTED((x + 1) as u32)
        },
        State::RECOVERED => State::RECOVERED,
        State::DEAD => State::DEAD,
    }
}

/// Apply the epidemic transition to one cell, given the outcomes of the
/// caller's random draws: whether the cell catches the infection, recovers,
/// or dies this step.
pub fn next_state(cell: State, catch: bool, recover: bool, die: bool) -> (r: State)
    requires
        cell matches State::INFECTED(x) ==> x < u32::MAX,
    ensures
        r == epidemic_next(cell, catch, recover, die),
{
    match cell {
        State::HEALTHY => if catch {
            State::INFECTED(0)
        } else {
            State::HEALTHY
        },
        State::INFECTED(x) => if recover {
            State::RECOVERED
        } else if die {
            State::DEAD
        } else {
            State::INFECTED(x + 1)
        },
        State::RECOVERED => State::RECOVERED,
        State::DEAD => State::DEAD,
    }
}

/// The epidemic colours: white for healthy, red for infected, green for
/// recovered, black for dead.
pub struct EpidemicColor;

impl ColorMap<State> for EpidemicColor {
    open spec fn color_spec(&self, v: State) -> u32 {
        match v {
            State::HEALTHY => 0xFFFFFF,
            State::INFECTED(_) => 0xFF0000,
            State::RECOVERED => 0x00FF00,
            State::DEAD => 0,
        }
    }

    fn color_of(&self, v: State) -> (c: u32) {
        match v {
            State::HEALTHY => 0xFFFFFF,
            State::INFECTED(_) => 0xFF0000,
            State::RECOVERED => 0x00FF00,
            State::DEAD => 0,
        }
    }
}

} // verus!
