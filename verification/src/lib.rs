//! A generic cellular-automaton engine.
//!
//! The crate keeps a grid (or a line) of discrete cell values and advances it
//! one synchronous step at a time under a pluggable transition rule.  Two
//! boundary policies are supported: toroidal wrap, where every cell is
//! updated and neighbour lookups wrap around both axes, and fixed border,
//! where the outermost ring is frozen at its initialised value while
//! neighbour lookups still use the same wrapping convention.

use vstd::prelude::*;

pub mod automaton;
pub mod automaton_1d;
pub mod automaton_2d;
pub mod color;
pub mod color_gradient;
pub mod elementary;
pub mod epidemic;
pub mod game_of_life;
pub mod grid;
pub mod random;
pub mod wildfire;

verus! {

/// Why an engine could not be built or seeded.
#[derive(Clone, Copy, Debug, PartialEq, Eq, Structural)]
pub enum EngineError {
    /// The supplied initial cells do not have the declared dimensions.
    DimensionMismatch,
    /// A random initialisation was requested but the value domain is empty.
    EmptyDomain,
}

/// A map from a cell value to its packed 24-bit display colour.
///
/// `color_of` is a pure lookup: it must return exactly `color_spec(v)`, so
/// asking for the colour of the same value twice gives the same answer.
pub trait ColorMap<T> {
    /// The colour assigned to the value `v`.
    spec fn color_spec(&self, v: T) -> u32;

    /// Look the colour of `v` up.
    fn color_of(&self, v: T) -> (c: u32)
        ensures
            c == self.color_spec(v),
    ;
}

/// Colour lookup is idempotent: two lookups of the same value, with no step
/// in between, return the same colour, since both equal `color_spec`.
pub proof fn lemma_color_lookup_idempotent<T, C: ColorMap<T>>(map: &C, v: T, c1: u32, c2: u32)
    requires
        c1 == map.color_spec(v),
        c2 == map.color_spec(v),
    ensures
        c1 == c2,
{
}

} // verus!
