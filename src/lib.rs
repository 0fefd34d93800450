//! A generic cellular-automaton engine: cells that compute their next value
//! from their neighbors, grids that step all cells at once, and a grid whose
//! cells are themselves grids.

pub mod life;
pub mod meta;
pub mod neighborhood;

use vstd::prelude::*;

verus! {

/// A cell of an automaton: its next value is a function of its own value and
/// of the ordered list of its neighbors.
pub trait State: View + Sized {
    /// What every value handed to or returned by `local_transition` satisfies.
    spec fn inv(&self) -> bool;

    /// The next value of a cell, given the views of its neighbors.
    spec fn next(v: Self::V, neighbors: Seq<Self::V>) -> Self::V;

    fn local_transition(&self, neighbors: &Vec<&Self>) -> (r: Self)
        requires
            self.inv(),
            forall|k: int| 0 <= k < neighbors@.len() ==> (#[trigger] neighbors@[k]).inv(),
        ensures
            r.inv(),
            r@ == Self::next(self@, neighbors@.map_values(|c: &Self| c@)),
    ;
}

/// A grid of cells that advances all of them in one synchronous step.
pub trait Automata: View + Sized {
    spec fn inv(&self) -> bool;

    /// The grid after one step, as a function of the grid before it.
    spec fn step(v: Self::V) -> Self::V;

    fn global_transition(&self) -> (r: Self)
        requires
            self.inv(),
        ensures
            r.inv(),
            r@ == Self::step(self@),
    ;
}

/// Why a grid operation was refused.
#[derive(Clone, Copy, Debug, PartialEq, Eq, Structural)]
pub enum GridError {
    /// A coordinate or index lies outside the grid.
    OutOfBounds,
    /// The number of cells given differs from width times height.
    SizeMismatch,
}

} // verus!
