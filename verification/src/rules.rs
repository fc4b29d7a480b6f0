//! The rules of the automaton that are decided on numbers of neighbours and on the
//! outcome of comparisons, and the bundle of arithmetic rules that a caller supplies.

use vstd::prelude::*;
use crate::lattice::Ring;

verus! {

/// What the attachment rule needs to know about a boundary cell: how its boundary
/// mass compares with the three thresholds, and whether the vapor around it has
/// run low.
#[derive(Clone, Copy, Debug, PartialEq, Eq)]
pub struct Evidence {
    /// The boundary mass has reached the threshold for tips and flat spots.
    pub reaches_tip_threshold: bool,
    /// The boundary mass has reached one.
    pub saturated: bool,
    /// The boundary mass has reached the threshold for concave spots.
    pub reaches_concave_threshold: bool,
    /// The vapor of the six neighbours sums to less than the depletion threshold.
    pub vapor_depleted: bool,
}

/// The ways in which a step can find the lattice inconsistent.
#[derive(Clone, Copy, Debug, PartialEq, Eq)]
pub enum StepError {
    /// A cell was treated as a boundary cell although none of its neighbours is
    /// frozen.
    InvariantViolation,
}

/// Whether a boundary cell with `k` frozen neighbours freezes: with one or two it
/// needs the tip threshold; with three it needs to be saturated, or to reach the
/// concave threshold while the vapor around it is depleted; with four or more it
/// always freezes.
pub open spec fn attaches_spec(k: int, e: Evidence) -> bool {
    if k <= 2 {
        e.reaches_tip_threshold
    } else if k == 3 {
        e.saturated || (e.reaches_concave_threshold && e.vapor_depleted)
    } else {
        true
    }
}

/// Decides whether a boundary cell with `k` frozen neighbours freezes. A cell
/// without frozen neighbours is no boundary cell, and asking about one is an error.
pub fn attaches(k: u8, e: Evidence) -> (r: Result<bool, StepError>)
    ensures
        k == 0 <==> r == Err::<bool, StepError>(StepError::InvariantViolation),
        k > 0 <==> r == Ok::<bool, StepError>(attaches_spec(k as int, e)),
{
    if k == 0 {
        Err(StepError::InvariantViolation)
    } else if k <= 2 {
        Ok(e.reaches_tip_threshold)
    } else if k == 3 {
        Ok(e.saturated || (e.reaches_concave_threshold && e.vapor_depleted))
    } else {
        Ok(true)
    }
}

/// The arithmetic of the automaton, supplied by the caller.
///
/// The library decides which cells a stage touches and which values it reads; what
/// becomes of the values is up to these functions.
pub struct Rules<T, D, F, P, A, M, N> {
    /// The quantity that stands for "nothing": the vapor of a frozen cell and the
    /// boundary mass of a cell that has just frozen.
    pub zero: T,
    /// Diffusion: from a cell's vapor, the vapor around it and the number of its
    /// frozen neighbours to its new vapor.
    pub diffuse: D,
    /// Freezing: from a boundary cell's boundary mass, crystal mass and vapor to its
    /// new boundary mass and crystal mass.
    pub freeze: F,
    /// The comparisons behind attachment: from a boundary cell's boundary mass and
    /// the vapor around it to the evidence.
    pub probe: P,
    /// Attachment: from a freezing cell's boundary mass and crystal mass to its new
    /// crystal mass.
    pub attach: A,
    /// Melting: from an exposed cell's boundary mass, crystal mass and vapor to the
    /// new three.
    pub melt: M,
    /// Noise: from a cell's vapor and the side on which its coin fell to its new
    /// vapor.
    pub perturb: N,
}

impl<T, D, F, P, A, M, N> Rules<T, D, F, P, A, M, N> where
    D: Fn(T, Ring<T>, u8) -> T,
    F: Fn(T, T, T) -> (T, T),
    P: Fn(T, Ring<T>) -> Evidence,
    A: Fn(T, T) -> T,
    M: Fn(T, T, T) -> (T, T, T),
    N: Fn(T, bool) -> T,
 {
    /// Every rule accepts every input.
    pub open spec fn total(&self) -> bool {
        &&& forall|own: T, around: Ring<T>, k: u8| call_requires(self.diffuse, (own, around, k))
        &&& forall|b: T, c: T, d: T| call_requires(self.freeze, (b, c, d))
        &&& forall|b: T, around: Ring<T>| call_requires(self.probe, (b, around))
        &&& forall|b: T, c: T| call_requires(self.attach, (b, c))
        &&& forall|b: T, c: T, d: T| call_requires(self.melt, (b, c, d))
        &&& forall|d: T, heads: bool| call_requires(self.perturb, (d, heads))
    }

    /// Every rule gives one result for each input.
    pub open spec fn functional(&self) -> bool {
        &&& forall|own: T, around: Ring<T>, k: u8, x: T, y: T|
            call_ensures(self.diffuse, (own, around, k), x) && call_ensures(
                self.diffuse,
                (own, around, k),
                y,
            ) ==> x == y
        &&& forall|b: T, c: T, d: T, x: (T, T), y: (T, T)|
            call_ensures(self.freeze, (b, c, d), x) && call_ensures(self.freeze, (b, c, d), y)
                ==> x == y
        &&& forall|b: T, around: Ring<T>, x: Evidence, y: Evidence|
            call_ensures(self.probe, (b, around), x) && call_ensures(self.probe, (b, around), y)
                ==> x == y
        &&& forall|b: T, c: T, x: T, y: T|
            call_ensures(self.attach, (b, c), x) && call_ensures(self.attach, (b, c), y) ==> x
                == y
        &&& forall|b: T, c: T, d: T, x: (T, T, T), y: (T, T, T)|
            call_ensures(self.melt, (b, c, d), x) && call_ensures(self.melt, (b, c, d), y) ==> x
                == y
        &&& forall|d: T, heads: bool, x: T, y: T|
            call_ensures(self.perturb, (d, heads), x) && call_ensures(self.perturb, (d, heads), y)
                ==> x == y
    }
}

} // verus!
