//! The source of the coins that the noise stage tosses.

use vstd::prelude::*;
use ndarray_rand::rand::rngs::StdRng;
use crate::grid::{fits, has_shape, mask_random, Mask};

verus! {

/// The random number generator of the `rand` crate that can be seeded.
#[verifier::external_type_specification]
#[verifier::external_body]
pub struct ExStdRng(StdRng);

/// Tosses one coin for every cell of a lattice of the given shape.
pub fn toss(rng: &mut StdRng, rows: usize, cols: usize) -> (coins: Mask)
    requires
        fits(rows as int, cols as int),
    ensures
        has_shape(coins@, rows as int, cols as int),
{
    mask_random(rng, rows, cols)
}

} // verus!
