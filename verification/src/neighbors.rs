//! Counting, for every cell, how many of its six neighbours are frozen.

use vstd::prelude::*;
use crate::grid::{fits, is_square, Counts, Mask};
use crate::lattice::{at_neighbor, neighbors};

verus! {

/// One for a set flag, zero for a cleared one.
pub open spec fn unit(flag: bool) -> int {
    if flag {
        1
    } else {
        0
    }
}

/// The number of neighbours of cell `(i, j)` that are set in `ice`.
pub open spec fn neighbor_count(ice: Seq<Seq<bool>>, i: int, j: int) -> int {
    unit(at_neighbor(ice, i, j, 0)) + unit(at_neighbor(ice, i, j, 1)) + unit(
        at_neighbor(ice, i, j, 2),
    ) + unit(at_neighbor(ice, i, j, 3)) + unit(at_neighbor(ice, i, j, 4)) + unit(
        at_neighbor(ice, i, j, 5),
    )
}

/// `counts` holds, for every cell of `ice`, the number of its frozen neighbours.
pub open spec fn counts_of(ice: Seq<Seq<bool>>, counts: Seq<Seq<u8>>) -> bool {
    &&& is_square(counts, ice.len() as int)
    &&& forall|i: int, j: int|
        0 <= i < ice.len() && 0 <= j < ice.len() ==> (#[trigger] counts[i][j]) == neighbor_count(
            ice,
            i,
            j,
        )
}

/// A cell has at most six frozen neighbours, and one or more exactly when some
/// neighbour is frozen.
pub proof fn lemma_neighbor_count_range(ice: Seq<Seq<bool>>, i: int, j: int)
    ensures
        0 <= neighbor_count(ice, i, j) <= 6,
        neighbor_count(ice, i, j) > 0 <==> exists|k: int|
            0 <= k < 6 && #[trigger] at_neighbor(ice, i, j, k),
{
    if neighbor_count(ice, i, j) > 0 {
        if at_neighbor(ice, i, j, 0) {
        } else if at_neighbor(ice, i, j, 1) {
        } else if at_neighbor(ice, i, j, 2) {
        } else if at_neighbor(ice, i, j, 3) {
        } else if at_neighbor(ice, i, j, 4) {
        } else {
            assert(at_neighbor(ice, i, j, 5));
        }
    }
}

/// One for a set flag, zero for a cleared one.
fn weigh(flag: bool) -> (r: u8)
    ensures
        r == unit(flag),
{
    if flag {
        1
    } else {
        0
    }
}

/// The number of frozen neighbours of cell `(i, j)`.
pub fn count_at(ice: &Mask, i: usize, j: usize) -> (r: u8)
    requires
        is_square(ice@, ice@.len() as int),
        i < ice@.len(),
        j < ice@.len(),
    ensures
        r == neighbor_count(ice@, i as int, j as int),
        r <= 6,
{
    let n = ice.nrows();
    let around = neighbors(n, i, j);
    let east = weigh(ice.get(around[0].0, around[0].1));
    let west = weigh(ice.get(around[1].0, around[1].1));
    let north = weigh(ice.get(around[2].0, around[2].1));
    let south = weigh(ice.get(around[3].0, around[3].1));
    let north_west = weigh(ice.get(around[4].0, around[4].1));
    let south_east = weigh(ice.get(around[5].0, around[5].1));
    east + west + north + south + north_west + south_east
}

/// The neighbour counts of every cell of a square lattice.
pub fn neighbor_counts(ice: &Mask) -> (counts: Counts)
    requires
        is_square(ice@, ice@.len() as int),
        fits(ice@.len() as int, ice@.len() as int),
    ensures
        counts_of(ice@, counts@),
{
    let n = ice.nrows();
    let mut counts = Counts::new(n, n);
    let mut i: usize = 0;
    while i < n
        invariant
            i <= n,
            n == ice@.len(),
            is_square(ice@, n as int),
            is_square(counts@, n as int),
            forall|a: int, b: int|
                0 <= a < i && 0 <= b < n ==> (#[trigger] counts@[a][b]) == neighbor_count(
                    ice@,
                    a,
                    b,
                ),
        decreases n - i,
    {
        let mut j: usize = 0;
        while j < n
            invariant
                i < n,
                j <= n,
                n == ice@.len(),
                is_square(ice@, n as int),
                is_square(counts@, n as int),
                forall|a: int, b: int|
                    0 <= a < i && 0 <= b < n ==> (#[trigger] counts@[a][b]) == neighbor_count(
                        ice@,
                        a,
                        b,
                    ),
                forall|b: int|
                    0 <= b < j ==> (#[trigger] counts@[i as int][b]) == neighbor_count(
                        ice@,
                        i as int,
                        b,
                    ),
            decreases n - j,
        {
            let k = count_at(ice, i, j);
            counts.set(i, j, k);
            j = j + 1;
        }
        i = i + 1;
    }
    counts
}

} // verus!
