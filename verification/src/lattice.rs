//! The hexagonal lattice: an `n` by `n` array that wraps around in both axes, in which
//! every cell has six neighbours.

use vstd::prelude::*;

verus! {

/// The index after `i` on a ring of `n` positions.
pub open spec fn next(i: int, n: int) -> int {
    if i + 1 == n {
        0
    } else {
        i + 1
    }
}

/// The index before `i` on a ring of `n` positions.
pub open spec fn prev(i: int, n: int) -> int {
    if i == 0 {
        n - 1
    } else {
        i - 1
    }
}

/// The `k`-th neighbour of cell `(i, j)` on the `n` by `n` torus, for `k` in `0..6`:
/// the cells at offsets `(+1, 0)`, `(-1, 0)`, `(0, +1)`, `(0, -1)`, `(-1, +1)` and
/// `(+1, -1)`, in this order.
pub open spec fn neighbor(n: int, i: int, j: int, k: int) -> (int, int) {
    if k == 0 {
        (next(i, n), j)
    } else if k == 1 {
        (prev(i, n), j)
    } else if k == 2 {
        (i, next(j, n))
    } else if k == 3 {
        (i, prev(j, n))
    } else if k == 4 {
        (prev(i, n), next(j, n))
    } else {
        (next(i, n), prev(j, n))
    }
}

/// The values found at the six neighbours of a cell, named by their offsets:
/// east is `(+1, 0)`, west `(-1, 0)`, north `(0, +1)`, south `(0, -1)`,
/// north-west `(-1, +1)` and south-east `(+1, -1)`.
#[derive(Debug)]
pub struct Ring<T> {
    pub east: T,
    pub west: T,
    pub north: T,
    pub south: T,
    pub north_west: T,
    pub south_east: T,
}

impl<T: Copy> Clone for Ring<T> {
    fn clone(&self) -> (r: Self)
        ensures
            r == *self,
    {
        *self
    }
}

impl<T: Copy> Copy for Ring<T> {

}

/// The value of `g` at the `k`-th neighbour of `(i, j)`.
pub open spec fn at_neighbor<T>(g: Seq<Seq<T>>, i: int, j: int, k: int) -> T {
    let p = neighbor(g.len() as int, i, j, k);
    g[p.0][p.1]
}

/// The values of `g` around cell `(i, j)`.
pub open spec fn ring_at<T>(g: Seq<Seq<T>>, i: int, j: int) -> Ring<T> {
    Ring {
        east: at_neighbor(g, i, j, 0),
        west: at_neighbor(g, i, j, 1),
        north: at_neighbor(g, i, j, 2),
        south: at_neighbor(g, i, j, 3),
        north_west: at_neighbor(g, i, j, 4),
        south_east: at_neighbor(g, i, j, 5),
    }
}

/// On a ring, stepping forward is adding one modulo `n`, and stepping back is
/// subtracting one modulo `n`.
pub proof fn lemma_steps_are_modular(i: int, n: int)
    requires
        0 <= i < n,
    ensures
        next(i, n) == (i + 1) % n,
        prev(i, n) == (i + n - 1) % n,
        prev(i, n) == (i - 1) % n,
{
    if i + 1 == n {
        vstd::arithmetic::div_mod::lemma_mod_self_0(n);
    } else {
        vstd::arithmetic::div_mod::lemma_small_mod((i + 1) as nat, n as nat);
    }
    if i == 0 {
        vstd::arithmetic::div_mod::lemma_small_mod((n - 1) as nat, n as nat);
    } else {
        vstd::arithmetic::div_mod::lemma_small_mod((i - 1) as nat, n as nat);
    }
    vstd::arithmetic::div_mod::lemma_mod_add_multiples_vanish(i - 1, n);
}

/// Every neighbour of a cell of the torus is a cell of the torus.
pub proof fn lemma_neighbor_in_range(n: int, i: int, j: int, k: int)
    requires
        0 <= i < n,
        0 <= j < n,
    ensures
        0 <= neighbor(n, i, j, k).0 < n,
        0 <= neighbor(n, i, j, k).1 < n,
{
}

/// The neighbour relation is symmetric: the neighbour in one direction has the cell
/// itself as its neighbour in the opposite direction.
pub proof fn lemma_neighbor_opposite(n: int, i: int, j: int, k: int)
    requires
        0 <= i < n,
        0 <= j < n,
        0 <= k < 6,
    ensures
        ({
            let p = neighbor(n, i, j, k);
            neighbor(n, p.0, p.1, opposite(k)) == (i, j)
        }),
{
}

/// The direction that undoes direction `k`.
pub open spec fn opposite(k: int) -> int {
    if k % 2 == 0 {
        k + 1
    } else {
        k - 1
    }
}

/// Index after `i` on a ring of `n` positions.
pub fn step_up(i: usize, n: usize) -> (r: usize)
    requires
        i < n,
    ensures
        r == next(i as int, n as int),
        r < n,
{
    if i + 1 == n {
        0
    } else {
        i + 1
    }
}

/// Index before `i` on a ring of `n` positions.
pub fn step_down(i: usize, n: usize) -> (r: usize)
    requires
        i < n,
    ensures
        r == prev(i as int, n as int),
        r < n,
{
    if i == 0 {
        n - 1
    } else {
        i - 1
    }
}

/// The six neighbours of cell `(i, j)`, in the order of [`neighbor`].
pub fn neighbors(n: usize, i: usize, j: usize) -> (r: [(usize, usize); 6])
    requires
        i < n,
        j < n,
    ensures
        forall|k: int|
            0 <= k < 6 ==> (#[trigger] r[k]).0 == neighbor(n as int, i as int, j as int, k).0
                && r[k].1 == neighbor(n as int, i as int, j as int, k).1,
        forall|k: int| 0 <= k < 6 ==> (#[trigger] r[k]).0 < n && r[k].1 < n,
{
    let up = step_up(i, n);
    let down = step_down(i, n);
    let right = step_up(j, n);
    let left = step_down(j, n);
    [(up, j), (down, j), (i, right), (i, left), (down, right), (up, left)]
}

} // verus!
