//! Sums over the cells of a square lattice that wraps around.

use vstd::prelude::*;
use crate::lattice::{neighbor, next, prev};

verus! {

/// The sum of `f(0)` to `f(m - 1)`.
pub open spec fn sum_to(f: spec_fn(int) -> int, m: int) -> int
    decreases m,
{
    if m <= 0 {
        0
    } else {
        sum_to(f, m - 1) + f(m - 1)
    }
}

/// The sum of `f` over the cells of a lattice of side `n`.
pub open spec fn lattice_sum(f: spec_fn(int, int) -> int, n: int) -> int {
    sum_to(|i: int| sum_to(|j: int| f(i, j), n), n)
}

/// Sums of terms that agree are equal.
pub proof fn lemma_sum_same(f: spec_fn(int) -> int, g: spec_fn(int) -> int, m: int)
    requires
        forall|i: int| 0 <= i < m ==> #[trigger] f(i) == g(i),
    ensures
        sum_to(f, m) == sum_to(g, m),
    decreases m,
{
    if m > 0 {
        lemma_sum_same(f, g, m - 1);
    }
}

/// The sum of sums is the sum of the terms added up.
pub proof fn lemma_sum_add(
    f: spec_fn(int) -> int,
    g: spec_fn(int) -> int,
    h: spec_fn(int) -> int,
    m: int,
)
    requires
        forall|i: int| 0 <= i < m ==> #[trigger] h(i) == f(i) + g(i),
    ensures
        sum_to(h, m) == sum_to(f, m) + sum_to(g, m),
    decreases m,
{
    if m > 0 {
        lemma_sum_add(f, g, h, m - 1);
    }
}

/// A sum of terms that are seven times other terms is seven times their sum.
pub proof fn lemma_sum_sevenfold(f: spec_fn(int) -> int, h: spec_fn(int) -> int, m: int)
    requires
        forall|i: int| 0 <= i < m ==> #[trigger] h(i) == 7 * f(i),
    ensures
        sum_to(h, m) == 7 * sum_to(f, m),
    decreases m,
{
    if m > 0 {
        lemma_sum_sevenfold(f, h, m - 1);
    }
}

/// The sum of `f(1)` to `f(m)` is the sum of `f(0)` to `f(m)` without `f(0)`.
proof fn lemma_sum_from_one(f: spec_fn(int) -> int, g: spec_fn(int) -> int, m: int)
    requires
        m >= 0,
        forall|i: int| 0 <= i < m ==> #[trigger] g(i) == f(i + 1),
    ensures
        sum_to(g, m) == sum_to(f, m + 1) - f(0),
    decreases m,
{
    if m > 0 {
        lemma_sum_from_one(f, g, m - 1);
        assert(g(m - 1) == f(m - 1 + 1));
        assert(sum_to(g, m) == sum_to(g, m - 1) + g(m - 1));
        assert(sum_to(f, m + 1) == sum_to(f, m) + f(m));
    } else {
        assert(sum_to(f, 1) == sum_to(f, 0) + f(0));
    }
}

/// Going once round a ring, it does not matter where the sum starts: the sum of the
/// terms at the next positions is the sum of the terms.
pub proof fn lemma_sum_shift_up(f: spec_fn(int) -> int, g: spec_fn(int) -> int, n: int)
    requires
        forall|i: int| 0 <= i < n ==> #[trigger] g(i) == f(next(i, n)),
    ensures
        sum_to(g, n) == sum_to(f, n),
{
    if n > 0 {
        lemma_sum_from_one(f, g, n - 1);
    }
}

/// The sum of `f(0)` to `f(m - 1)` is `f(0)` and the sum of `f(1)` to `f(m - 1)`.
proof fn lemma_sum_to_last(f: spec_fn(int) -> int, g: spec_fn(int) -> int, m: int)
    requires
        m >= 0,
        forall|i: int| 1 <= i <= m ==> #[trigger] g(i) == f(i - 1),
    ensures
        sum_to(g, m + 1) - g(0) == sum_to(f, m),
    decreases m,
{
    if m > 0 {
        lemma_sum_to_last(f, g, m - 1);
        assert(g(m) == f(m - 1));
        assert(sum_to(g, m + 1) == sum_to(g, m) + g(m));
        assert(sum_to(f, m) == sum_to(f, m - 1) + f(m - 1));
    } else {
        assert(sum_to(g, 1) == sum_to(g, 0) + g(0));
    }
}

/// The sum of the terms at the positions before is the sum of the terms.
pub proof fn lemma_sum_shift_down(f: spec_fn(int) -> int, g: spec_fn(int) -> int, n: int)
    requires
        forall|i: int| 0 <= i < n ==> #[trigger] g(i) == f(prev(i, n)),
    ensures
        sum_to(g, n) == sum_to(f, n),
{
    if n > 0 {
        lemma_sum_to_last(f, g, n - 1);
    }
}

/// The position one step from `i` on a ring of `n` positions, forward for a positive
/// `way`, back for a negative one, and `i` itself for zero.
pub open spec fn step(i: int, n: int, way: int) -> int {
    if way > 0 {
        next(i, n)
    } else if way < 0 {
        prev(i, n)
    } else {
        i
    }
}

/// The sum of the terms one step away is the sum of the terms.
pub proof fn lemma_sum_shift(f: spec_fn(int) -> int, g: spec_fn(int) -> int, n: int, way: int)
    requires
        forall|i: int| 0 <= i < n ==> #[trigger] g(i) == f(step(i, n, way)),
    ensures
        sum_to(g, n) == sum_to(f, n),
{
    if way > 0 {
        lemma_sum_shift_up(f, g, n);
    } else if way < 0 {
        lemma_sum_shift_down(f, g, n);
    } else {
        lemma_sum_same(f, g, n);
    }
}

/// Sums over the lattice of terms that agree are equal.
pub proof fn lemma_lattice_same(f: spec_fn(int, int) -> int, g: spec_fn(int, int) -> int, n: int)
    requires
        forall|i: int, j: int| 0 <= i < n && 0 <= j < n ==> #[trigger] f(i, j) == g(i, j),
    ensures
        lattice_sum(f, n) == lattice_sum(g, n),
{
    let rf = |i: int| sum_to(|j: int| f(i, j), n);
    let rg = |i: int| sum_to(|j: int| g(i, j), n);
    assert forall|i: int| 0 <= i < n implies #[trigger] rf(i) == rg(i) by {
        lemma_sum_same(|j: int| f(i, j), |j: int| g(i, j), n);
    }
    lemma_sum_same(rf, rg, n);
}

/// The sum of sums over the lattice is the sum of the terms added up.
pub proof fn lemma_lattice_add(
    f: spec_fn(int, int) -> int,
    g: spec_fn(int, int) -> int,
    h: spec_fn(int, int) -> int,
    n: int,
)
    requires
        forall|i: int, j: int|
            0 <= i < n && 0 <= j < n ==> #[trigger] h(i, j) == f(i, j) + g(i, j),
    ensures
        lattice_sum(h, n) == lattice_sum(f, n) + lattice_sum(g, n),
{
    let rf = |i: int| sum_to(|j: int| f(i, j), n);
    let rg = |i: int| sum_to(|j: int| g(i, j), n);
    let rh = |i: int| sum_to(|j: int| h(i, j), n);
    assert forall|i: int| 0 <= i < n implies #[trigger] rh(i) == rf(i) + rg(i) by {
        lemma_sum_add(|j: int| f(i, j), |j: int| g(i, j), |j: int| h(i, j), n);
    }
    lemma_sum_add(rf, rg, rh, n);
}

/// A sum over the lattice of terms that are seven times other terms is seven times
/// their sum.
pub proof fn lemma_lattice_sevenfold(
    f: spec_fn(int, int) -> int,
    h: spec_fn(int, int) -> int,
    n: int,
)
    requires
        forall|i: int, j: int| 0 <= i < n && 0 <= j < n ==> #[trigger] h(i, j) == 7 * f(i, j),
    ensures
        lattice_sum(h, n) == 7 * lattice_sum(f, n),
{
    let rf = |i: int| sum_to(|j: int| f(i, j), n);
    let rh = |i: int| sum_to(|j: int| h(i, j), n);
    assert forall|i: int| 0 <= i < n implies #[trigger] rh(i) == 7 * rf(i) by {
        lemma_sum_sevenfold(|j: int| f(i, j), |j: int| h(i, j), n);
    }
    lemma_sum_sevenfold(rf, rh, n);
}

/// The sum over the lattice of the terms one step away, in either axis or in both,
/// is the sum of the terms.
pub proof fn lemma_lattice_shift(
    f: spec_fn(int, int) -> int,
    g: spec_fn(int, int) -> int,
    n: int,
    way_i: int,
    way_j: int,
)
    requires
        forall|i: int, j: int|
            0 <= i < n && 0 <= j < n ==> #[trigger] g(i, j) == f(
                step(i, n, way_i),
                step(j, n, way_j),
            ),
    ensures
        lattice_sum(g, n) == lattice_sum(f, n),
{
    let rf = |i: int| sum_to(|j: int| f(i, j), n);
    let rg = |i: int| sum_to(|j: int| g(i, j), n);
    assert forall|i: int| 0 <= i < n implies #[trigger] rg(i) == rf(step(i, n, way_i)) by {
        let a = step(i, n, way_i);
        lemma_sum_shift(|j: int| f(a, j), |j: int| g(i, j), n, way_j);
    }
    lemma_sum_shift(rf, rg, n, way_i);
}

/// The sum over the lattice of the terms at the neighbours in one direction is the
/// sum of the terms.
pub proof fn lemma_lattice_neighbor(
    f: spec_fn(int, int) -> int,
    g: spec_fn(int, int) -> int,
    n: int,
    k: int,
)
    requires
        0 <= k < 6,
        forall|i: int, j: int|
            0 <= i < n && 0 <= j < n ==> #[trigger] g(i, j) == f(
                neighbor(n, i, j, k).0,
                neighbor(n, i, j, k).1,
            ),
    ensures
        lattice_sum(g, n) == lattice_sum(f, n),
{
    if k == 0 {
        lemma_lattice_shift(f, g, n, 1, 0);
    } else if k == 1 {
        lemma_lattice_shift(f, g, n, -1, 0);
    } else if k == 2 {
        lemma_lattice_shift(f, g, n, 0, 1);
    } else if k == 3 {
        lemma_lattice_shift(f, g, n, 0, -1);
    } else if k == 4 {
        lemma_lattice_shift(f, g, n, -1, 1);
    } else {
        lemma_lattice_shift(f, g, n, 1, -1);
    }
}

} // verus!
