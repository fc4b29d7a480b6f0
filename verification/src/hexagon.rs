//! The geometry of hexagonal cells in doubled coordinates.
//!
//! Cell `(i, j)` has its centre at `(2i + j, 3j)`. Its six corners lie around the
//! centre at integer points, and its six edges run from each corner to the next,
//! counter-clockwise. Two cells that touch share an edge, which they walk in
//! opposite directions.

use vstd::prelude::*;

verus! {

/// The `k`-th corner of a cell, relative to its centre, for any integer `k`: the
/// corners repeat after six.
#[verifier::opaque]
pub open spec fn corner(k: int) -> (int, int) {
    let r = k % 6;
    if r == 0 {
        (1, 1)
    } else if r == 1 {
        (0, 2)
    } else if r == 2 {
        (-1, 1)
    } else if r == 3 {
        (-1, -1)
    } else if r == 4 {
        (0, -2)
    } else {
        (1, -1)
    }
}

/// The centre of cell `(i, j)`.
pub open spec fn centre(i: int, j: int) -> (int, int) {
    (2 * i + j, 3 * j)
}

/// The `k`-th corner of cell `(i, j)`. Edge `k` of the cell runs from corner `k` to
/// corner `k + 1`.
pub open spec fn vertex(i: int, j: int, k: int) -> (int, int) {
    (centre(i, j).0 + corner(k).0, centre(i, j).1 + corner(k).1)
}

/// The cell on the other side of edge `k` of cell `(i, j)`.
#[verifier::opaque]
pub open spec fn across(i: int, j: int, k: int) -> (int, int) {
    let r = k % 6;
    if r == 0 {
        (i, j + 1)
    } else if r == 1 {
        (i - 1, j + 1)
    } else if r == 2 {
        (i - 1, j)
    } else if r == 3 {
        (i, j - 1)
    } else if r == 4 {
        (i + 1, j - 1)
    } else {
        (i + 1, j)
    }
}

/// The number that the cell across edge `k` gives to the shared edge.
pub open spec fn facing(k: int) -> int {
    (k + 3) % 6
}

/// The cell across an edge walks that edge the other way round, and the cell across
/// from there is the first cell again.
pub proof fn lemma_shared_edge(i: int, j: int, k: int)
    requires
        0 <= k < 6,
    ensures
        ({
            let o = across(i, j, k);
            &&& vertex(o.0, o.1, facing(k)) == vertex(i, j, k + 1)
            &&& vertex(o.0, o.1, facing(k) + 1) == vertex(i, j, k)
            &&& across(o.0, o.1, facing(k)) == (i, j)
            &&& o != (i, j)
        }),
{
    reveal(corner);
    reveal(across);
}

/// An edge belongs to one cell only: two edges with the same start and the same end
/// are the same edge of the same cell.
pub proof fn lemma_edge_unique(i: int, j: int, k: int, i2: int, j2: int, k2: int)
    requires
        0 <= k < 6,
        0 <= k2 < 6,
        vertex(i, j, k) == vertex(i2, j2, k2),
        vertex(i, j, k + 1) == vertex(i2, j2, k2 + 1),
    ensures
        i == i2,
        j == j2,
        k == k2,
{
    reveal(corner);
}

/// Three cells meet at every corner. A cell that has the corner `k` of cell `(i, j)`
/// as its corner `k2` is the cell itself, the cell across its edge `k`, or the cell
/// across the edge before its edge `k`.
pub proof fn lemma_cells_at_corner(i: int, j: int, k: int, i2: int, j2: int, k2: int)
    requires
        0 <= k < 6,
        0 <= k2 < 6,
        vertex(i, j, k) == vertex(i2, j2, k2),
    ensures
        ({
            ||| (i2, j2, k2) == (i, j, k)
            ||| ((i2, j2) == across(i, j, k) && k2 == (k + 4) % 6)
            ||| ((i2, j2) == across(i, j, (k + 5) % 6) && k2 == (k + 2) % 6)
        }),
{
    reveal(corner);
    reveal(across);
}

/// Corners repeat after six.
pub proof fn lemma_corner_wraps(i: int, j: int, k: int)
    ensures
        vertex(i, j, k % 6) == vertex(i, j, k),
{
    reveal(corner);
    assert((k % 6) % 6 == k % 6);
}

/// Where the outline turns into the next cell: the cell across the edge that
/// follows edge `k` has the end of edge `k` as a corner, and its edge that starts
/// there faces the cell across edge `k`.
pub proof fn lemma_turn(i: int, j: int, k: int)
    requires
        0 <= k < 6,
    ensures
        ({
            let y = across(i, j, (k + 1) % 6);
            &&& vertex(y.0, y.1, (k + 5) % 6) == vertex(i, j, k + 1)
            &&& across(y.0, y.1, (k + 5) % 6) == across(i, j, k)
        }),
{
    reveal(corner);
    reveal(across);
}

/// The cell across the last edge of a cell is the next cell in the next row.
pub proof fn lemma_across_last(i: int, j: int)
    ensures
        across(i, j, 5) == (i + 1, j),
{
    reveal(across);
}

/// The corners of a cell in coordinates.
pub proof fn lemma_corners(i: int, j: int)
    ensures
        vertex(i, j, 0) == (2 * i + j + 1, 3 * j + 1),
        vertex(i, j, 1) == (2 * i + j, 3 * j + 2),
        vertex(i, j, 2) == (2 * i + j - 1, 3 * j + 1),
        vertex(i, j, 3) == (2 * i + j - 1, 3 * j - 1),
        vertex(i, j, 4) == (2 * i + j, 3 * j - 2),
        vertex(i, j, 5) == (2 * i + j + 1, 3 * j - 1),
        vertex(i, j, 6) == vertex(i, j, 0),
{
    reveal(corner);
}

} // verus!
