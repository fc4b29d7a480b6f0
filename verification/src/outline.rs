//! The outline of a set of hexagonal cells: the edges that separate a cell of the set
//! from a cell outside it, each directed so that the set lies on its left.

use vstd::prelude::*;
use crate::hexagon::{
    across, facing, lemma_across_last, lemma_cells_at_corner, lemma_corner_wraps,
    lemma_edge_unique, lemma_shared_edge, lemma_turn, vertex,
};

verus! {

/// Cell `(i, j)` lies on the lattice and is set.
pub open spec fn filled(mask: Seq<Seq<bool>>, i: int, j: int) -> bool {
    0 <= i < mask.len() && 0 <= j < mask[i].len() && mask[i][j]
}

/// Edge `k` of cell `(i, j)` lies on the outline: the cell is set and the cell across
/// the edge is not.
pub open spec fn on_outline(mask: Seq<Seq<bool>>, i: int, j: int, k: int) -> bool {
    &&& 0 <= k < 6
    &&& filled(mask, i, j)
    &&& !filled(mask, across(i, j, k).0, across(i, j, k).1)
}

/// The outline has an edge from `a` to `b`.
pub open spec fn outline_edge(mask: Seq<Seq<bool>>, a: (int, int), b: (int, int)) -> bool {
    exists|i: int, j: int, k: int| #[trigger]
        on_outline(mask, i, j, k) && vertex(i, j, k) == a && vertex(i, j, k + 1) == b
}

/// `m` holds the outline of `mask`: it leads from `a` to `b` exactly when the outline
/// has an edge from `a` to `b`.
pub open spec fn is_outline(mask: Seq<Seq<bool>>, m: Map<(int, int), (int, int)>) -> bool {
    forall|a: (int, int), b: (int, int)| m.contains_pair(a, b) <==> outline_edge(mask, a, b)
}

/// The outline of `mask`, as the map from the start of each edge to its end.
pub open spec fn outline(mask: Seq<Seq<bool>>) -> Map<(int, int), (int, int)> {
    Map::new(
        |a: (int, int)| exists|b: (int, int)| outline_edge(mask, a, b),
        |a: (int, int)| choose|b: (int, int)| outline_edge(mask, a, b),
    )
}

/// A map that holds the outline is the outline.
pub proof fn lemma_outline_unique(mask: Seq<Seq<bool>>, m: Map<(int, int), (int, int)>)
    requires
        is_outline(mask, m),
    ensures
        m == outline(mask),
{
    let o = outline(mask);
    assert forall|a: (int, int)| m.contains_key(a) == o.contains_key(a) by {
        if m.contains_key(a) {
            assert(m.contains_pair(a, m[a]));
            assert(outline_edge(mask, a, m[a]));
        }
        if o.contains_key(a) {
            let b = choose|b: (int, int)| outline_edge(mask, a, b);
            assert(m.contains_pair(a, b));
        }
    }
    assert forall|a: (int, int)| m.contains_key(a) implies m[a] == o[a] by {
        assert(m.contains_pair(a, m[a]));
        assert(outline_edge(mask, a, m[a]));
        let b = choose|b: (int, int)| outline_edge(mask, a, b);
        assert(m.contains_pair(a, b));
    }
    assert(m.dom() =~= o.dom());
    assert(m =~= o);
}

/// Edge `k2` of cell `(i2, j2)` comes before edge `k` of cell `(i, j)` when cells are
/// visited row by row and the edges of a cell in their order.
pub open spec fn before(i2: int, j2: int, k2: int, i: int, j: int, k: int) -> bool {
    i2 < i || (i2 == i && (j2 < j || (j2 == j && k2 < k)))
}

/// Edge `k2` of cell `(i2, j2)` has been emitted by the time the visit reaches edge
/// `k` of cell `(i, j)`.
pub open spec fn emitted(
    mask: Seq<Seq<bool>>,
    i2: int,
    j2: int,
    k2: int,
    i: int,
    j: int,
    k: int,
) -> bool {
    &&& 0 <= k2 < 6
    &&& filled(mask, i2, j2)
    &&& before(i2, j2, k2, i, j, k)
}

/// Edge `k2` of cell `(i2, j2)` has been emitted and the cell across it has not
/// emitted the same edge.
pub open spec fn pending(
    mask: Seq<Seq<bool>>,
    i2: int,
    j2: int,
    k2: int,
    i: int,
    j: int,
    k: int,
) -> bool {
    &&& emitted(mask, i2, j2, k2, i, j, k)
    &&& !emitted(mask, across(i2, j2, k2).0, across(i2, j2, k2).1, facing(k2), i, j, k)
}

/// The map `m` holds the pending edges at the time the visit reaches edge `k` of cell
/// `(i, j)`, and `owner` tells for the start of each which edge of which cell it is.
pub open spec fn tracks(
    mask: Seq<Seq<bool>>,
    m: Map<(int, int), (int, int)>,
    owner: Map<(int, int), (int, int, int)>,
    i: int,
    j: int,
    k: int,
) -> bool {
    &&& m.dom() =~= owner.dom()
    &&& forall|p: (int, int)| #[trigger]
        owner.contains_key(p) ==> {
            let w = owner[p];
            &&& pending(mask, w.0, w.1, w.2, i, j, k)
            &&& vertex(w.0, w.1, w.2) == p
            &&& m[p] == vertex(w.0, w.1, w.2 + 1)
        }
    &&& forall|i2: int, j2: int, k2: int| #[trigger]
        pending(mask, i2, j2, k2, i, j, k) ==> owner.contains_key(vertex(i2, j2, k2))
            && owner[vertex(i2, j2, k2)] == (i2, j2, k2)
}

/// Moving the visit to a position with the same emitted edges changes nothing.
pub proof fn lemma_tracks_move(
    mask: Seq<Seq<bool>>,
    m: Map<(int, int), (int, int)>,
    owner: Map<(int, int), (int, int, int)>,
    i: int,
    j: int,
    k: int,
    i_next: int,
    j_next: int,
    k_next: int,
)
    requires
        tracks(mask, m, owner, i, j, k),
        forall|i2: int, j2: int, k2: int|
            0 <= k2 < 6 && filled(mask, i2, j2) ==> (#[trigger] before(i2, j2, k2, i, j, k)
                <==> before(i2, j2, k2, i_next, j_next, k_next)),
    ensures
        tracks(mask, m, owner, i_next, j_next, k_next),
{
    assert forall|i2: int, j2: int, k2: int|
        pending(mask, i2, j2, k2, i, j, k) == #[trigger] pending(
            mask,
            i2,
            j2,
            k2,
            i_next,
            j_next,
            k_next,
        ) by {
        let o = across(i2, j2, k2);
        if 0 <= k2 < 6 {
            lemma_shared_edge(i2, j2, k2);
            if filled(mask, i2, j2) {
                assert(before(i2, j2, k2, i, j, k) <==> before(
                    i2,
                    j2,
                    k2,
                    i_next,
                    j_next,
                    k_next,
                ));
            }
            if filled(mask, o.0, o.1) {
                assert(before(o.0, o.1, facing(k2), i, j, k) <==> before(
                    o.0,
                    o.1,
                    facing(k2),
                    i_next,
                    j_next,
                    k_next,
                ));
            }
        }
    }
}

/// Emitting an edge whose reverse is pending cancels the two.
pub proof fn lemma_tracks_cancel(
    mask: Seq<Seq<bool>>,
    m: Map<(int, int), (int, int)>,
    owner: Map<(int, int), (int, int, int)>,
    i: int,
    j: int,
    k: int,
)
    requires
        tracks(mask, m, owner, i, j, k),
        filled(mask, i, j),
        0 <= k < 6,
        m.contains_pair(vertex(i, j, k + 1), vertex(i, j, k)),
    ensures
        tracks(
            mask,
            m.remove(vertex(i, j, k + 1)),
            owner.remove(vertex(i, j, k + 1)),
            i,
            j,
            k + 1,
        ),
{
    let s = vertex(i, j, k);
    let t = vertex(i, j, k + 1);
    let o = across(i, j, k);
    let m2 = m.remove(t);
    let owner2 = owner.remove(t);
    lemma_shared_edge(i, j, k);
    assert(owner.contains_key(t));
    let w = owner[t];
    lemma_edge_unique(w.0, w.1, w.2, o.0, o.1, facing(k));
    assert(w == (o.0, o.1, facing(k)));
    assert(pending(mask, o.0, o.1, facing(k), i, j, k));
    assert forall|p: (int, int)| #[trigger] owner2.contains_key(p) implies {
        let v = owner2[p];
        &&& pending(mask, v.0, v.1, v.2, i, j, k + 1)
        &&& vertex(v.0, v.1, v.2) == p
        &&& m2[p] == vertex(v.0, v.1, v.2 + 1)
    } by {
        assert(owner.contains_key(p));
        let v = owner[p];
        lemma_shared_edge(v.0, v.1, v.2);
    }
    assert forall|i2: int, j2: int, k2: int| #[trigger]
        pending(mask, i2, j2, k2, i, j, k + 1) implies owner2.contains_key(vertex(i2, j2, k2))
        && owner2[vertex(i2, j2, k2)] == (i2, j2, k2) by {
        lemma_shared_edge(i2, j2, k2);
        assert(pending(mask, i2, j2, k2, i, j, k));
    }
}

/// Emitting an edge whose reverse is not pending makes the edge pending.
pub proof fn lemma_tracks_record(
    mask: Seq<Seq<bool>>,
    m: Map<(int, int), (int, int)>,
    owner: Map<(int, int), (int, int, int)>,
    i: int,
    j: int,
    k: int,
)
    requires
        tracks(mask, m, owner, i, j, k),
        filled(mask, i, j),
        0 <= k < 6,
        !m.contains_pair(vertex(i, j, k + 1), vertex(i, j, k)),
    ensures
        tracks(
            mask,
            m.insert(vertex(i, j, k), vertex(i, j, k + 1)),
            owner.insert(vertex(i, j, k), (i, j, k)),
            i,
            j,
            k + 1,
        ),
{
    let s = vertex(i, j, k);
    let t = vertex(i, j, k + 1);
    let o = across(i, j, k);
    let m2 = m.insert(s, t);
    let owner2 = owner.insert(s, (i, j, k));
    lemma_shared_edge(i, j, k);
    // The cell across the edge has not emitted it.
    if emitted(mask, o.0, o.1, facing(k), i, j, k) {
        assert(pending(mask, o.0, o.1, facing(k), i, j, k));
        assert(owner.contains_key(t));
        assert(false);
    }
    // No pending edge starts where this one starts.
    if owner.contains_key(s) {
        let w = owner[s];
        assert(pending(mask, w.0, w.1, w.2, i, j, k));
        lemma_cells_at_corner(i, j, k, w.0, w.1, w.2);
        if (w.0, w.1) == o {
            assert(emitted(mask, o.0, o.1, facing(k), i, j, k));
        } else {
            lemma_shared_edge(i, j, (k + 5) % 6);
            lemma_across_last(i, j);
            assert(across(w.0, w.1, w.2) == (i, j));
            assert(facing(w.2) == (k + 5) % 6);
            assert(!emitted(mask, i, j, (k + 5) % 6, i, j, k));
            assert(k == 0);
        }
        assert(false);
    }
    assert forall|p: (int, int)| #[trigger] owner2.contains_key(p) implies {
        let v = owner2[p];
        &&& pending(mask, v.0, v.1, v.2, i, j, k + 1)
        &&& vertex(v.0, v.1, v.2) == p
        &&& m2[p] == vertex(v.0, v.1, v.2 + 1)
    } by {
        if p != s {
            assert(owner.contains_key(p));
            let v = owner[p];
            lemma_shared_edge(v.0, v.1, v.2);
        }
    }
    assert forall|i2: int, j2: int, k2: int| #[trigger]
        pending(mask, i2, j2, k2, i, j, k + 1) implies owner2.contains_key(vertex(i2, j2, k2))
        && owner2[vertex(i2, j2, k2)] == (i2, j2, k2) by {
        lemma_shared_edge(i2, j2, k2);
        if (i2, j2, k2) != (i, j, k) {
            assert(pending(mask, i2, j2, k2, i, j, k));
        }
    }
}

/// When the visit is over, the pending edges are the outline.
pub proof fn lemma_tracks_end(
    mask: Seq<Seq<bool>>,
    m: Map<(int, int), (int, int)>,
    owner: Map<(int, int), (int, int, int)>,
)
    requires
        tracks(mask, m, owner, mask.len() as int, 0, 0),
    ensures
        is_outline(mask, m),
{
    let n = mask.len() as int;
    assert forall|i: int, j: int, k: int| on_outline(mask, i, j, k) == #[trigger] pending(
        mask,
        i,
        j,
        k,
        n,
        0,
        0,
    ) by {
        if 0 <= k < 6 {
            lemma_shared_edge(i, j, k);
        }
    }
    assert forall|a: (int, int), b: (int, int)| m.contains_pair(a, b) <==> outline_edge(
        mask,
        a,
        b,
    ) by {
        if m.contains_pair(a, b) {
            assert(owner.contains_key(a));
            let w = owner[a];
            assert(on_outline(mask, w.0, w.1, w.2));
        }
        if outline_edge(mask, a, b) {
            let (i, j, k) = choose|i: int, j: int, k: int| #[trigger]
                on_outline(mask, i, j, k) && vertex(i, j, k) == a && vertex(i, j, k + 1) == b;
            assert(pending(mask, i, j, k, n, 0, 0));
        }
    }
}

/// No two edges of `m` end at the same point.
pub open spec fn injective(m: Map<(int, int), (int, int)>) -> bool {
    forall|a: (int, int), b: (int, int)|
        m.contains_key(a) && m.contains_key(b) && #[trigger] m[a] == #[trigger] m[b] ==> a == b
}

/// Where an edge of `m` ends, another edge of `m` starts.
pub open spec fn continues(m: Map<(int, int), (int, int)>) -> bool {
    forall|a: (int, int)| #[trigger] m.contains_key(a) ==> m.contains_key(m[a])
}

/// Only one edge of the outline ends at a given point.
pub proof fn lemma_one_edge_arrives(
    mask: Seq<Seq<bool>>,
    i: int,
    j: int,
    k: int,
    i2: int,
    j2: int,
    k2: int,
)
    requires
        on_outline(mask, i, j, k),
        on_outline(mask, i2, j2, k2),
        vertex(i, j, k + 1) == vertex(i2, j2, k2 + 1),
    ensures
        i == i2,
        j == j2,
        k == k2,
{
    let e = (k + 1) % 6;
    lemma_corner_wraps(i, j, k + 1);
    lemma_corner_wraps(i2, j2, k2 + 1);
    lemma_cells_at_corner(i, j, e, i2, j2, (k2 + 1) % 6);
    lemma_shared_edge(i, j, e);
    lemma_shared_edge(i, j, k);
    if (i2, j2) == across(i, j, e) && (k2 + 1) % 6 == (e + 4) % 6 {
        assert(k2 == facing(e));
        assert(across(i2, j2, k2) == (i, j));
    } else if (i2, j2) == across(i, j, (e + 5) % 6) && (k2 + 1) % 6 == (e + 2) % 6 {
        assert((e + 5) % 6 == k);
    }
}

/// The edge of the outline that starts where edge `k` of cell `(i, j)` ends: the
/// next edge of the same cell, unless the cell across that edge is set, in which
/// case the outline turns into that cell.
pub open spec fn successor(mask: Seq<Seq<bool>>, i: int, j: int, k: int) -> (int, int, int) {
    let next = (k + 1) % 6;
    let y = across(i, j, next);
    if filled(mask, y.0, y.1) {
        (y.0, y.1, (k + 5) % 6)
    } else {
        (i, j, next)
    }
}

/// Where an edge of the outline ends, its successor starts.
pub proof fn lemma_one_edge_leaves(mask: Seq<Seq<bool>>, i: int, j: int, k: int)
    requires
        on_outline(mask, i, j, k),
    ensures
        ({
            let s = successor(mask, i, j, k);
            on_outline(mask, s.0, s.1, s.2) && vertex(s.0, s.1, s.2) == vertex(i, j, k + 1)
        }),
{
    lemma_turn(i, j, k);
    lemma_corner_wraps(i, j, k + 1);
}

/// An outline consists of loops: at every point where an edge of the outline ends
/// exactly one edge ends, and one edge starts.
pub proof fn lemma_outline_loops(mask: Seq<Seq<bool>>, m: Map<(int, int), (int, int)>)
    requires
        is_outline(mask, m),
    ensures
        injective(m),
        continues(m),
{
    assert forall|a: (int, int), b: (int, int)|
        m.contains_key(a) && m.contains_key(b) && #[trigger] m[a] == #[trigger] m[b] implies a
        == b by {
        let e = m[a];
        assert(m.contains_pair(a, e));
        assert(m.contains_pair(b, e));
        assert(outline_edge(mask, a, e));
        assert(outline_edge(mask, b, e));
        let (i, j, k) = choose|i: int, j: int, k: int| #[trigger]
            on_outline(mask, i, j, k) && vertex(i, j, k) == a && vertex(i, j, k + 1) == e;
        let (i2, j2, k2) = choose|i: int, j: int, k: int| #[trigger]
            on_outline(mask, i, j, k) && vertex(i, j, k) == b && vertex(i, j, k + 1) == e;
        lemma_one_edge_arrives(mask, i, j, k, i2, j2, k2);
    }
    assert forall|a: (int, int)| #[trigger] m.contains_key(a) implies m.contains_key(m[a]) by {
        let e = m[a];
        assert(m.contains_pair(a, e));
        assert(outline_edge(mask, a, e));
        let (i, j, k) = choose|i: int, j: int, k: int| #[trigger]
            on_outline(mask, i, j, k) && vertex(i, j, k) == a && vertex(i, j, k + 1) == e;
        lemma_one_edge_leaves(mask, i, j, k);
        let s = successor(mask, i, j, k);
        let f = vertex(s.0, s.1, s.2 + 1);
        assert(outline_edge(mask, e, f));
        assert(m.contains_pair(e, f));
    }
}

} // verus!
