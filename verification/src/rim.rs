//! The rim of a triangulated region of the lattice.
//!
//! Three lattice points that are pairwise neighbours span a triangle. In every cell
//! `(i, j)` start two of them: the lower one, with corners `(i, j)`, `(i + 1, j)`,
//! `(i, j + 1)`, and the upper one, with corners `(i + 1, j)`, `(i + 1, j + 1)`,
//! `(i, j + 1)`. A triangle belongs to the region when its three corners are set.
//! Each triangle is walked counter-clockwise; an edge that two triangles of the
//! region share is walked both ways, and the rim consists of the edges that are
//! walked one way only.

use vstd::prelude::*;
use fnv::{FnvHashMap, FnvHashSet};
use crate::fans::{
    ends_any, ends_insert, ends_new, ends_remove, fans, fans_new, fans_put, fans_take, members,
    node, Node,
};
use crate::grid::{is_square, Mask};
use crate::outline::{before, filled};

verus! {

/// The lower triangle of cell `(i, j)` belongs to the region.
pub open spec fn lower(mask: Seq<Seq<bool>>, i: int, j: int) -> bool {
    filled(mask, i, j) && filled(mask, i + 1, j) && filled(mask, i, j + 1)
}

/// The upper triangle of cell `(i, j)` belongs to the region.
pub open spec fn upper(mask: Seq<Seq<bool>>, i: int, j: int) -> bool {
    filled(mask, i + 1, j) && filled(mask, i + 1, j + 1) && filled(mask, i, j + 1)
}

/// The triangle that owns edge `h` of cell `(i, j)` belongs to the region: edges 0
/// to 2 are those of the lower triangle, edges 3 to 5 those of the upper one.
pub open spec fn present(mask: Seq<Seq<bool>>, i: int, j: int, h: int) -> bool {
    if h < 3 {
        lower(mask, i, j)
    } else {
        upper(mask, i, j)
    }
}

/// Edge `h` of cell `(i, j)`, as start and end.
pub open spec fn tri_edge(i: int, j: int, h: int) -> ((int, int), (int, int)) {
    if h == 0 {
        ((i, j), (i + 1, j))
    } else if h == 1 {
        ((i + 1, j), (i, j + 1))
    } else if h == 2 {
        ((i, j + 1), (i, j))
    } else if h == 3 {
        ((i + 1, j), (i + 1, j + 1))
    } else if h == 4 {
        ((i + 1, j + 1), (i, j + 1))
    } else {
        ((i, j + 1), (i + 1, j))
    }
}

/// Some triangle of the region has an edge from `a` to `b`.
pub open spec fn has_edge(mask: Seq<Seq<bool>>, a: (int, int), b: (int, int)) -> bool {
    exists|i: int, j: int, h: int|
        0 <= h < 6 && #[trigger] present(mask, i, j, h) && tri_edge(i, j, h) == (a, b)
}

/// The rim has an edge from `a` to `b`: a triangle of the region has that edge, and
/// none has the reverse.
pub open spec fn rim_edge(mask: Seq<Seq<bool>>, a: (int, int), b: (int, int)) -> bool {
    has_edge(mask, a, b) && !has_edge(mask, b, a)
}

/// The only cell and edge number that an edge from `a` to `b` can have; the edge
/// number is -1 where no triangle has such an edge.
pub open spec fn slot(a: (int, int), b: (int, int)) -> (int, int, int) {
    let dx = b.0 - a.0;
    let dy = b.1 - a.1;
    if dx == 1 && dy == 0 {
        (a.0, a.1, 0)
    } else if dx == -1 && dy == 1 {
        (a.0 - 1, a.1, 1)
    } else if dx == 0 && dy == -1 {
        (a.0, a.1 - 1, 2)
    } else if dx == 0 && dy == 1 {
        (a.0 - 1, a.1, 3)
    } else if dx == -1 && dy == 0 {
        (a.0 - 1, a.1 - 1, 4)
    } else if dx == 1 && dy == -1 {
        (a.0, a.1 - 1, 5)
    } else {
        (0, 0, -1)
    }
}

/// An edge determines its cell and its number.
pub proof fn lemma_slot(i: int, j: int, h: int)
    requires
        0 <= h < 6,
    ensures
        slot(tri_edge(i, j, h).0, tri_edge(i, j, h).1) == (i, j, h),
{
}

/// Whether a triangle of the region has an edge can be read off the edge's slot.
pub proof fn lemma_has_edge(mask: Seq<Seq<bool>>, a: (int, int), b: (int, int))
    ensures
        has_edge(mask, a, b) <==> {
            let s = slot(a, b);
            0 <= s.2 < 6 && present(mask, s.0, s.1, s.2)
        },
{
    let s = slot(a, b);
    if has_edge(mask, a, b) {
        let (i, j, h) = choose|i: int, j: int, h: int|
            0 <= h < 6 && #[trigger] present(mask, i, j, h) && tri_edge(i, j, h) == (a, b);
        lemma_slot(i, j, h);
    }
    if 0 <= s.2 < 6 && present(mask, s.0, s.1, s.2) {
        assert(tri_edge(s.0, s.1, s.2) == (a, b));
    }
}

/// The edge from `a` to `b` has been emitted by the time the visit reaches edge `h`
/// of cell `(i, j)`.
pub open spec fn sent(
    mask: Seq<Seq<bool>>,
    a: (int, int),
    b: (int, int),
    i: int,
    j: int,
    h: int,
) -> bool {
    let s = slot(a, b);
    0 <= s.2 < 6 && present(mask, s.0, s.1, s.2) && before(s.0, s.1, s.2, i, j, h)
}

/// The edge from `a` to `b` has been emitted and its reverse has not.
pub open spec fn open_edge(
    mask: Seq<Seq<bool>>,
    a: (int, int),
    b: (int, int),
    i: int,
    j: int,
    h: int,
) -> bool {
    sent(mask, a, b, i, j, h) && !sent(mask, b, a, i, j, h)
}

/// `f` leads from `a` to `b`.
pub open spec fn leads(f: Map<(int, int), Set<(int, int)>>, a: (int, int), b: (int, int)) -> bool {
    f.contains_key(a) && f[a].contains(b)
}

/// No start of `f` is without ends.
pub open spec fn tidy(f: Map<(int, int), Set<(int, int)>>) -> bool {
    forall|a: (int, int)| #[trigger] f.contains_key(a) ==> exists|b: (int, int)| f[a].contains(b)
}

/// `f` holds the edges that are open when the visit reaches edge `h` of cell
/// `(i, j)`.
pub open spec fn follows(
    mask: Seq<Seq<bool>>,
    f: Map<(int, int), Set<(int, int)>>,
    i: int,
    j: int,
    h: int,
) -> bool {
    &&& tidy(f)
    &&& forall|a: (int, int), b: (int, int)| #[trigger]
        leads(f, a, b) <==> open_edge(mask, a, b, i, j, h)
}

/// `f` holds the rim of the region.
pub open spec fn is_rim(mask: Seq<Seq<bool>>, f: Map<(int, int), Set<(int, int)>>) -> bool {
    &&& tidy(f)
    &&& forall|a: (int, int), b: (int, int)| #[trigger] leads(f, a, b) <==> rim_edge(mask, a, b)
}

/// The rim of the region: for every point where edges of the rim start, the ends of
/// those edges.
pub open spec fn rim(mask: Seq<Seq<bool>>) -> Map<(int, int), Set<(int, int)>> {
    Map::new(
        |a: (int, int)| exists|b: (int, int)| rim_edge(mask, a, b),
        |a: (int, int)| Set::new(|b: (int, int)| rim_edge(mask, a, b)),
    )
}

/// A map that holds the rim is the rim.
pub proof fn lemma_rim_unique(mask: Seq<Seq<bool>>, f: Map<(int, int), Set<(int, int)>>)
    requires
        is_rim(mask, f),
    ensures
        f == rim(mask),
{
    let r = rim(mask);
    assert forall|a: (int, int)| f.contains_key(a) == r.contains_key(a) by {
        if f.contains_key(a) {
            let b = choose|b: (int, int)| f[a].contains(b);
            assert(leads(f, a, b));
        }
        if r.contains_key(a) {
            let b = choose|b: (int, int)| rim_edge(mask, a, b);
            assert(leads(f, a, b));
        }
    }
    assert forall|a: (int, int)| f.contains_key(a) implies f[a] == r[a] by {
        assert forall|b: (int, int)| f[a].contains(b) == r[a].contains(b) by {
            assert(leads(f, a, b) <==> rim_edge(mask, a, b));
        }
        assert(f[a] =~= r[a]);
    }
    assert(f.dom() =~= r.dom());
    assert(f =~= r);
}

/// What emitting the edge from `s` to `t` makes of `f`: if `f` leads from `t` to
/// `s`, that edge goes, and `t` with it if no edge is left there; otherwise the edge
/// from `s` to `t` comes.
pub open spec fn emit_spec(
    f: Map<(int, int), Set<(int, int)>>,
    s: (int, int),
    t: (int, int),
) -> Map<(int, int), Set<(int, int)>> {
    if leads(f, t, s) {
        let rest = f[t].remove(s);
        if rest == Set::<(int, int)>::empty() {
            f.remove(t)
        } else {
            f.insert(t, rest)
        }
    } else if f.contains_key(s) {
        f.insert(s, f[s].insert(t))
    } else {
        f.insert(s, Set::<(int, int)>::empty().insert(t))
    }
}

/// Emits one edge: see [`emit_spec`].
fn emit(m: &mut FnvHashMap<Node, FnvHashSet<Node>>, start: Node, end: Node)
    requires
        tidy(fans(*old(m))),
        start != end,
        fans(*old(m)).dom().finite(),
    ensures
        fans(*final(m)) == emit_spec(fans(*old(m)), node(start), node(end)),
        tidy(fans(*final(m))),
        fans(*final(m)).dom().finite(),
{
    let ghost f = fans(*m);
    let ghost s = node(start);
    let ghost t = node(end);
    let mut cancelled = false;
    match fans_take(m, end) {
        Some(ends) => {
            let mut ends = ends;
            cancelled = ends_remove(&mut ends, start);
            let left = ends_any(&ends);
            if left.is_some() {
                proof {
                    assert(members(ends).contains(node(left.unwrap())));
                    if !cancelled {
                        assert(members(ends) =~= f[t]);
                    }
                }
                fans_put(m, end, ends);
            } else {
                proof {
                    assert(members(ends) =~= Set::<(int, int)>::empty());
                    if !cancelled {
                        let b = choose|b: (int, int)| f[t].contains(b);
                        assert(members(ends).contains(b));
                    }
                }
            }
        },
        None => {},
    }
    proof {
        if cancelled {
            assert(fans(*m) =~= emit_spec(f, s, t));
        } else {
            assert(fans(*m) =~= f);
        }
    }
    if !cancelled {
        let mut ends = match fans_take(m, start) {
            Some(ends) => ends,
            None => ends_new(),
        };
        proof {
            if !f.contains_key(s) {
                assert(members(ends) =~= Set::<(int, int)>::empty());
            }
        }
        ends_insert(&mut ends, end);
        fans_put(m, start, ends);
        proof {
            assert(fans(*m) =~= emit_spec(f, s, t));
        }
    }
    proof {
        let g = fans(*m);
        assert forall|a: (int, int)| #[trigger] g.contains_key(a) implies exists|b: (int, int)|
            g[a].contains(b) by {
            if cancelled {
                if a == t {
                    let rest = f[t].remove(s);
                    assert(rest != Set::<(int, int)>::empty());
                    assert(!(rest =~= Set::<(int, int)>::empty()));
                    let b = choose|b: (int, int)| rest.contains(b);
                    assert(g[a].contains(b));
                } else {
                    assert(f.contains_key(a));
                    let b = choose|b: (int, int)| f[a].contains(b);
                    assert(g[a].contains(b));
                }
            } else {
                if a == s {
                    assert(g[a].contains(t));
                } else {
                    assert(f.contains_key(a));
                    let b = choose|b: (int, int)| f[a].contains(b);
                    assert(g[a].contains(b));
                }
            }
        }
    }
}

/// Before the visit starts no edge is open.
pub proof fn lemma_follows_start(mask: Seq<Seq<bool>>)
    ensures
        follows(mask, Map::empty(), 0, 0, 0),
{
}

/// Moving the visit to a position with the same emitted edges changes nothing.
pub proof fn lemma_follows_move(
    mask: Seq<Seq<bool>>,
    f: Map<(int, int), Set<(int, int)>>,
    i: int,
    j: int,
    h: int,
    i_next: int,
    j_next: int,
    h_next: int,
)
    requires
        follows(mask, f, i, j, h),
        forall|i2: int, j2: int, h2: int|
            0 <= h2 < 6 && present(mask, i2, j2, h2) ==> (#[trigger] before(i2, j2, h2, i, j, h)
                <==> before(i2, j2, h2, i_next, j_next, h_next)),
    ensures
        follows(mask, f, i_next, j_next, h_next),
{
    assert forall|a: (int, int), b: (int, int)| #[trigger]
        leads(f, a, b) <==> open_edge(mask, a, b, i_next, j_next, h_next) by {
        let s = slot(a, b);
        let r = slot(b, a);
        if 0 <= s.2 < 6 && present(mask, s.0, s.1, s.2) {
            assert(before(s.0, s.1, s.2, i, j, h) <==> before(
                s.0,
                s.1,
                s.2,
                i_next,
                j_next,
                h_next,
            ));
        }
        if 0 <= r.2 < 6 && present(mask, r.0, r.1, r.2) {
            assert(before(r.0, r.1, r.2, i, j, h) <==> before(
                r.0,
                r.1,
                r.2,
                i_next,
                j_next,
                h_next,
            ));
        }
        assert(leads(f, a, b) <==> open_edge(mask, a, b, i, j, h));
    }
}

/// Emitting the edge that the visit has reached keeps the map in step with the
/// visit.
pub proof fn lemma_follows_emit(
    mask: Seq<Seq<bool>>,
    f: Map<(int, int), Set<(int, int)>>,
    i: int,
    j: int,
    h: int,
)
    requires
        follows(mask, f, i, j, h),
        0 <= h < 6,
        present(mask, i, j, h),
    ensures
        follows(mask, emit_spec(f, tri_edge(i, j, h).0, tri_edge(i, j, h).1), i, j, h + 1),
{
    let s = tri_edge(i, j, h).0;
    let t = tri_edge(i, j, h).1;
    let g = emit_spec(f, s, t);
    lemma_slot(i, j, h);
    assert(leads(f, t, s) <==> open_edge(mask, t, s, i, j, h));
    assert(leads(f, s, t) <==> open_edge(mask, s, t, i, j, h));
    assert forall|a: (int, int), b: (int, int)| #[trigger]
        leads(g, a, b) <==> open_edge(mask, a, b, i, j, h + 1) by {
        assert(leads(f, a, b) <==> open_edge(mask, a, b, i, j, h));
        let x = slot(a, b);
        let y = slot(b, a);
        if 0 <= x.2 < 6 {
            assert(tri_edge(x.0, x.1, x.2) == (a, b));
        }
        if 0 <= y.2 < 6 {
            assert(tri_edge(y.0, y.1, y.2) == (b, a));
        }
    }
    assert forall|a: (int, int)| #[trigger] g.contains_key(a) implies exists|b: (int, int)|
        g[a].contains(b) by {
        if leads(f, t, s) {
            if a == t {
                let rest = f[t].remove(s);
                assert(!(rest =~= Set::<(int, int)>::empty()));
                let b = choose|b: (int, int)| rest.contains(b);
                assert(g[a].contains(b));
            } else {
                let b = choose|b: (int, int)| f[a].contains(b);
                assert(g[a].contains(b));
            }
        } else {
            if a == s {
                assert(g[a].contains(t));
            } else {
                let b = choose|b: (int, int)| f[a].contains(b);
                assert(g[a].contains(b));
            }
        }
    }
}

/// When the visit is over, the open edges are the rim.
pub proof fn lemma_follows_end(
    mask: Seq<Seq<bool>>,
    f: Map<(int, int), Set<(int, int)>>,
    rows: int,
)
    requires
        follows(mask, f, rows, 0, 0),
        rows >= mask.len() - 1,
    ensures
        is_rim(mask, f),
{
    assert forall|a: (int, int), b: (int, int)| #[trigger] leads(f, a, b) <==> rim_edge(
        mask,
        a,
        b,
    ) by {
        lemma_has_edge(mask, a, b);
        lemma_has_edge(mask, b, a);
        assert(leads(f, a, b) <==> open_edge(mask, a, b, rows, 0, 0));
    }
}

/// Collects the rim of the region that the set cells of a square mask span: every
/// triangle of the region emits its three edges, and an edge cancels against its
/// reverse.
pub fn collect_rim(solid: &Mask) -> (m: FnvHashMap<Node, FnvHashSet<Node>>)
    requires
        is_square(solid@, solid@.len() as int),
    ensures
        is_rim(solid@, fans(m)),
        fans(m).dom().finite(),
{
    let n = solid.nrows();
    let mut m = fans_new();
    proof {
        assert(fans(m) =~= Map::<(int, int), Set<(int, int)>>::empty());
        lemma_follows_start(solid@);
    }
    if n == 0 {
        proof {
            lemma_follows_end(solid@, fans(m), 0);
        }
        return m;
    }
    let last = n - 1;
    let mut i: usize = 0;
    while i < last
        invariant
            i <= last,
            last == n - 1,
            n == solid@.len(),
            is_square(solid@, n as int),
            follows(solid@, fans(m), i as int, 0, 0),
            fans(m).dom().finite(),
        decreases last - i,
    {
        let mut j: usize = 0;
        while j < last
            invariant
                i < last,
                j <= last,
                last == n - 1,
                n == solid@.len(),
                is_square(solid@, n as int),
                follows(solid@, fans(m), i as int, j as int, 0),
                fans(m).dom().finite(),
            decreases last - j,
        {
            let here = solid.get(i, j);
            let right = solid.get(i + 1, j);
            let above = solid.get(i, j + 1);
            let beyond = solid.get(i + 1, j + 1);
            if here && right && above {
                proof {
                    lemma_follows_emit(solid@, fans(m), i as int, j as int, 0);
                }
                emit(&mut m, (i, j), (i + 1, j));
                proof {
                    lemma_follows_emit(solid@, fans(m), i as int, j as int, 1);
                }
                emit(&mut m, (i + 1, j), (i, j + 1));
                proof {
                    lemma_follows_emit(solid@, fans(m), i as int, j as int, 2);
                }
                emit(&mut m, (i, j + 1), (i, j));
            } else {
                proof {
                    lemma_follows_move(
                        solid@,
                        fans(m),
                        i as int,
                        j as int,
                        0,
                        i as int,
                        j as int,
                        3,
                    );
                }
            }
            if right && beyond && above {
                proof {
                    lemma_follows_emit(solid@, fans(m), i as int, j as int, 3);
                }
                emit(&mut m, (i + 1, j), (i + 1, j + 1));
                proof {
                    lemma_follows_emit(solid@, fans(m), i as int, j as int, 4);
                }
                emit(&mut m, (i + 1, j + 1), (i, j + 1));
                proof {
                    lemma_follows_emit(solid@, fans(m), i as int, j as int, 5);
                }
                emit(&mut m, (i, j + 1), (i + 1, j));
                proof {
                    lemma_follows_move(
                        solid@,
                        fans(m),
                        i as int,
                        j as int,
                        6,
                        i as int,
                        j + 1,
                        0,
                    );
                }
            } else {
                proof {
                    lemma_follows_move(
                        solid@,
                        fans(m),
                        i as int,
                        j as int,
                        3,
                        i as int,
                        j + 1,
                        0,
                    );
                }
            }
            j = j + 1;
        }
        proof {
            lemma_follows_move(solid@, fans(m), i as int, last as int, 0, i + 1, 0, 0);
        }
        i = i + 1;
    }
    proof {
        lemma_follows_end(solid@, fans(m), last as int);
    }
    m
}

} // verus!
