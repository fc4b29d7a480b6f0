//! Tracing the outline of a mask: collecting its edges, then walking them into
//! closed loops.

use vstd::prelude::*;
use fnv::FnvHashMap;
use crate::grid::{has_shape, Mask};
use crate::hexagon::{lemma_corners, vertex};
use crate::outline::{
    continues, injective, is_outline, lemma_outline_unique, outline, lemma_outline_loops, lemma_tracks_cancel,
    lemma_tracks_end, lemma_tracks_move, lemma_tracks_record, tracks,
};
use crate::segments::{
    at, edges, segments_any_start, segments_get, segments_insert, segments_len, segments_new,
    segments_remove, Point,
};

verus! {

/// The corners of every cell of a lattice of this shape have coordinates that fit
/// in 32 bits.
pub open spec fn traceable(rows: int, cols: int) -> bool {
    2 * rows + cols <= i32::MAX && 3 * cols <= i32::MAX
}

/// Decides [`traceable`].
pub fn shape_traceable(rows: usize, cols: usize) -> (r: bool)
    ensures
        r == traceable(rows as int, cols as int),
{
    let limit: usize = 0x7fff_ffff;
    cols <= limit / 3 && rows <= (limit - cols) / 2
}

/// The `k`-th corner of cell `(i, j)`.
fn corner_of(i: usize, j: usize, k: usize) -> (p: Point)
    requires
        2 * i + j + 2 <= i32::MAX,
        3 * j + 3 <= i32::MAX,
        k <= 6,
    ensures
        at(p) == vertex(i as int, j as int, k as int),
{
    proof {
        lemma_corners(i as int, j as int);
    }
    let x: i32 = (2 * i + j) as i32;
    let y: i32 = (3 * j) as i32;
    if k == 0 || k == 6 {
        (x + 1, y + 1)
    } else if k == 1 {
        (x, y + 2)
    } else if k == 2 {
        (x - 1, y + 1)
    } else if k == 3 {
        (x - 1, y - 1)
    } else if k == 4 {
        (x, y - 2)
    } else {
        (x + 1, y - 1)
    }
}

/// Collects the outline of a mask. Every set cell emits its six edges; an edge whose
/// reverse has been emitted by the neighbouring cell cancels against it, so that the
/// edges between two set cells disappear and the outline remains.
pub fn collect_outline(mask: &Mask) -> (m: FnvHashMap<Point, Point>)
    requires
        traceable(mask@.len() as int, mask.spec_ncols()),
    ensures
        is_outline(mask@, edges(m)),
        edges(m).dom().finite(),
{
    let rows = mask.nrows();
    let cols = mask.ncols();
    let mut m = segments_new();
    let ghost mut owner: Map<(int, int), (int, int, int)> = Map::empty();
    proof {
        assert(edges(m) =~= Map::<(int, int), (int, int)>::empty());
    }
    if rows == 0 {
        proof {
            lemma_tracks_end(mask@, edges(m), owner);
        }
        return m;
    }
    let mut i: usize = 0;
    while i < rows
        invariant
            i <= rows,
            rows == mask@.len(),
            has_shape(mask@, rows as int, cols as int),
            traceable(rows as int, cols as int),
            tracks(mask@, edges(m), owner, i as int, 0, 0),
            edges(m).dom().finite(),
        decreases rows - i,
    {
        let mut j: usize = 0;
        while j < cols
            invariant
                i < rows,
                j <= cols,
                rows == mask@.len(),
                has_shape(mask@, rows as int, cols as int),
                traceable(rows as int, cols as int),
                tracks(mask@, edges(m), owner, i as int, j as int, 0),
                edges(m).dom().finite(),
            decreases cols - j,
        {
            if mask.get(i, j) {
                let mut k: usize = 0;
                while k < 6
                    invariant
                        i < rows,
                        j < cols,
                        k <= 6,
                        rows == mask@.len(),
                        has_shape(mask@, rows as int, cols as int),
                        traceable(rows as int, cols as int),
                        mask@[i as int][j as int],
                        tracks(mask@, edges(m), owner, i as int, j as int, k as int),
                        edges(m).dom().finite(),
                    decreases 6 - k,
                {
                    let start = corner_of(i, j, k);
                    let end = corner_of(i, j, k + 1);
                    let cancels = match segments_get(&m, end) {
                        Some(back) => back.0 == start.0 && back.1 == start.1,
                        None => false,
                    };
                    if cancels {
                        proof {
                            lemma_tracks_cancel(mask@, edges(m), owner, i as int, j as int, k as int);
                            owner = owner.remove(at(end));
                        }
                        segments_remove(&mut m, end);
                    } else {
                        proof {
                            lemma_tracks_record(mask@, edges(m), owner, i as int, j as int, k as int);
                            owner = owner.insert(at(start), (i as int, j as int, k as int));
                        }
                        segments_insert(&mut m, start, end);
                    }
                    k = k + 1;
                }
                proof {
                    lemma_tracks_move(
                        mask@,
                        edges(m),
                        owner,
                        i as int,
                        j as int,
                        6,
                        i as int,
                        j + 1,
                        0,
                    );
                }
            } else {
                proof {
                    lemma_tracks_move(
                        mask@,
                        edges(m),
                        owner,
                        i as int,
                        j as int,
                        0,
                        i as int,
                        j + 1,
                        0,
                    );
                }
            }
            j = j + 1;
        }
        proof {
            lemma_tracks_move(mask@, edges(m), owner, i as int, cols as int, 0, i + 1, 0, 0);
        }
        i = i + 1;
    }
    proof {
        lemma_tracks_end(mask@, edges(m), owner);
    }
    m
}

/// The paths of a list of contours.
pub open spec fn paths(contours: Vec<Vec<Point>>) -> Seq<Seq<Point>> {
    Seq::new(contours.len() as nat, |c: int| contours[c]@)
}

/// Position `t` of path `c` is the start of a step of that path.
pub open spec fn is_step<P>(all: Seq<Seq<P>>, c: int, t: int) -> bool {
    0 <= c < all.len() && 0 <= t < all[c].len() - 1
}

/// The paths walk the edges of `m`, each edge once: every step of a path is an edge
/// of `m`, every edge of `m` is a step of some path, and no two steps start at the
/// same point.
pub open spec fn covers(m: Map<(int, int), (int, int)>, all: Seq<Seq<Point>>) -> bool {
    &&& forall|c: int, t: int| #[trigger]
        is_step(all, c, t) ==> m.contains_pair(at(all[c][t]), at(all[c][t + 1]))
    &&& forall|p: (int, int)| #[trigger]
        m.contains_key(p) ==> exists|c: int, t: int| #[trigger]
            is_step(all, c, t) && at(all[c][t]) == p
    &&& forall|c: int, t: int, c2: int, t2: int|
        #[trigger] is_step(all, c, t) && #[trigger] is_step(all, c2, t2) && all[c][t]
            == all[c2][t2] ==> c == c2 && t == t2
}

/// Every path has two points or more and ends where it starts.
pub open spec fn closed(all: Seq<Seq<Point>>) -> bool {
    forall|c: int|
        0 <= c < all.len() ==> (#[trigger] all[c]).len() >= 2 && all[c][0] == all[c][all[c].len()
            - 1]
}

/// How far a walk has come: the edges of `rest` are edges of `m` that no path has
/// taken, and `place` tells for the start of every other edge of `m` which step of
/// which path took it.
pub open spec fn charted(
    m: Map<(int, int), (int, int)>,
    rest: Map<(int, int), (int, int)>,
    place: Map<(int, int), (int, int)>,
    all: Seq<Seq<Point>>,
) -> bool {
    &&& forall|p: (int, int)| #[trigger] rest.contains_key(p) ==> m.contains_pair(p, rest[p])
    &&& forall|p: (int, int)| #[trigger]
        place.contains_key(p) ==> m.contains_key(p) && !rest.contains_key(p) && is_step(
            all,
            place[p].0,
            place[p].1,
        ) && at(all[place[p].0][place[p].1]) == p
    &&& forall|p: (int, int)| #[trigger]
        m.contains_key(p) ==> rest.contains_key(p) || place.contains_key(p)
    &&& forall|c: int, t: int| #[trigger]
        is_step(all, c, t) ==> place.contains_key(at(all[c][t])) && place[at(all[c][t])] == (c, t)
            && m.contains_pair(at(all[c][t]), at(all[c][t + 1]))
}

/// Once no edge is left, the paths cover the map.
pub proof fn lemma_charted_covers(
    m: Map<(int, int), (int, int)>,
    rest: Map<(int, int), (int, int)>,
    place: Map<(int, int), (int, int)>,
    all: Seq<Seq<Point>>,
)
    requires
        charted(m, rest, place, all),
        forall|p: (int, int)| !rest.contains_key(p),
    ensures
        covers(m, all),
{
    assert forall|p: (int, int)| #[trigger] m.contains_key(p) implies exists|c: int, t: int|
        #[trigger] is_step(all, c, t) && at(all[c][t]) == p by {
        assert(place.contains_key(p));
        assert(is_step(all, place[p].0, place[p].1));
    }
    assert forall|c: int, t: int, c2: int, t2: int|
        #[trigger] is_step(all, c, t) && #[trigger] is_step(all, c2, t2) && all[c][t]
            == all[c2][t2] implies c == c2 && t == t2 by {
        assert(place[at(all[c][t])] == (c, t));
        assert(place[at(all[c2][t2])] == (c2, t2));
    }
}

/// Walks the edges of a map into paths. A path starts at the start of some edge that
/// is left and follows the edges, taking each out of the map, until no edge leads
/// on. Where the map consists of loops, every path ends where it started.
pub fn walk(m: FnvHashMap<Point, Point>) -> (contours: Vec<Vec<Point>>)
    ensures
        covers(edges(m), paths(contours)),
        forall|c: int| 0 <= c < contours.len() ==> (#[trigger] contours[c]).len() >= 2,
        injective(edges(m)) && continues(edges(m)) ==> closed(paths(contours)),
{
    let ghost whole = edges(m);
    let ghost loops = injective(whole) && continues(whole);
    let mut m = m;
    let mut contours: Vec<Vec<Point>> = Vec::new();
    let ghost mut place: Map<(int, int), (int, int)> = Map::empty();
    let _ = segments_len(&m);
    loop
        invariant
            edges(m).dom().finite(),
            loops == (injective(whole) && continues(whole)),
            charted(whole, edges(m), place, paths(contours)),
            forall|c: int| 0 <= c < contours.len() ==> (#[trigger] contours[c]).len() >= 2,
            loops ==> closed(paths(contours)),
            loops ==> continues(edges(m)),
        ensures
            forall|p: (int, int)| !edges(m).contains_key(p),
        decreases edges(m).dom().len(),
    {
        let found = segments_any_start(&m);
        if found.is_none() {
            break ;
        }
        let start = found.unwrap();
        let mut contour: Vec<Point> = Vec::new();
        contour.push(start);
        let mut current = start;
        let ghost before = edges(m).dom().len();
        let ghost done = paths(contours);
        proof {
            assert(done.push(contour@).len() == done.len() + 1);
            assert forall|c: int, t: int| #[trigger]
                is_step(done.push(contour@), c, t) implies is_step(done, c, t) by {}
            assert forall|c: int, t: int| #[trigger] is_step(done, c, t) implies done.push(
                contour@,
            )[c] == done[c] by {}
        }
        loop
            invariant
                edges(m).dom().finite(),
                loops == (injective(whole) && continues(whole)),
                done == paths(contours),
                contour.len() >= 1,
                contour[0] == start,
                contour[contour.len() - 1] == current,
                charted(whole, edges(m), place, done.push(contour@)),
                edges(m).dom().len() <= before,
                contour.len() >= 2 ==> edges(m).dom().len() < before,
                contour.len() >= 2 || edges(m).contains_key(at(current)),
                loops ==> forall|p: (int, int)| #[trigger]
                    edges(m).contains_key(p) ==> edges(m).contains_key(edges(m)[p]) || edges(
                        m,
                    )[p] == at(start),
                loops ==> edges(m).contains_key(at(current)) || (current == start
                    && contour.len() >= 2),
            ensures
                edges(m).dom().finite(),
                contour.len() >= 2,
                edges(m).dom().len() < before,
                charted(whole, edges(m), place, done.push(contour@)),
                loops ==> contour[0] == contour[contour.len() - 1],
                loops ==> continues(edges(m)),
            decreases edges(m).dom().len(),
        {
            let step = segments_get(&m, current);
            if step.is_none() {
                proof {
                    if loops {
                        let last = at(contour[contour.len() - 2]);
                        assert(is_step(done.push(contour@), done.len() as int, contour.len() - 2));
                        assert(done.push(contour@)[done.len() as int] == contour@);
                        assert(whole.contains_pair(last, at(current)));
                        assert forall|p: (int, int)| #[trigger]
                            edges(m).contains_key(p) implies edges(m).contains_key(
                            edges(m)[p],
                        ) by {
                            if edges(m)[p] == at(start) {
                                assert(whole.contains_pair(p, at(start)));
                                assert(place.contains_key(last));
                                assert(whole[p] == whole[last]);
                            }
                        }
                    }
                }
                break ;
            }
            let next = step.unwrap();
            let ghost old_rest = edges(m);
            let ghost old_all = done.push(contour@);
            let ghost old_place = place;
            let ghost here = (done.len() as int, contour.len() - 1);
            proof {
                place = place.insert(at(current), here);
                assert(old_all[done.len() as int] == contour@);
            }
            contour.push(next);
            segments_remove(&mut m, current);
            proof {
                let new_all = done.push(contour@);
                let c0 = done.len() as int;
                assert(new_all[c0] == contour@);
                assert(new_all.len() == old_all.len());
                assert forall|c: int| 0 <= c < c0 implies new_all[c] == old_all[c] by {}
                assert forall|t: int| 0 <= t < contour.len() - 1 implies contour@[t]
                    == old_all[c0][t] by {}
                assert forall|c: int, t: int| #[trigger] is_step(new_all, c, t) implies (is_step(
                    old_all,
                    c,
                    t,
                ) && new_all[c][t] == old_all[c][t] && new_all[c][t + 1] == old_all[c][t + 1]) || (c,
                    t,
                ) == here by {}
                assert forall|c: int, t: int| #[trigger] is_step(old_all, c, t) implies is_step(
                    new_all,
                    c,
                    t,
                ) && new_all[c][t] == old_all[c][t] by {}
                assert(is_step(new_all, here.0, here.1));
                assert(new_all[here.0][here.1] == current);
                assert(new_all[here.0][here.1 + 1] == next);
                assert(old_rest.contains_pair(at(current), at(next)));
                assert(!old_place.contains_key(at(current)));
                assert forall|c: int, t: int| #[trigger] is_step(new_all, c, t) implies place.contains_key(
                    at(new_all[c][t]),
                ) && place[at(new_all[c][t])] == (c, t) && whole.contains_pair(
                    at(new_all[c][t]),
                    at(new_all[c][t + 1]),
                ) by {
                    if (c, t) != here {
                        assert(is_step(old_all, c, t));
                        assert(old_place.contains_key(at(old_all[c][t])));
                    }
                }
                assert forall|p: (int, int)| #[trigger] place.contains_key(p) implies whole.contains_key(
                    p,
                ) && !edges(m).contains_key(p) && is_step(new_all, place[p].0, place[p].1) && at(
                    new_all[place[p].0][place[p].1],
                ) == p by {
                    if p != at(current) {
                        assert(old_place.contains_key(p));
                        assert(is_step(old_all, old_place[p].0, old_place[p].1));
                    }
                }
                assert(charted(whole, edges(m), place, new_all));
                if loops {
                    assert forall|p: (int, int)| #[trigger]
                        edges(m).contains_key(p) implies edges(m).contains_key(edges(m)[p])
                        || edges(m)[p] == at(start) by {
                        assert(old_rest.contains_key(p));
                        if old_rest[p] == at(current) && current != start {
                            let last = at(contour[contour.len() - 3]);
                            assert(is_step(old_all, c0, contour.len() - 3));
                            assert(whole.contains_pair(last, at(current)));
                            assert(old_place.contains_key(last));
                            assert(whole.contains_pair(p, at(current)));
                            assert(whole[p] == whole[last]);
                        }
                    }
                    assert(old_rest.contains_key(at(next)) || at(next) == at(start));
                    if at(next) == at(current) && current != start {
                        let last = at(contour[contour.len() - 3]);
                        assert(is_step(old_all, c0, contour.len() - 3));
                        assert(whole.contains_pair(last, at(current)));
                        assert(old_place.contains_key(last));
                        assert(whole[at(current)] == whole[last]);
                    }
                }
            }
            current = next;
        }
        proof {
            let grown = done.push(contour@);
            assert(paths(contours).push(contour@) == grown);
        }
        contours.push(contour);
        proof {
            assert(paths(contours) =~= done.push(contours[contours.len() - 1]@));
        }
    }
    proof {
        lemma_charted_covers(whole, edges(m), place, paths(contours));
    }
    contours
}

/// Extracts the contours of a mask: the closed paths along the edges that separate
/// a set cell from a cell that is not set or lies outside the lattice.
///
/// Every path ends where it starts, every step of a path is an edge of the outline,
/// and every edge of the outline is a step of exactly one path. Where a path starts
/// and in which order the paths come is not specified.
pub fn extract_contours(grid: &Mask) -> (contours: Vec<Vec<Point>>)
    requires
        traceable(grid@.len() as int, grid.spec_ncols()),
    ensures
        closed(paths(contours)),
        covers(outline(grid@), paths(contours)),
{
    let m = collect_outline(grid);
    proof {
        lemma_outline_loops(grid@, edges(m));
        lemma_outline_unique(grid@, edges(m));
    }
    walk(m)
}

} // verus!
