//! The surface of a crystal as facets between lattice points: the triangles of the
//! region that the solid cells span, once on top and once below, and two facets
//! for every edge of the rim to close the sides.
//!
//! A facet names its corners by lattice point and side. Where the points lie in
//! space, and how high, is for the caller to say.

use vstd::prelude::*;
use fnv::{FnvHashMap, FnvHashSet};
use crate::contour::is_step;
use crate::fans::{
    ends_any, fans, fans_any_start, fans_len, fans_take, members, node, Node,
};
use crate::grid::{is_square, Mask};
use crate::rim::{collect_rim, leads, lemma_rim_unique, lower, rim, tidy, upper};

verus! {

/// A corner of a facet: a lattice point, on the top side of the crystal or on the
/// bottom side.
#[derive(Clone, Copy, Debug, PartialEq, Eq)]
pub struct Corner {
    pub i: usize,
    pub j: usize,
    pub top: bool,
}

/// A facet with corners in the order that fixes its outward side.
#[derive(Clone, Copy, Debug, PartialEq, Eq)]
pub struct Facet(pub Corner, pub Corner, pub Corner);

/// The corner above lattice point `(i, j)`.
pub open spec fn above(i: int, j: int) -> Corner {
    Corner { i: i as usize, j: j as usize, top: true }
}

/// The corner below lattice point `(i, j)`.
pub open spec fn below(i: int, j: int) -> Corner {
    Corner { i: i as usize, j: j as usize, top: false }
}

/// The facets of the triangles that start in cell `(i, j)`: for the lower triangle,
/// if it belongs to the region, its top facet and its bottom facet, then the same
/// for the upper triangle. A bottom facet has its corners in reverse order.
pub open spec fn cell_caps(mask: Seq<Seq<bool>>, i: int, j: int) -> Seq<Facet> {
    let low = if lower(mask, i, j) {
        seq![
            Facet(above(i, j), above(i + 1, j), above(i, j + 1)),
            Facet(below(i, j + 1), below(i + 1, j), below(i, j)),
        ]
    } else {
        Seq::<Facet>::empty()
    };
    let high = if upper(mask, i, j) {
        seq![
            Facet(above(i + 1, j), above(i + 1, j + 1), above(i, j + 1)),
            Facet(below(i, j + 1), below(i + 1, j + 1), below(i + 1, j)),
        ]
    } else {
        Seq::<Facet>::empty()
    };
    low + high
}

/// The caps of the first `cols` cells of row `i`.
pub open spec fn row_caps(mask: Seq<Seq<bool>>, i: int, cols: int) -> Seq<Facet>
    decreases cols,
{
    if cols <= 0 {
        Seq::<Facet>::empty()
    } else {
        row_caps(mask, i, cols - 1) + cell_caps(mask, i, cols - 1)
    }
}

/// The caps of the first `rows` rows, each row as far as its last cell but one.
pub open spec fn caps_upto(mask: Seq<Seq<bool>>, rows: int) -> Seq<Facet>
    decreases rows,
{
    if rows <= 0 {
        Seq::<Facet>::empty()
    } else {
        caps_upto(mask, rows - 1) + row_caps(mask, rows - 1, mask.len() - 1)
    }
}

/// The top and bottom facets of the region, cell by cell and row by row.
pub open spec fn caps(mask: Seq<Seq<bool>>) -> Seq<Facet> {
    caps_upto(mask, mask.len() - 1)
}

/// The two facets that close the side along the rim edge from `a` to `b`.
pub open spec fn step_sides(a: Node, b: Node) -> Seq<Facet> {
    seq![
        Facet(
            Corner { i: b.0, j: b.1, top: true },
            Corner { i: a.0, j: a.1, top: true },
            Corner { i: b.0, j: b.1, top: false },
        ),
        Facet(
            Corner { i: a.0, j: a.1, top: false },
            Corner { i: b.0, j: b.1, top: false },
            Corner { i: a.0, j: a.1, top: true },
        ),
    ]
}

/// The side facets along the first `steps` steps of a path.
pub open spec fn path_sides(path: Seq<Node>, steps: int) -> Seq<Facet>
    decreases steps,
{
    if steps <= 0 {
        Seq::<Facet>::empty()
    } else {
        path_sides(path, steps - 1) + step_sides(path[steps - 1], path[steps])
    }
}

/// The side facets along the first `count` paths.
pub open spec fn sides_upto(all: Seq<Seq<Node>>, count: int) -> Seq<Facet>
    decreases count,
{
    if count <= 0 {
        Seq::<Facet>::empty()
    } else {
        sides_upto(all, count - 1) + path_sides(all[count - 1], all[count - 1].len() - 1)
    }
}

/// The side facets along all paths, in the order of the paths and of their steps.
pub open spec fn sides(all: Seq<Seq<Node>>) -> Seq<Facet> {
    sides_upto(all, all.len() as int)
}

/// The paths of a list of contours.
pub open spec fn routes(contours: Vec<Vec<Node>>) -> Seq<Seq<Node>> {
    Seq::new(contours.len() as nat, |c: int| contours[c]@)
}

/// The paths go round the rim `f`: every path has two points or more, every step of
/// a path is an edge of `f`, every point where edges of `f` start is the start of a
/// step, and no two steps start at the same point. Where several edges start at one
/// point, one of them is taken.
pub open spec fn rounds(f: Map<(int, int), Set<(int, int)>>, all: Seq<Seq<Node>>) -> bool {
    &&& forall|c: int| 0 <= c < all.len() ==> (#[trigger] all[c]).len() >= 2
    &&& forall|c: int, t: int| #[trigger]
        is_step(all, c, t) ==> leads(f, node(all[c][t]), node(all[c][t + 1]))
    &&& forall|p: (int, int)| #[trigger]
        f.contains_key(p) ==> exists|c: int, t: int| #[trigger]
            is_step(all, c, t) && node(all[c][t]) == p
    &&& forall|c: int, t: int, c2: int, t2: int|
        #[trigger] is_step(all, c, t) && #[trigger] is_step(all, c2, t2) && all[c][t]
            == all[c2][t2] ==> c == c2 && t == t2
}

/// How far a walk has come: the starts of `rest` are starts of `whole`, with all
/// their ends, from which no path has stepped yet, and `place` tells for every other
/// start of `whole` which step of which path left from it.
pub open spec fn mapped(
    whole: Map<(int, int), Set<(int, int)>>,
    rest: Map<(int, int), Set<(int, int)>>,
    place: Map<(int, int), (int, int)>,
    all: Seq<Seq<Node>>,
) -> bool {
    &&& forall|p: (int, int)| #[trigger]
        rest.contains_key(p) ==> whole.contains_key(p) && rest[p] == whole[p]
    &&& forall|p: (int, int)| #[trigger]
        place.contains_key(p) ==> whole.contains_key(p) && !rest.contains_key(p) && is_step(
            all,
            place[p].0,
            place[p].1,
        ) && node(all[place[p].0][place[p].1]) == p
    &&& forall|p: (int, int)| #[trigger]
        whole.contains_key(p) ==> rest.contains_key(p) || place.contains_key(p)
    &&& forall|c: int, t: int| #[trigger]
        is_step(all, c, t) ==> place.contains_key(node(all[c][t])) && place[node(all[c][t])]
            == (c, t) && leads(whole, node(all[c][t]), node(all[c][t + 1]))
}

/// Walks the edges of a map of fans into paths. A path starts at some start that is
/// left and steps along an edge to its end, taking the start and all its edges out
/// of the map, until it reaches a point where no edge is left.
pub fn walk_rim(m: FnvHashMap<Node, FnvHashSet<Node>>) -> (contours: Vec<Vec<Node>>)
    requires
        tidy(fans(m)),
    ensures
        rounds(fans(m), routes(contours)),
{
    let ghost whole = fans(m);
    let mut m = m;
    let mut contours: Vec<Vec<Node>> = Vec::new();
    let ghost mut place: Map<(int, int), (int, int)> = Map::empty();
    let _ = fans_len(&m);
    loop
        invariant
            fans(m).dom().finite(),
            tidy(whole),
            mapped(whole, fans(m), place, routes(contours)),
            forall|c: int| 0 <= c < contours.len() ==> (#[trigger] contours[c]).len() >= 2,
        ensures
            forall|p: (int, int)| !fans(m).contains_key(p),
        decreases fans(m).dom().len(),
    {
        let found = fans_any_start(&m);
        if found.is_none() {
            break ;
        }
        let start = found.unwrap();
        let mut contour: Vec<Node> = Vec::new();
        contour.push(start);
        let mut current = start;
        let ghost before = fans(m).dom().len();
        let ghost done = routes(contours);
        proof {
            assert forall|c: int, t: int| #[trigger]
                is_step(done.push(contour@), c, t) implies is_step(done, c, t) by {}
            assert forall|c: int, t: int| #[trigger] is_step(done, c, t) implies done.push(
                contour@,
            )[c] == done[c] by {}
        }
        loop
            invariant
                fans(m).dom().finite(),
                tidy(whole),
                done == routes(contours),
                contour.len() >= 1,
                contour[contour.len() - 1] == current,
                mapped(whole, fans(m), place, done.push(contour@)),
                fans(m).dom().len() <= before,
                contour.len() >= 2 ==> fans(m).dom().len() < before,
                contour.len() >= 2 || fans(m).contains_key(node(current)),
            ensures
                fans(m).dom().finite(),
                contour.len() >= 2,
                fans(m).dom().len() < before,
                mapped(whole, fans(m), place, done.push(contour@)),
            decreases fans(m).dom().len(),
        {
            let ghost old_rest = fans(m);
            let taken = fans_take(&mut m, current);
            if taken.is_none() {
                proof {
                    assert(fans(m) =~= old_rest);
                }
                break ;
            }
            let ends = taken.unwrap();
            let next = match ends_any(&ends) {
                Some(next) => next,
                None => {
                    proof {
                        assert(whole.contains_key(node(current)));
                        let b = choose|b: (int, int)| whole[node(current)].contains(b);
                        assert(members(ends).contains(b));
                    }
                    vstd::pervasive::unreached()
                },
            };
            let ghost old_all = done.push(contour@);
            let ghost old_place = place;
            let ghost here = (done.len() as int, contour.len() - 1);
            proof {
                place = place.insert(node(current), here);
                assert(old_all[done.len() as int] == contour@);
            }
            contour.push(next);
            proof {
                let new_all = done.push(contour@);
                let c0 = done.len() as int;
                assert(new_all[c0] == contour@);
                assert(new_all.len() == old_all.len());
                assert forall|c: int| 0 <= c < c0 implies new_all[c] == old_all[c] by {}
                assert forall|t: int| 0 <= t < contour.len() - 1 implies contour@[t]
                    == old_all[c0][t] by {}
                assert forall|c: int, t: int| #[trigger] is_step(new_all, c, t) implies (is_step(
                    old_all,
                    c,
                    t,
                ) && new_all[c][t] == old_all[c][t] && new_all[c][t + 1] == old_all[c][t + 1]) || (c,
                    t,
                ) == here by {}
                assert forall|c: int, t: int| #[trigger] is_step(old_all, c, t) implies is_step(
                    new_all,
                    c,
                    t,
                ) && new_all[c][t] == old_all[c][t] by {}
                assert(is_step(new_all, here.0, here.1));
                assert(new_all[here.0][here.1] == current);
                assert(new_all[here.0][here.1 + 1] == next);
                assert(leads(whole, node(current), node(next)));
                assert(!old_place.contains_key(node(current)));
                assert forall|c: int, t: int| #[trigger] is_step(new_all, c, t) implies place.contains_key(
                    node(new_all[c][t]),
                ) && place[node(new_all[c][t])] == (c, t) && leads(
                    whole,
                    node(new_all[c][t]),
                    node(new_all[c][t + 1]),
                ) by {
                    if (c, t) != here {
                        assert(is_step(old_all, c, t));
                        assert(old_place.contains_key(node(old_all[c][t])));
                    }
                }
                assert forall|p: (int, int)| #[trigger] place.contains_key(p) implies whole.contains_key(
                    p,
                ) && !fans(m).contains_key(p) && is_step(new_all, place[p].0, place[p].1) && node(
                    new_all[place[p].0][place[p].1],
                ) == p by {
                    if p != node(current) {
                        assert(old_place.contains_key(p));
                        assert(is_step(old_all, old_place[p].0, old_place[p].1));
                    }
                }
                assert(mapped(whole, fans(m), place, new_all));
            }
            current = next;
        }
        proof {
            let grown = done.push(contour@);
            assert(routes(contours).push(contour@) == grown);
        }
        contours.push(contour);
        proof {
            assert(routes(contours) =~= done.push(contours[contours.len() - 1]@));
        }
    }
    proof {
        let all = routes(contours);
        assert forall|p: (int, int)| #[trigger] whole.contains_key(p) implies exists|
            c: int,
            t: int,
        | #[trigger] is_step(all, c, t) && node(all[c][t]) == p by {
            assert(place.contains_key(p));
            assert(is_step(all, place[p].0, place[p].1));
        }
        assert forall|c: int, t: int, c2: int, t2: int|
            #[trigger] is_step(all, c, t) && #[trigger] is_step(all, c2, t2) && all[c][t]
                == all[c2][t2] implies c == c2 && t == t2 by {
            assert(place[node(all[c][t])] == (c, t));
            assert(place[node(all[c2][t2])] == (c2, t2));
        }
    }
    contours
}

/// The top and bottom facets of the region that the set cells of a square mask
/// span.
pub fn cap_facets(solid: &Mask) -> (facets: Vec<Facet>)
    requires
        is_square(solid@, solid@.len() as int),
    ensures
        facets@ == caps(solid@),
{
    let n = solid.nrows();
    let mut facets: Vec<Facet> = Vec::new();
    if n == 0 {
        return facets;
    }
    let last = n - 1;
    let mut i: usize = 0;
    while i < last
        invariant
            i <= last,
            last == n - 1,
            n == solid@.len(),
            is_square(solid@, n as int),
            facets@ == caps_upto(solid@, i as int),
        decreases last - i,
    {
        let ghost row_start = facets@;
        let mut j: usize = 0;
        proof {
            assert(facets@ =~= row_start + row_caps(solid@, i as int, 0));
        }
        while j < last
            invariant
                i < last,
                j <= last,
                last == n - 1,
                n == solid@.len(),
                is_square(solid@, n as int),
                row_start == caps_upto(solid@, i as int),
                facets@ == row_start + row_caps(solid@, i as int, j as int),
            decreases last - j,
        {
            let here = solid.get(i, j);
            let right = solid.get(i + 1, j);
            let up = solid.get(i, j + 1);
            let beyond = solid.get(i + 1, j + 1);
            let ghost cell_start = facets@;
            if here && right && up {
                facets.push(
                    Facet(
                        Corner { i, j, top: true },
                        Corner { i: i + 1, j, top: true },
                        Corner { i, j: j + 1, top: true },
                    ),
                );
                facets.push(
                    Facet(
                        Corner { i, j: j + 1, top: false },
                        Corner { i: i + 1, j, top: false },
                        Corner { i, j, top: false },
                    ),
                );
            }
            if right && beyond && up {
                facets.push(
                    Facet(
                        Corner { i: i + 1, j, top: true },
                        Corner { i: i + 1, j: j + 1, top: true },
                        Corner { i, j: j + 1, top: true },
                    ),
                );
                facets.push(
                    Facet(
                        Corner { i, j: j + 1, top: false },
                        Corner { i: i + 1, j: j + 1, top: false },
                        Corner { i: i + 1, j, top: false },
                    ),
                );
            }
            proof {
                assert(facets@ =~= cell_start + cell_caps(solid@, i as int, j as int));
                assert(row_caps(solid@, i as int, j + 1) == row_caps(solid@, i as int, j as int)
                    + cell_caps(solid@, i as int, j as int));
                assert(facets@ =~= row_start + row_caps(solid@, i as int, j + 1));
            }
            j = j + 1;
        }
        proof {
            assert(caps_upto(solid@, i + 1) == caps_upto(solid@, i as int) + row_caps(
                solid@,
                i as int,
                solid@.len() - 1,
            ));
        }
        i = i + 1;
    }
    facets
}

/// The facets that close the sides along the given paths: two for every step, in
/// the order of the paths and of their steps.
pub fn side_facets(contours: &Vec<Vec<Node>>) -> (facets: Vec<Facet>)
    requires
        forall|c: int| 0 <= c < contours.len() ==> (#[trigger] contours[c]).len() >= 1,
    ensures
        facets@ == sides(routes(*contours)),
{
    let mut facets: Vec<Facet> = Vec::new();
    let ghost all = routes(*contours);
    let mut c: usize = 0;
    while c < contours.len()
        invariant
            c <= contours.len(),
            all == routes(*contours),
            forall|c: int| 0 <= c < contours.len() ==> (#[trigger] contours[c]).len() >= 1,
            facets@ == sides_upto(all, c as int),
        decreases contours.len() - c,
    {
        let contour = &contours[c];
        let ghost path_start = facets@;
        let steps = contour.len() - 1;
        let mut t: usize = 0;
        proof {
            assert(all[c as int] == contour@);
            assert(facets@ =~= path_start + path_sides(contour@, 0));
        }
        while t < steps
            invariant
                t <= steps,
                steps == contour.len() - 1,
                facets@ == path_start + path_sides(contour@, t as int),
            decreases steps - t,
        {
            let a = contour[t];
            let b = contour[t + 1];
            let ghost step_start = facets@;
            facets.push(
                Facet(
                    Corner { i: b.0, j: b.1, top: true },
                    Corner { i: a.0, j: a.1, top: true },
                    Corner { i: b.0, j: b.1, top: false },
                ),
            );
            facets.push(
                Facet(
                    Corner { i: a.0, j: a.1, top: false },
                    Corner { i: b.0, j: b.1, top: false },
                    Corner { i: a.0, j: a.1, top: true },
                ),
            );
            proof {
                assert(facets@ =~= step_start + step_sides(a, b));
                assert(path_sides(contour@, t + 1) == path_sides(contour@, t as int) + step_sides(
                    contour@[t as int],
                    contour@[t + 1],
                ));
                assert(facets@ =~= path_start + path_sides(contour@, t + 1));
            }
            t = t + 1;
        }
        proof {
            assert(sides_upto(all, c + 1) == sides_upto(all, c as int) + path_sides(
                all[c as int],
                all[c as int].len() - 1,
            ));
        }
        c = c + 1;
    }
    facets
}

/// The paths round the rim of the region that the set cells of a square mask span.
pub fn rim_contours(solid: &Mask) -> (contours: Vec<Vec<Node>>)
    requires
        is_square(solid@, solid@.len() as int),
    ensures
        rounds(rim(solid@), routes(contours)),
{
    let m = collect_rim(solid);
    proof {
        lemma_rim_unique(solid@, fans(m));
    }
    walk_rim(m)
}

/// The surface of the crystal whose solid cells are set in `solid`: the top and
/// bottom facets of the region that the solid cells span, followed by the side
/// facets along paths that go round the rim of the region.
pub fn cells_to_triangles(solid: &Mask) -> (facets: Vec<Facet>)
    requires
        is_square(solid@, solid@.len() as int),
    ensures
        exists|all: Seq<Seq<Node>>| #[trigger]
            rounds(rim(solid@), all) && facets@ == caps(solid@) + sides(all),
{
    let mut facets = cap_facets(solid);
    let contours = rim_contours(solid);
    proof {
        assert forall|c: int| 0 <= c < contours.len() implies (#[trigger] contours[c]).len()
            >= 1 by {
            assert(routes(contours)[c] == contours[c]@);
        }
    }
    let mut walls = side_facets(&contours);
    facets.append(&mut walls);
    proof {
        assert(rounds(rim(solid@), routes(contours)));
    }
    facets
}

} // verus!
