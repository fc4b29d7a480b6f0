//! The map from the start of a directed edge to its end, kept in a hash map with
//! the FNV hasher.

use vstd::prelude::*;
use fnv::FnvHashMap;

verus! {

/// The hasher of the `fnv` crate.
#[verifier::external_type_specification]
#[verifier::external_body]
pub struct ExFnvHasher(fnv::FnvHasher);

/// The standard builder of hashers that start from their default state.
#[verifier::external_type_specification]
#[verifier::external_body]
#[verifier::reject_recursive_types(H)]
pub struct ExBuildHasherDefault<H>(std::hash::BuildHasherDefault<H>);

/// A point with integer coordinates.
pub type Point = (i32, i32);

/// The edges that a map holds: from the start of each edge to its end.
pub uninterp spec fn edges(m: FnvHashMap<Point, Point>) -> Map<(int, int), (int, int)>;

/// A point as a pair of mathematical integers.
pub open spec fn at(p: Point) -> (int, int) {
    (p.0 as int, p.1 as int)
}

/// The set `s` is finite and has `r` members.
pub open spec fn counts(s: Set<(int, int)>, r: usize) -> bool {
    s.finite() && s.len() == r
}

/// `FnvHashMap::default()`: a map without entries.
#[verifier::external_body]
pub(crate) fn segments_new() -> (m: FnvHashMap<Point, Point>)
    ensures
        forall|p: (int, int)| !edges(m).contains_key(p),
{
    FnvHashMap::default()
}

/// `HashMap::get`, copied out: the end of the edge that starts at `start`, if the
/// map holds one.
#[verifier::external_body]
pub(crate) fn segments_get(m: &FnvHashMap<Point, Point>, start: Point) -> (r: Option<Point>)
    ensures
        match r {
            Some(end) => edges(*m).contains_pair(at(start), at(end)),
            None => !edges(*m).contains_key(at(start)),
        },
{
    m.get(&start).copied()
}

/// `HashMap::insert`: afterwards the edge from `start` leads to `end`, whether or
/// not the map held an edge from `start` before; the other edges stay.
#[verifier::external_body]
pub(crate) fn segments_insert(m: &mut FnvHashMap<Point, Point>, start: Point, end: Point)
    ensures
        edges(*final(m)) == edges(*old(m)).insert(at(start), at(end)),
{
    m.insert(start, end);
}

/// `HashMap::remove`: afterwards the map holds no edge from `start`; the other
/// edges stay.
#[verifier::external_body]
pub(crate) fn segments_remove(m: &mut FnvHashMap<Point, Point>, start: Point)
    ensures
        edges(*final(m)) == edges(*old(m)).remove(at(start)),
{
    m.remove(&start);
}

/// `HashMap::len`: the number of edges, which is the number of their starts. A hash
/// map holds finitely many entries.
#[verifier::external_body]
pub(crate) fn segments_len(m: &FnvHashMap<Point, Point>) -> (r: usize)
    ensures
        counts(edges(*m).dom(), r),
{
    m.len()
}

/// `HashMap::keys` and the first item of that iterator: the start of some edge of
/// the map, or nothing if the map is empty. Which start comes first is up to the
/// hash map.
#[verifier::external_body]
pub(crate) fn segments_any_start(m: &FnvHashMap<Point, Point>) -> (r: Option<Point>)
    ensures
        match r {
            Some(start) => edges(*m).contains_key(at(start)),
            None => forall|p: (int, int)| !edges(*m).contains_key(p),
        },
{
    m.keys().next().copied()
}

} // verus!
