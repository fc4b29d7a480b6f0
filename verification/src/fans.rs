//! Directed edges between lattice points, kept as a hash map from the start of an
//! edge to the set of the ends of the edges that start there. Map and sets use the
//! FNV hasher.

use vstd::prelude::*;
use fnv::{FnvHashMap, FnvHashSet};
use crate::segments::counts;

verus! {

/// A point of the lattice.
pub type Node = (usize, usize);

/// The ends that a set holds.
pub uninterp spec fn members(s: FnvHashSet<Node>) -> Set<(int, int)>;

/// The edges that a map holds: for each start the set of ends.
pub uninterp spec fn fans(m: FnvHashMap<Node, FnvHashSet<Node>>) -> Map<(int, int), Set<(int, int)>>;

/// A lattice point as a pair of mathematical integers.
pub open spec fn node(p: Node) -> (int, int) {
    (p.0 as int, p.1 as int)
}

/// `FnvHashMap::default()`: a map without entries.
#[verifier::external_body]
pub(crate) fn fans_new() -> (m: FnvHashMap<Node, FnvHashSet<Node>>)
    ensures
        forall|p: (int, int)| !fans(m).contains_key(p),
{
    FnvHashMap::default()
}

/// `HashMap::remove`: takes the set of ends at `start` out of the map and returns
/// it, or returns nothing and leaves the map alone if no edge starts there.
#[verifier::external_body]
pub(crate) fn fans_take(m: &mut FnvHashMap<Node, FnvHashSet<Node>>, start: Node) -> (r: Option<
    FnvHashSet<Node>,
>)
    ensures
        fans(*final(m)) == fans(*old(m)).remove(node(start)),
        match r {
            Some(ends) => fans(*old(m)).contains_key(node(start)) && members(ends) == fans(
                *old(m),
            )[node(start)],
            None => !fans(*old(m)).contains_key(node(start)),
        },
{
    m.remove(&start)
}

/// `HashMap::insert`: afterwards the ends at `start` are those of `ends`, whatever
/// they were before; the other entries stay.
#[verifier::external_body]
pub(crate) fn fans_put(
    m: &mut FnvHashMap<Node, FnvHashSet<Node>>,
    start: Node,
    ends: FnvHashSet<Node>,
)
    ensures
        fans(*final(m)) == fans(*old(m)).insert(node(start), members(ends)),
{
    m.insert(start, ends);
}

/// `HashMap::len`: the number of starts. A hash map holds finitely many entries.
#[verifier::external_body]
pub(crate) fn fans_len(m: &FnvHashMap<Node, FnvHashSet<Node>>) -> (r: usize)
    ensures
        counts(fans(*m).dom(), r),
{
    m.len()
}

/// `HashMap::keys` and the first item of that iterator: some start of the map, or
/// nothing if the map is empty. Which start comes first is up to the hash map.
#[verifier::external_body]
pub(crate) fn fans_any_start(m: &FnvHashMap<Node, FnvHashSet<Node>>) -> (r: Option<Node>)
    ensures
        match r {
            Some(start) => fans(*m).contains_key(node(start)),
            None => forall|p: (int, int)| !fans(*m).contains_key(p),
        },
{
    m.keys().next().copied()
}

/// `FnvHashSet::default()`: a set without members.
#[verifier::external_body]
pub(crate) fn ends_new() -> (s: FnvHashSet<Node>)
    ensures
        forall|p: (int, int)| !members(s).contains(p),
{
    FnvHashSet::default()
}

/// `HashSet::insert`: afterwards `end` is a member; the other members stay.
#[verifier::external_body]
pub(crate) fn ends_insert(s: &mut FnvHashSet<Node>, end: Node)
    ensures
        members(*final(s)) == members(*old(s)).insert(node(end)),
{
    s.insert(end);
}

/// `HashSet::remove`: afterwards `end` is no member; the other members stay.
/// Returns whether `end` was a member.
#[verifier::external_body]
pub(crate) fn ends_remove(s: &mut FnvHashSet<Node>, end: Node) -> (r: bool)
    ensures
        members(*final(s)) == members(*old(s)).remove(node(end)),
        r == members(*old(s)).contains(node(end)),
{
    s.remove(&end)
}

/// `HashSet::iter` and the first item of that iterator: some member of the set, or
/// nothing if the set is empty. Which member comes first is up to the hash set.
#[verifier::external_body]
pub(crate) fn ends_any(s: &FnvHashSet<Node>) -> (r: Option<Node>)
    ensures
        match r {
            Some(end) => members(*s).contains(node(end)),
            None => forall|p: (int, int)| !members(*s).contains(p),
        },
{
    s.iter().next().copied()
}

} // verus!
