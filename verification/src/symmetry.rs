//! The six-fold symmetry of the lattice and of crystals that grow from a seed.
//!
//! Turning the lattice by a sixth of a turn about its centre maps neighbours to
//! neighbours. A step of the automaton therefore keeps a crystal symmetric, as long
//! as the caller's rules give every direction the same weight.

use vstd::prelude::*;
use crate::grid::is_square;
use crate::lattice::{at_neighbor, neighbor, ring_at, Ring};
use crate::neighbors::neighbor_count;
use crate::rules::{Evidence, Rules};
use crate::stages::is_boundary;
use crate::state::{seed, Lattices};

verus! {

/// Brings a coordinate that is off the lattice by less than its side back onto it.
pub open spec fn wrap(x: int, n: int) -> int {
    if x < 0 {
        x + n
    } else if x >= n {
        x - n
    } else {
        x
    }
}

/// Where cell `(i, j)` goes when the lattice of side `n` is turned by a sixth of a
/// turn about its centre: a cell at offset `(q, r)` from the centre goes to offset
/// `(-r, q + r)`.
pub open spec fn turn(n: int, i: int, j: int) -> (int, int) {
    let c = n / 2;
    (wrap(2 * c - j, n), wrap(i + j - c, n))
}

/// The direction into which direction `k` is turned.
pub open spec fn spin(k: int) -> int {
    if k == 0 {
        2
    } else if k == 2 {
        4
    } else if k == 4 {
        1
    } else if k == 1 {
        3
    } else if k == 3 {
        5
    } else {
        0
    }
}

/// What is seen around a cell after the turn, if `r` was seen before it.
pub open spec fn turned<T>(r: Ring<T>) -> Ring<T> {
    Ring {
        east: r.south_east,
        west: r.north_west,
        north: r.east,
        south: r.west,
        north_west: r.north,
        south_east: r.south,
    }
}

/// The lattice `g` looks the same after the turn.
pub open spec fn symmetric<T>(g: Seq<Seq<T>>) -> bool {
    let n = g.len() as int;
    &&& is_square(g, n)
    &&& forall|i: int, j: int|
        0 <= i < n && 0 <= j < n ==> g[turn(n, i, j).0][turn(n, i, j).1] == #[trigger] g[i][j]
}

/// A cell of the lattice is turned into a cell of the lattice.
pub proof fn lemma_turn_in_range(n: int, i: int, j: int)
    requires
        0 <= i < n,
        0 <= j < n,
    ensures
        0 <= turn(n, i, j).0 < n,
        0 <= turn(n, i, j).1 < n,
{
}

/// The turn maps the neighbour in direction `k` to the neighbour in the turned
/// direction.
pub proof fn lemma_turn_neighbor(n: int, i: int, j: int, k: int)
    requires
        0 <= i < n,
        0 <= j < n,
        0 <= k < 6,
    ensures
        ({
            let p = neighbor(n, i, j, k);
            let t = turn(n, i, j);
            turn(n, p.0, p.1) == neighbor(n, t.0, t.1, spin(k))
        }),
{
}

/// The centre stays where it is, and no other cell is turned into it.
pub proof fn lemma_turn_centre(n: int, i: int, j: int)
    requires
        0 <= i < n,
        0 <= j < n,
    ensures
        turn(n, i, j) == (n / 2, n / 2) <==> (i, j) == (n / 2, n / 2),
{
}

/// Around the turned cell a symmetric lattice shows the turned ring.
pub proof fn lemma_ring_turns<T>(g: Seq<Seq<T>>, i: int, j: int)
    requires
        symmetric(g),
        0 <= i < g.len(),
        0 <= j < g.len(),
    ensures
        ({
            let t = turn(g.len() as int, i, j);
            ring_at(g, t.0, t.1) == turned(ring_at(g, i, j))
        }),
{
    let n = g.len() as int;
    let t = turn(n, i, j);
    assert forall|k: int| 0 <= k < 6 implies at_neighbor(g, t.0, t.1, spin(k)) == at_neighbor(
        g,
        i,
        j,
        k,
    ) by {
        lemma_turn_neighbor(n, i, j, k);
        let p = neighbor(n, i, j, k);
        assert(g[turn(n, p.0, p.1).0][turn(n, p.0, p.1).1] == g[p.0][p.1]);
    }
    assert(at_neighbor(g, t.0, t.1, spin(0)) == at_neighbor(g, i, j, 0));
    assert(at_neighbor(g, t.0, t.1, spin(1)) == at_neighbor(g, i, j, 1));
    assert(at_neighbor(g, t.0, t.1, spin(2)) == at_neighbor(g, i, j, 2));
    assert(at_neighbor(g, t.0, t.1, spin(3)) == at_neighbor(g, i, j, 3));
    assert(at_neighbor(g, t.0, t.1, spin(4)) == at_neighbor(g, i, j, 4));
    assert(at_neighbor(g, t.0, t.1, spin(5)) == at_neighbor(g, i, j, 5));
}

/// In a symmetric mask the turned cell has as many frozen neighbours as the cell.
pub proof fn lemma_count_turns(ice: Seq<Seq<bool>>, i: int, j: int)
    requires
        symmetric(ice),
        0 <= i < ice.len(),
        0 <= j < ice.len(),
    ensures
        ({
            let t = turn(ice.len() as int, i, j);
            &&& neighbor_count(ice, t.0, t.1) == neighbor_count(ice, i, j)
            &&& is_boundary(ice, t.0, t.1) == is_boundary(ice, i, j)
        }),
{
    lemma_ring_turns(ice, i, j);
}

impl<T> Lattices<T> {
    /// The crystal looks the same after the turn.
    pub open spec fn symmetric(self) -> bool {
        &&& self.wf()
        &&& symmetric(self.ice)
        &&& symmetric(self.boundary_mass)
        &&& symmetric(self.crystal_mass)
        &&& symmetric(self.vapor)
    }
}

/// The seed is symmetric.
pub proof fn lemma_seed_symmetric<T>(n: int, zero: T, rho: T, seed_mass: T)
    requires
        n > 0,
    ensures
        seed(n, zero, rho, seed_mass).symmetric(),
{
    let s = seed(n, zero, rho, seed_mass);
    assert forall|i: int, j: int| 0 <= i < n && 0 <= j < n implies s.ice[turn(n, i, j).0][turn(
        n,
        i,
        j,
    ).1] == #[trigger] s.ice[i][j] by {
        lemma_turn_centre(n, i, j);
        lemma_turn_in_range(n, i, j);
    }
    assert forall|i: int, j: int|
        0 <= i < n && 0 <= j < n implies s.boundary_mass[turn(n, i, j).0][turn(n, i, j).1]
        == #[trigger] s.boundary_mass[i][j] by {
        lemma_turn_in_range(n, i, j);
    }
    assert forall|i: int, j: int|
        0 <= i < n && 0 <= j < n implies s.crystal_mass[turn(n, i, j).0][turn(n, i, j).1]
        == #[trigger] s.crystal_mass[i][j] by {
        lemma_turn_centre(n, i, j);
        lemma_turn_in_range(n, i, j);
    }
    assert forall|i: int, j: int| 0 <= i < n && 0 <= j < n implies s.vapor[turn(n, i, j).0][turn(
        n,
        i,
        j,
    ).1] == #[trigger] s.vapor[i][j] by {
        lemma_turn_centre(n, i, j);
        lemma_turn_in_range(n, i, j);
    }
}

impl<T, D, F, P, A, M, N> Rules<T, D, F, P, A, M, N> where
    D: Fn(T, Ring<T>, u8) -> T,
    F: Fn(T, T, T) -> (T, T),
    P: Fn(T, Ring<T>) -> Evidence,
    A: Fn(T, T) -> T,
    M: Fn(T, T, T) -> (T, T, T),
    N: Fn(T, bool) -> T,
    T: Copy,
 {
    /// The rules give every direction the same weight: what diffusion and the probe
    /// make of a ring, they also make of the turned ring.
    pub open spec fn isotropic(&self) -> bool {
        &&& forall|own: T, around: Ring<T>, k: u8, out: T| #[trigger]
            call_ensures(self.diffuse, (own, around, k), out) ==> call_ensures(
                self.diffuse,
                (own, turned(around), k),
                out,
            )
        &&& forall|b: T, around: Ring<T>, e: Evidence| #[trigger]
            call_ensures(self.probe, (b, around), e) ==> call_ensures(
                self.probe,
                (b, turned(around)),
                e,
            )
    }

    /// Diffusion keeps a symmetric crystal symmetric.
    pub proof fn lemma_diffusion_symmetric(
        &self,
        ice: Seq<Seq<bool>>,
        vapor: Seq<Seq<T>>,
        out: Seq<Seq<T>>,
    )
        requires
            self.functional(),
            self.isotropic(),
            symmetric(ice),
            symmetric(vapor),
            vapor.len() == ice.len(),
            self.diffused(ice, vapor, out),
        ensures
            symmetric(out),
    {
        let n = ice.len() as int;
        assert forall|i: int, j: int| 0 <= i < n && 0 <= j < n implies out[turn(n, i, j).0][turn(
            n,
            i,
            j,
        ).1] == #[trigger] out[i][j] by {
            let t = turn(n, i, j);
            lemma_turn_in_range(n, i, j);
            lemma_ring_turns(vapor, i, j);
            lemma_count_turns(ice, i, j);
            assert(ice[t.0][t.1] == ice[i][j]);
            assert(vapor[t.0][t.1] == vapor[i][j]);
            assert(self.diffusion_at(ice, vapor, i, j, out[i][j]));
            assert(self.diffusion_at(ice, vapor, t.0, t.1, out[t.0][t.1]));
        }
    }

    /// Freezing keeps a symmetric crystal symmetric.
    pub proof fn lemma_freezing_symmetric(
        &self,
        ice: Seq<Seq<bool>>,
        boundary_mass: Seq<Seq<T>>,
        crystal_mass: Seq<Seq<T>>,
        vapor: Seq<Seq<T>>,
        out: (Seq<Seq<T>>, Seq<Seq<T>>, Seq<Seq<T>>),
    )
        requires
            self.functional(),
            symmetric(ice),
            symmetric(boundary_mass),
            symmetric(crystal_mass),
            symmetric(vapor),
            boundary_mass.len() == ice.len(),
            crystal_mass.len() == ice.len(),
            vapor.len() == ice.len(),
            self.settled(ice, boundary_mass, crystal_mass, vapor, out),
        ensures
            symmetric(out.0),
            symmetric(out.1),
            symmetric(out.2),
    {
        let n = ice.len() as int;
        assert forall|i: int, j: int| 0 <= i < n && 0 <= j < n implies (out.0[turn(n, i, j).0][turn(
            n,
            i,
            j,
        ).1], out.1[turn(n, i, j).0][turn(n, i, j).1], out.2[turn(n, i, j).0][turn(n, i, j).1])
            == (#[trigger] out.0[i][j], out.1[i][j], out.2[i][j]) by {
            let t = turn(n, i, j);
            lemma_turn_in_range(n, i, j);
            lemma_count_turns(ice, i, j);
            assert(boundary_mass[t.0][t.1] == boundary_mass[i][j]);
            assert(crystal_mass[t.0][t.1] == crystal_mass[i][j]);
            assert(vapor[t.0][t.1] == vapor[i][j]);
            assert(self.freezing_at(
                ice,
                boundary_mass,
                crystal_mass,
                vapor,
                i,
                j,
                (out.0[i][j], out.1[i][j], out.2[i][j]),
            ));
            assert(self.freezing_at(
                ice,
                boundary_mass,
                crystal_mass,
                vapor,
                t.0,
                t.1,
                (out.0[t.0][t.1], out.1[t.0][t.1], out.2[t.0][t.1]),
            ));
        }
        lemma_split_symmetric(out.0, out.1, out.2);
    }

    /// Attachment keeps a symmetric crystal symmetric.
    pub proof fn lemma_attachment_symmetric(
        &self,
        ice: Seq<Seq<bool>>,
        boundary_mass: Seq<Seq<T>>,
        crystal_mass: Seq<Seq<T>>,
        vapor: Seq<Seq<T>>,
        out: (Seq<Seq<bool>>, Seq<Seq<T>>, Seq<Seq<T>>),
    )
        requires
            self.functional(),
            self.isotropic(),
            symmetric(ice),
            symmetric(boundary_mass),
            symmetric(crystal_mass),
            symmetric(vapor),
            boundary_mass.len() == ice.len(),
            crystal_mass.len() == ice.len(),
            vapor.len() == ice.len(),
            self.attached(ice, boundary_mass, crystal_mass, vapor, out),
        ensures
            symmetric(out.0),
            symmetric(out.1),
            symmetric(out.2),
    {
        let n = ice.len() as int;
        assert forall|i: int, j: int| 0 <= i < n && 0 <= j < n implies (out.0[turn(n, i, j).0][turn(
            n,
            i,
            j,
        ).1], out.1[turn(n, i, j).0][turn(n, i, j).1], out.2[turn(n, i, j).0][turn(n, i, j).1])
            == (#[trigger] out.0[i][j], out.1[i][j], out.2[i][j]) by {
            let t = turn(n, i, j);
            lemma_turn_in_range(n, i, j);
            lemma_count_turns(ice, i, j);
            lemma_ring_turns(vapor, i, j);
            assert(ice[t.0][t.1] == ice[i][j]);
            assert(boundary_mass[t.0][t.1] == boundary_mass[i][j]);
            assert(crystal_mass[t.0][t.1] == crystal_mass[i][j]);
            assert(self.attachment_at(
                ice,
                boundary_mass,
                crystal_mass,
                vapor,
                i,
                j,
                (out.0[i][j], out.1[i][j], out.2[i][j]),
            ));
            assert(self.attachment_at(
                ice,
                boundary_mass,
                crystal_mass,
                vapor,
                t.0,
                t.1,
                (out.0[t.0][t.1], out.1[t.0][t.1], out.2[t.0][t.1]),
            ));
        }
        lemma_split_symmetric(out.0, out.1, out.2);
    }

    /// Melting keeps a symmetric crystal symmetric.
    pub proof fn lemma_melting_symmetric(
        &self,
        ice: Seq<Seq<bool>>,
        boundary_mass: Seq<Seq<T>>,
        crystal_mass: Seq<Seq<T>>,
        vapor: Seq<Seq<T>>,
        out: (Seq<Seq<T>>, Seq<Seq<T>>, Seq<Seq<T>>),
    )
        requires
            self.functional(),
            symmetric(ice),
            symmetric(boundary_mass),
            symmetric(crystal_mass),
            symmetric(vapor),
            boundary_mass.len() == ice.len(),
            crystal_mass.len() == ice.len(),
            vapor.len() == ice.len(),
            self.melted(ice, boundary_mass, crystal_mass, vapor, out),
        ensures
            symmetric(out.0),
            symmetric(out.1),
            symmetric(out.2),
    {
        let n = ice.len() as int;
        assert forall|i: int, j: int| 0 <= i < n && 0 <= j < n implies (out.0[turn(n, i, j).0][turn(
            n,
            i,
            j,
        ).1], out.1[turn(n, i, j).0][turn(n, i, j).1], out.2[turn(n, i, j).0][turn(n, i, j).1])
            == (#[trigger] out.0[i][j], out.1[i][j], out.2[i][j]) by {
            let t = turn(n, i, j);
            lemma_turn_in_range(n, i, j);
            lemma_count_turns(ice, i, j);
            assert(boundary_mass[t.0][t.1] == boundary_mass[i][j]);
            assert(crystal_mass[t.0][t.1] == crystal_mass[i][j]);
            assert(vapor[t.0][t.1] == vapor[i][j]);
            assert(self.melting_at(
                ice,
                boundary_mass,
                crystal_mass,
                vapor,
                i,
                j,
                (out.0[i][j], out.1[i][j], out.2[i][j]),
            ));
            assert(self.melting_at(
                ice,
                boundary_mass,
                crystal_mass,
                vapor,
                t.0,
                t.1,
                (out.0[t.0][t.1], out.1[t.0][t.1], out.2[t.0][t.1]),
            ));
        }
        lemma_split_symmetric(out.0, out.1, out.2);
    }

    /// A step without noise keeps a symmetric crystal symmetric, if the rules give
    /// one result for each input and every direction the same weight.
    pub proof fn lemma_step_symmetric(&self, pre: Lattices<T>, post: Lattices<T>)
        requires
            self.functional(),
            self.isotropic(),
            pre.symmetric(),
            self.stepped(pre, post),
        ensures
            post.symmetric(),
    {
        let (d, s, a) = choose|
            d: Seq<Seq<T>>,
            s: (Seq<Seq<T>>, Seq<Seq<T>>, Seq<Seq<T>>),
            a: (Seq<Seq<T>>, Seq<Seq<T>>),
        | #[trigger] self.staged(pre, d, s, a, post);
        self.lemma_diffusion_symmetric(pre.ice, pre.vapor, d);
        self.lemma_freezing_symmetric(pre.ice, pre.boundary_mass, pre.crystal_mass, d, s);
        self.lemma_attachment_symmetric(pre.ice, s.0, s.1, s.2, (post.ice, a.0, a.1));
        self.lemma_melting_symmetric(
            post.ice,
            a.0,
            a.1,
            s.2,
            (post.boundary_mass, post.crystal_mass, post.vapor),
        );
    }

    /// Six-fold symmetry: a crystal that has grown from the seed in any number of
    /// steps without noise looks the same after a sixth of a turn about the centre,
    /// if the rules give one result for each input and every direction the same
    /// weight.
    pub proof fn lemma_growth_symmetric(
        &self,
        n: int,
        rho: T,
        seed_mass: T,
        post: Lattices<T>,
        steps: nat,
    )
        requires
            n > 0,
            self.functional(),
            self.isotropic(),
            self.reaches(seed(n, self.zero, rho, seed_mass), post, steps),
        ensures
            post.symmetric(),
            symmetric(post.ice),
        decreases steps,
    {
        let start = seed(n, self.zero, rho, seed_mass);
        if steps == 0 {
            lemma_seed_symmetric(n, self.zero, rho, seed_mass);
        } else {
            let mid = choose|mid: Lattices<T>|
                self.reaches(start, mid, (steps - 1) as nat) && #[trigger] self.stepped(mid, post);
            self.lemma_growth_symmetric(n, rho, seed_mass, mid, (steps - 1) as nat);
            self.lemma_step_symmetric(mid, post);
        }
    }
}

/// Three lattices that agree with their turned selves cell by cell are symmetric.
pub proof fn lemma_split_symmetric<A, B, C>(x: Seq<Seq<A>>, y: Seq<Seq<B>>, z: Seq<Seq<C>>)
    requires
        is_square(x, x.len() as int),
        is_square(y, x.len() as int),
        is_square(z, x.len() as int),
        forall|i: int, j: int|
            0 <= i < x.len() && 0 <= j < x.len() ==> ({
                let t = turn(x.len() as int, i, j);
                (x[t.0][t.1], y[t.0][t.1], z[t.0][t.1]) == (#[trigger] x[i][j], y[i][j], z[i][j])
            }),
    ensures
        symmetric(x),
        symmetric(y),
        symmetric(z),
{
    let n = x.len() as int;
    assert forall|i: int, j: int| 0 <= i < n && 0 <= j < n implies y[turn(n, i, j).0][turn(
        n,
        i,
        j,
    ).1] == #[trigger] y[i][j] by {
        let w = x[i][j];
    }
    assert forall|i: int, j: int| 0 <= i < n && 0 <= j < n implies z[turn(n, i, j).0][turn(
        n,
        i,
        j,
    ).1] == #[trigger] z[i][j] by {
        let w = x[i][j];
    }
}

} // verus!
