//! Mass accounting: what the stages of a step hand to the caller's rules adds up, so
//! that rules which lose nothing make a step that loses nothing.
//!
//! Mass is measured by a function from quantities to integers. For an exact
//! quantity it is the quantity in some unit; nothing here depends on which.

use vstd::prelude::*;
use crate::grid::is_square;
use crate::lattice::{
    at_neighbor, lemma_neighbor_in_range, lemma_neighbor_opposite, neighbor, opposite, ring_at,
    Ring,
};
use crate::neighbors::{neighbor_count, unit};
use crate::rules::{Evidence, Rules};
use crate::state::Lattices;
use crate::sums::{
    lattice_sum, lemma_lattice_add, lemma_lattice_neighbor, lemma_lattice_same,
    lemma_lattice_sevenfold,
};

verus! {

/// The mass that a lattice holds.
pub open spec fn mass_of<T>(mass: spec_fn(T) -> int, g: Seq<Seq<T>>) -> int {
    lattice_sum(|i: int, j: int| mass(g[i][j]), g.len() as int)
}

/// The mass that a crystal and the vapor around it hold: boundary mass, crystal mass
/// and vapor of all cells.
pub open spec fn total_mass<T>(mass: spec_fn(T) -> int, s: Lattices<T>) -> int {
    mass_of(mass, s.boundary_mass) + mass_of(mass, s.crystal_mass) + mass_of(mass, s.vapor)
}

/// The mass of the six quantities of a ring.
pub open spec fn ring_mass<T>(mass: spec_fn(T) -> int, r: Ring<T>) -> int {
    mass(r.east) + mass(r.west) + mass(r.north) + mass(r.south) + mass(r.north_west) + mass(
        r.south_east,
    )
}

/// The mass that diffusion hands to its rule at cell `(i, j)`: the cell's own vapor,
/// once and once more for each frozen neighbour, and the vapor of the six cells
/// around it. A frozen cell hands over nothing.
pub open spec fn intake<T>(
    mass: spec_fn(T) -> int,
    ice: Seq<Seq<bool>>,
    vapor: Seq<Seq<T>>,
    i: int,
    j: int,
) -> int {
    if ice[i][j] {
        0
    } else {
        (1 + neighbor_count(ice, i, j)) * mass(vapor[i][j]) + ring_mass(mass, ring_at(vapor, i, j))
    }
}

/// No frozen cell holds vapor that has mass.
pub open spec fn dry<T>(mass: spec_fn(T) -> int, ice: Seq<Seq<bool>>, vapor: Seq<Seq<T>>) -> bool {
    forall|i: int, j: int|
        0 <= i < ice.len() && 0 <= j < ice.len() && ice[i][j] ==> mass(#[trigger] vapor[i][j]) == 0
}

/// What cell `(i, j)` takes from its neighbour in direction `k`: the neighbour's
/// vapor, unless the cell is frozen.
pub open spec fn taken<T>(
    mass: spec_fn(T) -> int,
    ice: Seq<Seq<bool>>,
    vapor: Seq<Seq<T>>,
    k: int,
    i: int,
    j: int,
) -> int {
    if ice[i][j] {
        0
    } else {
        mass(at_neighbor(vapor, i, j, k))
    }
}

/// What cell `(i, j)` gives to its neighbour in direction `k`: its own vapor, unless
/// the neighbour is frozen.
pub open spec fn given<T>(
    mass: spec_fn(T) -> int,
    ice: Seq<Seq<bool>>,
    vapor: Seq<Seq<T>>,
    k: int,
    i: int,
    j: int,
) -> int {
    if at_neighbor(ice, i, j, k) {
        0
    } else {
        mass(vapor[i][j])
    }
}

/// All that the cells take from their neighbours in one direction is all that the
/// cells give to their neighbours in the opposite direction.
pub proof fn lemma_taken_is_given<T>(
    mass: spec_fn(T) -> int,
    ice: Seq<Seq<bool>>,
    vapor: Seq<Seq<T>>,
    k: int,
)
    requires
        0 <= k < 6,
        is_square(ice, ice.len() as int),
        is_square(vapor, ice.len() as int),
    ensures
        lattice_sum(|i: int, j: int| taken(mass, ice, vapor, k, i, j), ice.len() as int)
            == lattice_sum(
            |i: int, j: int| given(mass, ice, vapor, opposite(k), i, j),
            ice.len() as int,
        ),
{
    let n = ice.len() as int;
    let f = |i: int, j: int| given(mass, ice, vapor, opposite(k), i, j);
    let g = |i: int, j: int| taken(mass, ice, vapor, k, i, j);
    assert forall|i: int, j: int| 0 <= i < n && 0 <= j < n implies #[trigger] g(i, j) == f(
        neighbor(n, i, j, k).0,
        neighbor(n, i, j, k).1,
    ) by {
        lemma_neighbor_in_range(n, i, j, k);
        lemma_neighbor_opposite(n, i, j, k);
    }
    lemma_lattice_neighbor(f, g, n, k);
}

/// The sum over the lattice of seven terms added up is the sum of their sums.
pub proof fn lemma_lattice_add7(
    f0: spec_fn(int, int) -> int,
    f1: spec_fn(int, int) -> int,
    f2: spec_fn(int, int) -> int,
    f3: spec_fn(int, int) -> int,
    f4: spec_fn(int, int) -> int,
    f5: spec_fn(int, int) -> int,
    f6: spec_fn(int, int) -> int,
    h: spec_fn(int, int) -> int,
    n: int,
)
    requires
        forall|i: int, j: int|
            0 <= i < n && 0 <= j < n ==> #[trigger] h(i, j) == f0(i, j) + f1(i, j) + f2(i, j) + f3(
                i,
                j,
            ) + f4(i, j) + f5(i, j) + f6(i, j),
    ensures
        lattice_sum(h, n) == lattice_sum(f0, n) + lattice_sum(f1, n) + lattice_sum(f2, n)
            + lattice_sum(f3, n) + lattice_sum(f4, n) + lattice_sum(f5, n) + lattice_sum(f6, n),
{
    let s1 = |i: int, j: int| f0(i, j) + f1(i, j);
    let s2 = |i: int, j: int| s1(i, j) + f2(i, j);
    let s3 = |i: int, j: int| s2(i, j) + f3(i, j);
    let s4 = |i: int, j: int| s3(i, j) + f4(i, j);
    let s5 = |i: int, j: int| s4(i, j) + f5(i, j);
    let s6 = |i: int, j: int| s5(i, j) + f6(i, j);
    lemma_lattice_add(f0, f1, s1, n);
    lemma_lattice_add(s1, f2, s2, n);
    lemma_lattice_add(s2, f3, s3, n);
    lemma_lattice_add(s3, f4, s4, n);
    lemma_lattice_add(s4, f5, s5, n);
    lemma_lattice_add(s5, f6, s6, n);
    lemma_lattice_same(h, s6, n);
}

/// The sum over the lattice of three terms added up is the sum of their sums.
pub proof fn lemma_lattice_add3(
    f0: spec_fn(int, int) -> int,
    f1: spec_fn(int, int) -> int,
    f2: spec_fn(int, int) -> int,
    h: spec_fn(int, int) -> int,
    n: int,
)
    requires
        forall|i: int, j: int|
            0 <= i < n && 0 <= j < n ==> #[trigger] h(i, j) == f0(i, j) + f1(i, j) + f2(i, j),
    ensures
        lattice_sum(h, n) == lattice_sum(f0, n) + lattice_sum(f1, n) + lattice_sum(f2, n),
{
    let s1 = |i: int, j: int| f0(i, j) + f1(i, j);
    let s2 = |i: int, j: int| s1(i, j) + f2(i, j);
    lemma_lattice_add(f0, f1, s1, n);
    lemma_lattice_add(s1, f2, s2, n);
    lemma_lattice_same(h, s2, n);
}

/// At a cell that is not frozen, the intake is seven times the cell's vapor, and
/// what the cell takes from its neighbours, less what it gives to them.
pub proof fn lemma_intake_at<T>(
    mass: spec_fn(T) -> int,
    ice: Seq<Seq<bool>>,
    vapor: Seq<Seq<T>>,
    i: int,
    j: int,
)
    requires
        ice[i][j] ==> mass(vapor[i][j]) == 0,
    ensures
        intake(mass, ice, vapor, i, j) + given(mass, ice, vapor, 0, i, j) + given(
            mass,
            ice,
            vapor,
            1,
            i,
            j,
        ) + given(mass, ice, vapor, 2, i, j) + given(mass, ice, vapor, 3, i, j) + given(
            mass,
            ice,
            vapor,
            4,
            i,
            j,
        ) + given(mass, ice, vapor, 5, i, j) == 7 * mass(vapor[i][j]) + taken(
            mass,
            ice,
            vapor,
            0,
            i,
            j,
        ) + taken(mass, ice, vapor, 1, i, j) + taken(mass, ice, vapor, 2, i, j) + taken(
            mass,
            ice,
            vapor,
            3,
            i,
            j,
        ) + taken(mass, ice, vapor, 4, i, j) + taken(mass, ice, vapor, 5, i, j),
{
    let a = mass(vapor[i][j]);
    let u0 = unit(at_neighbor(ice, i, j, 0));
    let u1 = unit(at_neighbor(ice, i, j, 1));
    let u2 = unit(at_neighbor(ice, i, j, 2));
    let u3 = unit(at_neighbor(ice, i, j, 3));
    let u4 = unit(at_neighbor(ice, i, j, 4));
    let u5 = unit(at_neighbor(ice, i, j, 5));
    assert((1 + (u0 + u1 + u2 + u3 + u4 + u5)) * a == a + u0 * a + u1 * a + u2 * a + u3 * a + u4
        * a + u5 * a) by (nonlinear_arith);
    assert(given(mass, ice, vapor, 0, i, j) == a - u0 * a) by (nonlinear_arith)
        requires
            u0 == 0 || u0 == 1,
            given(mass, ice, vapor, 0, i, j) == (if u0 == 1 {
                0
            } else {
                a
            }),
    ;
    assert(given(mass, ice, vapor, 1, i, j) == a - u1 * a) by (nonlinear_arith)
        requires
            u1 == 0 || u1 == 1,
            given(mass, ice, vapor, 1, i, j) == (if u1 == 1 {
                0
            } else {
                a
            }),
    ;
    assert(given(mass, ice, vapor, 2, i, j) == a - u2 * a) by (nonlinear_arith)
        requires
            u2 == 0 || u2 == 1,
            given(mass, ice, vapor, 2, i, j) == (if u2 == 1 {
                0
            } else {
                a
            }),
    ;
    assert(given(mass, ice, vapor, 3, i, j) == a - u3 * a) by (nonlinear_arith)
        requires
            u3 == 0 || u3 == 1,
            given(mass, ice, vapor, 3, i, j) == (if u3 == 1 {
                0
            } else {
                a
            }),
    ;
    assert(given(mass, ice, vapor, 4, i, j) == a - u4 * a) by (nonlinear_arith)
        requires
            u4 == 0 || u4 == 1,
            given(mass, ice, vapor, 4, i, j) == (if u4 == 1 {
                0
            } else {
                a
            }),
    ;
    assert(given(mass, ice, vapor, 5, i, j) == a - u5 * a) by (nonlinear_arith)
        requires
            u5 == 0 || u5 == 1,
            given(mass, ice, vapor, 5, i, j) == (if u5 == 1 {
                0
            } else {
                a
            }),
    ;
}

/// Diffusion keeps what there is: what it hands to its rule, added up over all
/// cells, is seven times the vapor of all cells, if no frozen cell holds vapor.
pub proof fn lemma_intake_balanced<T>(
    mass: spec_fn(T) -> int,
    ice: Seq<Seq<bool>>,
    vapor: Seq<Seq<T>>,
)
    requires
        is_square(ice, ice.len() as int),
        is_square(vapor, ice.len() as int),
        dry(mass, ice, vapor),
    ensures
        lattice_sum(|i: int, j: int| intake(mass, ice, vapor, i, j), ice.len() as int) == 7
            * mass_of(mass, vapor),
{
    let n = ice.len() as int;
    let own = |i: int, j: int| mass(vapor[i][j]);
    let seven = |i: int, j: int| 7 * own(i, j);
    let take = |i: int, j: int| intake(mass, ice, vapor, i, j);
    let g0 = |i: int, j: int| given(mass, ice, vapor, 0, i, j);
    let g1 = |i: int, j: int| given(mass, ice, vapor, 1, i, j);
    let g2 = |i: int, j: int| given(mass, ice, vapor, 2, i, j);
    let g3 = |i: int, j: int| given(mass, ice, vapor, 3, i, j);
    let g4 = |i: int, j: int| given(mass, ice, vapor, 4, i, j);
    let g5 = |i: int, j: int| given(mass, ice, vapor, 5, i, j);
    let t0 = |i: int, j: int| taken(mass, ice, vapor, 0, i, j);
    let t1 = |i: int, j: int| taken(mass, ice, vapor, 1, i, j);
    let t2 = |i: int, j: int| taken(mass, ice, vapor, 2, i, j);
    let t3 = |i: int, j: int| taken(mass, ice, vapor, 3, i, j);
    let t4 = |i: int, j: int| taken(mass, ice, vapor, 4, i, j);
    let t5 = |i: int, j: int| taken(mass, ice, vapor, 5, i, j);
    let left = |i: int, j: int|
        take(i, j) + g0(i, j) + g1(i, j) + g2(i, j) + g3(i, j) + g4(i, j) + g5(i, j);
    let right = |i: int, j: int|
        seven(i, j) + t0(i, j) + t1(i, j) + t2(i, j) + t3(i, j) + t4(i, j) + t5(i, j);
    assert forall|i: int, j: int| 0 <= i < n && 0 <= j < n implies #[trigger] left(i, j) == right(
        i,
        j,
    ) by {
        lemma_intake_at(mass, ice, vapor, i, j);
    }
    lemma_lattice_same(left, right, n);
    lemma_lattice_add7(take, g0, g1, g2, g3, g4, g5, left, n);
    lemma_lattice_add7(seven, t0, t1, t2, t3, t4, t5, right, n);
    lemma_lattice_sevenfold(own, seven, n);
    lemma_taken_is_given(mass, ice, vapor, 0);
    lemma_taken_is_given(mass, ice, vapor, 1);
    lemma_taken_is_given(mass, ice, vapor, 2);
    lemma_taken_is_given(mass, ice, vapor, 3);
    lemma_taken_is_given(mass, ice, vapor, 4);
    lemma_taken_is_given(mass, ice, vapor, 5);
    assert(lattice_sum(t0, n) == lattice_sum(g1, n));
    assert(lattice_sum(t1, n) == lattice_sum(g0, n));
    assert(lattice_sum(t2, n) == lattice_sum(g3, n));
    assert(lattice_sum(t3, n) == lattice_sum(g2, n));
    assert(lattice_sum(t4, n) == lattice_sum(g5, n));
    assert(lattice_sum(t5, n) == lattice_sum(g4, n));
}

impl<T, D, F, P, A, M, N> Rules<T, D, F, P, A, M, N> where
    D: Fn(T, Ring<T>, u8) -> T,
    F: Fn(T, T, T) -> (T, T),
    P: Fn(T, Ring<T>) -> Evidence,
    A: Fn(T, T) -> T,
    M: Fn(T, T, T) -> (T, T, T),
    N: Fn(T, bool) -> T,
    T: Copy,
 {
    /// The rules lose no mass and make none: nothing has no mass; diffusion gives a
    /// cell a seventh of what it is handed; freezing, attachment and melting give
    /// back as much as they are handed.
    pub open spec fn conserves(&self, mass: spec_fn(T) -> int) -> bool {
        &&& mass(self.zero) == 0
        &&& forall|own: T, around: Ring<T>, k: u8, out: T| #[trigger]
            call_ensures(self.diffuse, (own, around, k), out) ==> 7 * mass(out) == (1 + k) * mass(
                own,
            ) + ring_mass(mass, around)
        &&& forall|b: T, c: T, d: T, out: (T, T)| #[trigger]
            call_ensures(self.freeze, (b, c, d), out) ==> mass(out.0) + mass(out.1) == mass(b)
                + mass(c) + mass(d)
        &&& forall|b: T, c: T, out: T| #[trigger]
            call_ensures(self.attach, (b, c), out) ==> mass(out) == mass(b) + mass(c)
        &&& forall|b: T, c: T, d: T, out: (T, T, T)| #[trigger]
            call_ensures(self.melt, (b, c, d), out) ==> mass(out.0) + mass(out.1) + mass(out.2)
                == mass(b) + mass(c) + mass(d)
    }

    /// Diffusion keeps the mass of the vapor, if no frozen cell holds vapor.
    pub proof fn lemma_diffusion_conserves(
        &self,
        mass: spec_fn(T) -> int,
        ice: Seq<Seq<bool>>,
        vapor: Seq<Seq<T>>,
        out: Seq<Seq<T>>,
    )
        requires
            self.conserves(mass),
            is_square(ice, ice.len() as int),
            is_square(vapor, ice.len() as int),
            dry(mass, ice, vapor),
            self.diffused(ice, vapor, out),
        ensures
            mass_of(mass, out) == mass_of(mass, vapor),
    {
        let n = ice.len() as int;
        let new = |i: int, j: int| mass(out[i][j]);
        let seven = |i: int, j: int| 7 * new(i, j);
        let take = |i: int, j: int| intake(mass, ice, vapor, i, j);
        assert forall|i: int, j: int| 0 <= i < n && 0 <= j < n implies #[trigger] seven(i, j)
            == take(i, j) by {
            assert(self.diffusion_at(ice, vapor, i, j, out[i][j]));
            let k = neighbor_count(ice, i, j);
            assert(0 <= k <= 6);
            assert(k as u8 == k);
        }
        lemma_lattice_same(seven, take, n);
        lemma_lattice_sevenfold(new, seven, n);
        lemma_intake_balanced(mass, ice, vapor);
    }

    /// Freezing keeps the mass of every cell.
    pub proof fn lemma_freezing_conserves(
        &self,
        mass: spec_fn(T) -> int,
        ice: Seq<Seq<bool>>,
        boundary_mass: Seq<Seq<T>>,
        crystal_mass: Seq<Seq<T>>,
        vapor: Seq<Seq<T>>,
        out: (Seq<Seq<T>>, Seq<Seq<T>>, Seq<Seq<T>>),
    )
        requires
            self.conserves(mass),
            is_square(ice, ice.len() as int),
            is_square(boundary_mass, ice.len() as int),
            is_square(crystal_mass, ice.len() as int),
            is_square(vapor, ice.len() as int),
            self.settled(ice, boundary_mass, crystal_mass, vapor, out),
        ensures
            mass_of(mass, out.0) + mass_of(mass, out.1) + mass_of(mass, out.2) == mass_of(
                mass,
                boundary_mass,
            ) + mass_of(mass, crystal_mass) + mass_of(mass, vapor),
    {
        let n = ice.len() as int;
        let before = |i: int, j: int|
            mass(boundary_mass[i][j]) + mass(crystal_mass[i][j]) + mass(vapor[i][j]);
        let after = |i: int, j: int| mass(out.0[i][j]) + mass(out.1[i][j]) + mass(out.2[i][j]);
        assert forall|i: int, j: int| 0 <= i < n && 0 <= j < n implies #[trigger] before(i, j)
            == after(i, j) by {
            assert(self.freezing_at(
                ice,
                boundary_mass,
                crystal_mass,
                vapor,
                i,
                j,
                (out.0[i][j], out.1[i][j], out.2[i][j]),
            ));
        }
        lemma_lattice_same(before, after, n);
        lemma_lattice_add3(
            |i: int, j: int| mass(boundary_mass[i][j]),
            |i: int, j: int| mass(crystal_mass[i][j]),
            |i: int, j: int| mass(vapor[i][j]),
            before,
            n,
        );
        lemma_lattice_add3(
            |i: int, j: int| mass(out.0[i][j]),
            |i: int, j: int| mass(out.1[i][j]),
            |i: int, j: int| mass(out.2[i][j]),
            after,
            n,
        );
    }

    /// Attachment keeps the mass of every cell: it only moves boundary mass into the
    /// crystal.
    pub proof fn lemma_attachment_conserves(
        &self,
        mass: spec_fn(T) -> int,
        ice: Seq<Seq<bool>>,
        boundary_mass: Seq<Seq<T>>,
        crystal_mass: Seq<Seq<T>>,
        vapor: Seq<Seq<T>>,
        out: (Seq<Seq<bool>>, Seq<Seq<T>>, Seq<Seq<T>>),
    )
        requires
            self.conserves(mass),
            is_square(ice, ice.len() as int),
            is_square(boundary_mass, ice.len() as int),
            is_square(crystal_mass, ice.len() as int),
            self.attached(ice, boundary_mass, crystal_mass, vapor, out),
        ensures
            mass_of(mass, out.1) + mass_of(mass, out.2) == mass_of(mass, boundary_mass) + mass_of(
                mass,
                crystal_mass,
            ),
    {
        let n = ice.len() as int;
        let before = |i: int, j: int| mass(boundary_mass[i][j]) + mass(crystal_mass[i][j]);
        let after = |i: int, j: int| mass(out.1[i][j]) + mass(out.2[i][j]);
        assert forall|i: int, j: int| 0 <= i < n && 0 <= j < n implies #[trigger] before(i, j)
            == after(i, j) by {
            assert(self.attachment_at(
                ice,
                boundary_mass,
                crystal_mass,
                vapor,
                i,
                j,
                (out.0[i][j], out.1[i][j], out.2[i][j]),
            ));
        }
        lemma_lattice_same(before, after, n);
        lemma_lattice_add(
            |i: int, j: int| mass(boundary_mass[i][j]),
            |i: int, j: int| mass(crystal_mass[i][j]),
            before,
            n,
        );
        lemma_lattice_add(
            |i: int, j: int| mass(out.1[i][j]),
            |i: int, j: int| mass(out.2[i][j]),
            after,
            n,
        );
    }

    /// Melting keeps the mass of every cell.
    pub proof fn lemma_melting_conserves(
        &self,
        mass: spec_fn(T) -> int,
        ice: Seq<Seq<bool>>,
        boundary_mass: Seq<Seq<T>>,
        crystal_mass: Seq<Seq<T>>,
        vapor: Seq<Seq<T>>,
        out: (Seq<Seq<T>>, Seq<Seq<T>>, Seq<Seq<T>>),
    )
        requires
            self.conserves(mass),
            is_square(ice, ice.len() as int),
            is_square(boundary_mass, ice.len() as int),
            is_square(crystal_mass, ice.len() as int),
            is_square(vapor, ice.len() as int),
            self.melted(ice, boundary_mass, crystal_mass, vapor, out),
        ensures
            mass_of(mass, out.0) + mass_of(mass, out.1) + mass_of(mass, out.2) == mass_of(
                mass,
                boundary_mass,
            ) + mass_of(mass, crystal_mass) + mass_of(mass, vapor),
    {
        let n = ice.len() as int;
        let before = |i: int, j: int|
            mass(boundary_mass[i][j]) + mass(crystal_mass[i][j]) + mass(vapor[i][j]);
        let after = |i: int, j: int| mass(out.0[i][j]) + mass(out.1[i][j]) + mass(out.2[i][j]);
        assert forall|i: int, j: int| 0 <= i < n && 0 <= j < n implies #[trigger] before(i, j)
            == after(i, j) by {
            assert(self.melting_at(
                ice,
                boundary_mass,
                crystal_mass,
                vapor,
                i,
                j,
                (out.0[i][j], out.1[i][j], out.2[i][j]),
            ));
        }
        lemma_lattice_same(before, after, n);
        lemma_lattice_add3(
            |i: int, j: int| mass(boundary_mass[i][j]),
            |i: int, j: int| mass(crystal_mass[i][j]),
            |i: int, j: int| mass(vapor[i][j]),
            before,
            n,
        );
        lemma_lattice_add3(
            |i: int, j: int| mass(out.0[i][j]),
            |i: int, j: int| mass(out.1[i][j]),
            |i: int, j: int| mass(out.2[i][j]),
            after,
            n,
        );
    }

    /// Mass accounting: a step without noise keeps the mass of crystal and vapor
    /// together, if the rules lose none and make none and no frozen cell holds vapor
    /// when the step begins.
    pub proof fn lemma_step_conserves_mass(
        &self,
        mass: spec_fn(T) -> int,
        pre: Lattices<T>,
        post: Lattices<T>,
    )
        requires
            self.conserves(mass),
            pre.wf(),
            pre.dry_ice(self.zero),
            self.stepped(pre, post),
        ensures
            total_mass(mass, post) == total_mass(mass, pre),
    {
        let (d, s, a) = choose|
            d: Seq<Seq<T>>,
            s: (Seq<Seq<T>>, Seq<Seq<T>>, Seq<Seq<T>>),
            a: (Seq<Seq<T>>, Seq<Seq<T>>),
        | #[trigger] self.staged(pre, d, s, a, post);
        assert(dry(mass, pre.ice, pre.vapor)) by {
            assert forall|i: int, j: int|
                0 <= i < pre.ice.len() && 0 <= j < pre.ice.len() && pre.ice[i][j] implies mass(
                #[trigger] pre.vapor[i][j],
            ) == 0 by {}
        }
        self.lemma_diffusion_conserves(mass, pre.ice, pre.vapor, d);
        self.lemma_freezing_conserves(
            mass,
            pre.ice,
            pre.boundary_mass,
            pre.crystal_mass,
            d,
            s,
        );
        self.lemma_attachment_conserves(mass, pre.ice, s.0, s.1, s.2, (post.ice, a.0, a.1));
        self.lemma_melting_conserves(
            mass,
            post.ice,
            a.0,
            a.1,
            s.2,
            (post.boundary_mass, post.crystal_mass, post.vapor),
        );
    }

    /// Mass accounting over a run: after any number of steps without noise, crystal
    /// and vapor together hold the mass with which the run began, if the rules lose
    /// none and make none and no frozen cell held vapor at the beginning.
    pub proof fn lemma_run_conserves_mass(
        &self,
        mass: spec_fn(T) -> int,
        pre: Lattices<T>,
        post: Lattices<T>,
        steps: nat,
    )
        requires
            self.conserves(mass),
            pre.wf(),
            pre.dry_ice(self.zero),
            self.reaches(pre, post, steps),
        ensures
            post.wf(),
            post.dry_ice(self.zero),
            total_mass(mass, post) == total_mass(mass, pre),
        decreases steps,
    {
        if steps > 0 {
            let mid = choose|mid: Lattices<T>|
                self.reaches(pre, mid, (steps - 1) as nat) && #[trigger] self.stepped(mid, post);
            self.lemma_run_conserves_mass(mass, pre, mid, (steps - 1) as nat);
            let (d, s, a) = choose|
                d: Seq<Seq<T>>,
                s: (Seq<Seq<T>>, Seq<Seq<T>>, Seq<Seq<T>>),
                a: (Seq<Seq<T>>, Seq<Seq<T>>),
            | #[trigger] self.staged(mid, d, s, a, post);
            self.lemma_step_grows(mid, d, s, a, post);
            self.lemma_step_conserves_mass(mass, mid, post);
        }
    }
}

} // verus!
