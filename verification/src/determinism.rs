//! Determinism and growth: what holds of every step and of every run of the automaton
//! without noise.

use vstd::prelude::*;
use crate::grid::is_square;
use crate::lattice::Ring;
use crate::rules::{Evidence, Rules};
use crate::state::Lattices;

verus! {

/// Two square lattices of one size that agree in every cell are equal.
pub proof fn lemma_lattices_equal<T>(a: Seq<Seq<T>>, b: Seq<Seq<T>>, n: int)
    requires
        is_square(a, n),
        is_square(b, n),
        forall|i: int, j: int| 0 <= i < n && 0 <= j < n ==> a[i][j] == b[i][j],
    ensures
        a == b,
{
    assert forall|i: int| 0 <= i < n implies a[i] == b[i] by {
        assert(a[i].len() == n);
        assert(b[i].len() == n);
        assert forall|j: int| 0 <= j < n implies a[i][j] == b[i][j] by {}
        assert(a[i] =~= b[i]);
    }
    assert(a =~= b);
}

impl<T, D, F, P, A, M, N> Rules<T, D, F, P, A, M, N> where
    D: Fn(T, Ring<T>, u8) -> T,
    F: Fn(T, T, T) -> (T, T),
    P: Fn(T, Ring<T>) -> Evidence,
    A: Fn(T, T) -> T,
    M: Fn(T, T, T) -> (T, T, T),
    N: Fn(T, bool) -> T,
    T: Copy,
 {
    /// With rules that give one result for each input, diffusion has one outcome.
    pub proof fn lemma_diffusion_deterministic(
        &self,
        ice: Seq<Seq<bool>>,
        vapor: Seq<Seq<T>>,
        x: Seq<Seq<T>>,
        y: Seq<Seq<T>>,
    )
        requires
            self.functional(),
            self.diffused(ice, vapor, x),
            self.diffused(ice, vapor, y),
        ensures
            x == y,
    {
        let n = ice.len() as int;
        assert forall|i: int, j: int| 0 <= i < n && 0 <= j < n implies x[i][j] == y[i][j] by {
            assert(self.diffusion_at(ice, vapor, i, j, x[i][j]));
            assert(self.diffusion_at(ice, vapor, i, j, y[i][j]));
        }
        lemma_lattices_equal(x, y, n);
    }

    /// With rules that give one result for each input, freezing has one outcome.
    pub proof fn lemma_freezing_deterministic(
        &self,
        ice: Seq<Seq<bool>>,
        boundary_mass: Seq<Seq<T>>,
        crystal_mass: Seq<Seq<T>>,
        vapor: Seq<Seq<T>>,
        x: (Seq<Seq<T>>, Seq<Seq<T>>, Seq<Seq<T>>),
        y: (Seq<Seq<T>>, Seq<Seq<T>>, Seq<Seq<T>>),
    )
        requires
            self.functional(),
            self.settled(ice, boundary_mass, crystal_mass, vapor, x),
            self.settled(ice, boundary_mass, crystal_mass, vapor, y),
        ensures
            x == y,
    {
        let n = ice.len() as int;
        assert forall|i: int, j: int| 0 <= i < n && 0 <= j < n implies #[trigger] x.0[i][j]
            == y.0[i][j] by {
            assert(self.freezing_at(
                ice,
                boundary_mass,
                crystal_mass,
                vapor,
                i,
                j,
                (x.0[i][j], x.1[i][j], x.2[i][j]),
            ));
            assert(self.freezing_at(
                ice,
                boundary_mass,
                crystal_mass,
                vapor,
                i,
                j,
                (y.0[i][j], y.1[i][j], y.2[i][j]),
            ));
        }
        assert forall|i: int, j: int| 0 <= i < n && 0 <= j < n implies #[trigger] x.1[i][j]
            == y.1[i][j] by {
            assert(self.freezing_at(
                ice,
                boundary_mass,
                crystal_mass,
                vapor,
                i,
                j,
                (x.0[i][j], x.1[i][j], x.2[i][j]),
            ));
            assert(self.freezing_at(
                ice,
                boundary_mass,
                crystal_mass,
                vapor,
                i,
                j,
                (y.0[i][j], y.1[i][j], y.2[i][j]),
            ));
        }
        assert forall|i: int, j: int| 0 <= i < n && 0 <= j < n implies #[trigger] x.2[i][j]
            == y.2[i][j] by {
            assert(self.freezing_at(
                ice,
                boundary_mass,
                crystal_mass,
                vapor,
                i,
                j,
                (x.0[i][j], x.1[i][j], x.2[i][j]),
            ));
            assert(self.freezing_at(
                ice,
                boundary_mass,
                crystal_mass,
                vapor,
                i,
                j,
                (y.0[i][j], y.1[i][j], y.2[i][j]),
            ));
        }
        lemma_lattices_equal(x.0, y.0, n);
        lemma_lattices_equal(x.1, y.1, n);
        lemma_lattices_equal(x.2, y.2, n);
    }

    /// With rules that give one result for each input, attachment has one outcome.
    pub proof fn lemma_attachment_deterministic(
        &self,
        ice: Seq<Seq<bool>>,
        boundary_mass: Seq<Seq<T>>,
        crystal_mass: Seq<Seq<T>>,
        vapor: Seq<Seq<T>>,
        x: (Seq<Seq<bool>>, Seq<Seq<T>>, Seq<Seq<T>>),
        y: (Seq<Seq<bool>>, Seq<Seq<T>>, Seq<Seq<T>>),
    )
        requires
            self.functional(),
            self.attached(ice, boundary_mass, crystal_mass, vapor, x),
            self.attached(ice, boundary_mass, crystal_mass, vapor, y),
        ensures
            x == y,
    {
        let n = ice.len() as int;
        assert forall|i: int, j: int| 0 <= i < n && 0 <= j < n implies #[trigger] x.0[i][j]
            == y.0[i][j] by {
            assert(self.attachment_at(
                ice,
                boundary_mass,
                crystal_mass,
                vapor,
                i,
                j,
                (x.0[i][j], x.1[i][j], x.2[i][j]),
            ));
            assert(self.attachment_at(
                ice,
                boundary_mass,
                crystal_mass,
                vapor,
                i,
                j,
                (y.0[i][j], y.1[i][j], y.2[i][j]),
            ));
        }
        assert forall|i: int, j: int| 0 <= i < n && 0 <= j < n implies #[trigger] x.1[i][j]
            == y.1[i][j] by {
            assert(self.attachment_at(
                ice,
                boundary_mass,
                crystal_mass,
                vapor,
                i,
                j,
                (x.0[i][j], x.1[i][j], x.2[i][j]),
            ));
            assert(self.attachment_at(
                ice,
                boundary_mass,
                crystal_mass,
                vapor,
                i,
                j,
                (y.0[i][j], y.1[i][j], y.2[i][j]),
            ));
        }
        assert forall|i: int, j: int| 0 <= i < n && 0 <= j < n implies #[trigger] x.2[i][j]
            == y.2[i][j] by {
            assert(self.attachment_at(
                ice,
                boundary_mass,
                crystal_mass,
                vapor,
                i,
                j,
                (x.0[i][j], x.1[i][j], x.2[i][j]),
            ));
            assert(self.attachment_at(
                ice,
                boundary_mass,
                crystal_mass,
                vapor,
                i,
                j,
                (y.0[i][j], y.1[i][j], y.2[i][j]),
            ));
        }
        lemma_lattices_equal(x.0, y.0, n);
        lemma_lattices_equal(x.1, y.1, n);
        lemma_lattices_equal(x.2, y.2, n);
    }

    /// With rules that give one result for each input, melting has one outcome.
    pub proof fn lemma_melting_deterministic(
        &self,
        ice: Seq<Seq<bool>>,
        boundary_mass: Seq<Seq<T>>,
        crystal_mass: Seq<Seq<T>>,
        vapor: Seq<Seq<T>>,
        x: (Seq<Seq<T>>, Seq<Seq<T>>, Seq<Seq<T>>),
        y: (Seq<Seq<T>>, Seq<Seq<T>>, Seq<Seq<T>>),
    )
        requires
            self.functional(),
            self.melted(ice, boundary_mass, crystal_mass, vapor, x),
            self.melted(ice, boundary_mass, crystal_mass, vapor, y),
        ensures
            x == y,
    {
        let n = ice.len() as int;
        assert forall|i: int, j: int| 0 <= i < n && 0 <= j < n implies #[trigger] x.0[i][j]
            == y.0[i][j] by {
            assert(self.melting_at(
                ice,
                boundary_mass,
                crystal_mass,
                vapor,
                i,
                j,
                (x.0[i][j], x.1[i][j], x.2[i][j]),
            ));
            assert(self.melting_at(
                ice,
                boundary_mass,
                crystal_mass,
                vapor,
                i,
                j,
                (y.0[i][j], y.1[i][j], y.2[i][j]),
            ));
        }
        assert forall|i: int, j: int| 0 <= i < n && 0 <= j < n implies #[trigger] x.1[i][j]
            == y.1[i][j] by {
            assert(self.melting_at(
                ice,
                boundary_mass,
                crystal_mass,
                vapor,
                i,
                j,
                (x.0[i][j], x.1[i][j], x.2[i][j]),
            ));
            assert(self.melting_at(
                ice,
                boundary_mass,
                crystal_mass,
                vapor,
                i,
                j,
                (y.0[i][j], y.1[i][j], y.2[i][j]),
            ));
        }
        assert forall|i: int, j: int| 0 <= i < n && 0 <= j < n implies #[trigger] x.2[i][j]
            == y.2[i][j] by {
            assert(self.melting_at(
                ice,
                boundary_mass,
                crystal_mass,
                vapor,
                i,
                j,
                (x.0[i][j], x.1[i][j], x.2[i][j]),
            ));
            assert(self.melting_at(
                ice,
                boundary_mass,
                crystal_mass,
                vapor,
                i,
                j,
                (y.0[i][j], y.1[i][j], y.2[i][j]),
            ));
        }
        lemma_lattices_equal(x.0, y.0, n);
        lemma_lattices_equal(x.1, y.1, n);
        lemma_lattices_equal(x.2, y.2, n);
    }

    /// Determinism: with rules that give one result for each input, a step without
    /// noise leads from one state to one state.
    pub proof fn lemma_step_deterministic(
        &self,
        pre: Lattices<T>,
        first: Lattices<T>,
        second: Lattices<T>,
    )
        requires
            self.functional(),
            self.stepped(pre, first),
            self.stepped(pre, second),
        ensures
            first == second,
    {
        let (d1, s1, a1) = choose|
            d: Seq<Seq<T>>,
            s: (Seq<Seq<T>>, Seq<Seq<T>>, Seq<Seq<T>>),
            a: (Seq<Seq<T>>, Seq<Seq<T>>),
        | #[trigger] self.staged(pre, d, s, a, first);
        let (d2, s2, a2) = choose|
            d: Seq<Seq<T>>,
            s: (Seq<Seq<T>>, Seq<Seq<T>>, Seq<Seq<T>>),
            a: (Seq<Seq<T>>, Seq<Seq<T>>),
        | #[trigger] self.staged(pre, d, s, a, second);
        self.lemma_diffusion_deterministic(pre.ice, pre.vapor, d1, d2);
        self.lemma_freezing_deterministic(
            pre.ice,
            pre.boundary_mass,
            pre.crystal_mass,
            d1,
            s1,
            s2,
        );
        self.lemma_attachment_deterministic(
            pre.ice,
            s1.0,
            s1.1,
            s1.2,
            (first.ice, a1.0, a1.1),
            (second.ice, a2.0, a2.1),
        );
        self.lemma_melting_deterministic(
            first.ice,
            a1.0,
            a1.1,
            s1.2,
            (first.boundary_mass, first.crystal_mass, first.vapor),
            (second.boundary_mass, second.crystal_mass, second.vapor),
        );
    }

    /// Determinism over a run: with rules that give one result for each input, a
    /// given number of steps without noise leads from one state to one state.
    pub proof fn lemma_run_deterministic(
        &self,
        pre: Lattices<T>,
        first: Lattices<T>,
        second: Lattices<T>,
        steps: nat,
    )
        requires
            self.functional(),
            self.reaches(pre, first, steps),
            self.reaches(pre, second, steps),
        ensures
            first == second,
        decreases steps,
    {
        if steps > 0 {
            let before_first = choose|mid: Lattices<T>|
                self.reaches(pre, mid, (steps - 1) as nat) && #[trigger] self.stepped(mid, first);
            let before_second = choose|mid: Lattices<T>|
                self.reaches(pre, mid, (steps - 1) as nat) && #[trigger] self.stepped(
                    mid,
                    second,
                );
            self.lemma_run_deterministic(pre, before_first, before_second, (steps - 1) as nat);
            self.lemma_step_deterministic(before_first, first, second);
        }
    }

    /// Ice only grows: whatever was frozen when a run began is frozen after any
    /// number of steps without noise.
    pub proof fn lemma_run_grows(&self, pre: Lattices<T>, post: Lattices<T>, steps: nat)
        requires
            pre.wf(),
            self.reaches(pre, post, steps),
        ensures
            post.wf(),
            post.side() == pre.side(),
            forall|i: int, j: int|
                0 <= i < pre.side() && 0 <= j < pre.side() && pre.ice[i][j]
                    ==> #[trigger] post.ice[i][j],
        decreases steps,
    {
        if steps > 0 {
            let mid = choose|mid: Lattices<T>|
                self.reaches(pre, mid, (steps - 1) as nat) && #[trigger] self.stepped(mid, post);
            self.lemma_run_grows(pre, mid, (steps - 1) as nat);
            let (d, s, a) = choose|
                d: Seq<Seq<T>>,
                s: (Seq<Seq<T>>, Seq<Seq<T>>, Seq<Seq<T>>),
                a: (Seq<Seq<T>>, Seq<Seq<T>>),
            | #[trigger] self.staged(mid, d, s, a, post);
            self.lemma_step_grows(mid, d, s, a, post);
            assert forall|i: int, j: int|
                0 <= i < pre.side() && 0 <= j < pre.side() && pre.ice[i][j] implies #[trigger] post.ice[i][j] by {
                assert(mid.ice[i][j]);
            }
        }
    }
}

} // verus!
