//! The state of the automaton and its step.

use vstd::prelude::*;
use crate::layer::Layer;
use crate::grid::{fits, is_square, Mask};
use crate::lattice::Ring;
use crate::neighbors::{neighbor_count, neighbor_counts};
use crate::noise::toss;
use crate::rules::{Evidence, Rules};
use ndarray_rand::rand::rngs::StdRng;

verus! {

/// The lattices of a crystal: which cells are frozen, and the three quantities that
/// every cell holds.
pub struct State<T> {
    /// The cells that have joined the crystal.
    pub ice: Mask,
    /// Quasi-liquid mass at the boundary, not yet part of the crystal.
    pub boundary_mass: Layer<T>,
    /// Mass that is part of the crystal.
    pub crystal_mass: Layer<T>,
    /// Density of the vapor that diffuses around the crystal.
    pub vapor: Layer<T>,
}

/// The mathematical content of a [`State`].
pub struct Lattices<T> {
    pub ice: Seq<Seq<bool>>,
    pub boundary_mass: Seq<Seq<T>>,
    pub crystal_mass: Seq<Seq<T>>,
    pub vapor: Seq<Seq<T>>,
}

impl<T> Lattices<T> {
    /// The side of the lattice.
    pub open spec fn side(self) -> int {
        self.ice.len() as int
    }

    /// The four lattices are square and of one size.
    pub open spec fn wf(self) -> bool {
        &&& is_square(self.ice, self.side())
        &&& is_square(self.boundary_mass, self.side())
        &&& is_square(self.crystal_mass, self.side())
        &&& is_square(self.vapor, self.side())
    }

    /// No frozen cell holds vapor.
    pub open spec fn dry_ice(self, zero: T) -> bool {
        forall|i: int, j: int|
            0 <= i < self.side() && 0 <= j < self.side() && self.ice[i][j] ==> (
            #[trigger] self.vapor[i][j]) == zero
    }
}

/// The crystal at step zero on a lattice of side `n`: the centre cell is frozen and
/// holds the seed's crystal mass and no vapor; every other cell holds vapor of
/// density `rho` and nothing else.
pub open spec fn seed<T>(n: int, zero: T, rho: T, seed_mass: T) -> Lattices<T> {
    Lattices {
        ice: Seq::new(n as nat, |i: int| Seq::new(n as nat, |j: int| i == n / 2 && j == n / 2)),
        boundary_mass: Seq::new(n as nat, |i: int| Seq::new(n as nat, |j: int| zero)),
        crystal_mass: Seq::new(
            n as nat,
            |i: int|
                Seq::new(
                    n as nat,
                    |j: int|
                        if i == n / 2 && j == n / 2 {
                            seed_mass
                        } else {
                            zero
                        },
                ),
        ),
        vapor: Seq::new(
            n as nat,
            |i: int|
                Seq::new(
                    n as nat,
                    |j: int|
                        if i == n / 2 && j == n / 2 {
                            zero
                        } else {
                            rho
                        },
                ),
        ),
    }
}

/// The picture of a crystal: the crystal mass of its frozen cells, and `zero`
/// elsewhere.
pub open spec fn picture<T>(s: Lattices<T>, zero: T) -> Seq<Seq<T>> {
    Seq::new(
        s.ice.len(),
        |i: int|
            Seq::new(
                s.ice.len(),
                |j: int|
                    if s.ice[i][j] {
                        s.crystal_mass[i][j]
                    } else {
                        zero
                    },
            ),
    )
}

impl<T> View for State<T> {
    type V = Lattices<T>;

    open spec fn view(&self) -> Lattices<T> {
        Lattices {
            ice: self.ice@,
            boundary_mass: self.boundary_mass@,
            crystal_mass: self.crystal_mass@,
            vapor: self.vapor@,
        }
    }
}

impl<T, D, F, P, A, M, N> Rules<T, D, F, P, A, M, N> where
    D: Fn(T, Ring<T>, u8) -> T,
    F: Fn(T, T, T) -> (T, T),
    P: Fn(T, Ring<T>) -> Evidence,
    A: Fn(T, T) -> T,
    M: Fn(T, T, T) -> (T, T, T),
    N: Fn(T, bool) -> T,
    T: Copy,
 {
    /// `post` follows from `pre` by the four stages, with the given lattices in
    /// between: the vapor after diffusion, the three quantities after freezing, and
    /// boundary mass and crystal mass after attachment. Neighbours are counted once,
    /// on the frozen cells of `pre`; melting looks at the frozen cells of `post`.
    pub open spec fn staged(
        &self,
        pre: Lattices<T>,
        diffused: Seq<Seq<T>>,
        settled: (Seq<Seq<T>>, Seq<Seq<T>>, Seq<Seq<T>>),
        attached: (Seq<Seq<T>>, Seq<Seq<T>>),
        post: Lattices<T>,
    ) -> bool {
        &&& self.diffused(pre.ice, pre.vapor, diffused)
        &&& self.settled(pre.ice, pre.boundary_mass, pre.crystal_mass, diffused, settled)
        &&& self.attached(
            pre.ice,
            settled.0,
            settled.1,
            settled.2,
            (post.ice, attached.0, attached.1),
        )
        &&& self.melted(
            post.ice,
            attached.0,
            attached.1,
            settled.2,
            (post.boundary_mass, post.crystal_mass, post.vapor),
        )
    }

    /// `post` is a state that one step can lead to from `pre`.
    pub open spec fn stepped(&self, pre: Lattices<T>, post: Lattices<T>) -> bool {
        exists|
            diffused: Seq<Seq<T>>,
            settled: (Seq<Seq<T>>, Seq<Seq<T>>, Seq<Seq<T>>),
            attached: (Seq<Seq<T>>, Seq<Seq<T>>),
        | #[trigger] self.staged(pre, diffused, settled, attached, post)
    }

    /// `post` can be reached from `pre` in `steps` steps without noise.
    pub open spec fn reaches(&self, pre: Lattices<T>, post: Lattices<T>, steps: nat) -> bool
        decreases steps,
    {
        if steps == 0 {
            post == pre
        } else {
            exists|mid: Lattices<T>|
                self.reaches(pre, mid, (steps - 1) as nat) && #[trigger] self.stepped(mid, post)
        }
    }

    /// `post` differs from `calm` by noise alone: the vapor of every cell went
    /// through the noise rule with that cell's coin, and nothing else changed.
    pub open spec fn shaken(
        &self,
        calm: Lattices<T>,
        coins: Seq<Seq<bool>>,
        post: Lattices<T>,
    ) -> bool {
        &&& is_square(coins, calm.side())
        &&& post.ice == calm.ice
        &&& post.boundary_mass == calm.boundary_mass
        &&& post.crystal_mass == calm.crystal_mass
        &&& self.perturbed(calm.vapor, coins, post.vapor)
    }

    /// `post` is a state that one step with noise can lead to from `pre`: the four
    /// stages, then noise with some toss of the coins.
    pub open spec fn stepped_with_noise(&self, pre: Lattices<T>, post: Lattices<T>) -> bool {
        exists|calm: Lattices<T>, coins: Seq<Seq<bool>>|
            self.stepped(pre, calm) && #[trigger] self.shaken(calm, coins, post)
    }

    /// The noise rule leaves a cell without vapor without vapor.
    pub open spec fn noise_keeps_zero(&self) -> bool {
        forall|heads: bool, x: T| #[trigger]
            call_ensures(self.perturb, (self.zero, heads), x) ==> x == self.zero
    }
}

impl<T: Copy> State<T> {
    /// The lattices are square, of one size, and small enough to be stored.
    pub open spec fn wf(&self) -> bool {
        &&& self@.wf()
        &&& fits(self@.side(), self@.side())
    }

    /// The crystal at step zero: see [`seed`].
    pub fn new(n: usize, zero: T, rho: T, seed_mass: T) -> (s: State<T>)
        requires
            n > 0,
            fits(n as int, n as int),
        ensures
            s.wf(),
            s@ == seed(n as int, zero, rho, seed_mass),
    {
        let centre = n / 2;
        let mut ice = Mask::new(n, n);
        ice.set(centre, centre, true);
        let boundary_mass = Layer::filled(n, n, zero);
        let mut crystal_mass = Layer::filled(n, n, zero);
        crystal_mass.set(centre, centre, seed_mass);
        let mut vapor = Layer::filled(n, n, rho);
        vapor.set(centre, centre, zero);
        let s = State { ice, boundary_mass, crystal_mass, vapor };
        proof {
            let want = seed(n as int, zero, rho, seed_mass);
            assert forall|i: int| 0 <= i < n implies #[trigger] s@.ice[i] == want.ice[i] by {
                assert(s@.ice[i] =~= want.ice[i]);
            }
            assert(s@.ice =~= want.ice);
            assert forall|i: int| 0 <= i < n implies #[trigger] s@.boundary_mass[i]
                == want.boundary_mass[i] by {
                assert(s@.boundary_mass[i] =~= want.boundary_mass[i]);
            }
            assert(s@.boundary_mass =~= want.boundary_mass);
            assert forall|i: int| 0 <= i < n implies #[trigger] s@.crystal_mass[i]
                == want.crystal_mass[i] by {
                assert(s@.crystal_mass[i] =~= want.crystal_mass[i]);
            }
            assert(s@.crystal_mass =~= want.crystal_mass);
            assert forall|i: int| 0 <= i < n implies #[trigger] s@.vapor[i] == want.vapor[i] by {
                assert(s@.vapor[i] =~= want.vapor[i]);
            }
            assert(s@.vapor =~= want.vapor);
        }
        s
    }

    /// What a renderer shows: see [`picture`].
    pub fn snapshot(&self, zero: T) -> (out: Layer<T>)
        requires
            self.wf(),
        ensures
            out@ == picture(self@, zero),
    {
        let n = self.ice.nrows();
        let mut rows: Vec<Vec<T>> = Vec::new();
        let mut i: usize = 0;
        while i < n
            invariant
                i <= n,
                n == self@.side(),
                self.wf(),
                rows.len() == i,
                forall|a: int| 0 <= a < i ==> (#[trigger] rows[a]).len() == n,
                forall|a: int, b: int|
                    0 <= a < i && 0 <= b < n ==> (#[trigger] rows[a][b]) == (if self@.ice[a][b] {
                        self@.crystal_mass[a][b]
                    } else {
                        zero
                    }),
            decreases n - i,
        {
            let mut row: Vec<T> = Vec::new();
            let mut j: usize = 0;
            while j < n
                invariant
                    i < n,
                    j <= n,
                    n == self@.side(),
                    self.wf(),
                    row.len() == j,
                    forall|b: int|
                        0 <= b < j ==> (#[trigger] row[b]) == (if self@.ice[i as int][b] {
                            self@.crystal_mass[i as int][b]
                        } else {
                            zero
                        }),
                decreases n - j,
            {
                let value = if self.ice.get(i, j) {
                    self.crystal_mass.get(i, j)
                } else {
                    zero
                };
                row.push(value);
                j = j + 1;
            }
            rows.push(row);
            i = i + 1;
        }
        let out = Layer { rows };
        proof {
            let want = picture(self@, zero);
            assert forall|a: int| 0 <= a < n implies #[trigger] out@[a] == want[a] by {
                assert(out@[a] =~= want[a]);
            }
            assert(out@ =~= want);
        }
        out
    }

    /// One step of the automaton without noise: neighbours are counted on the frozen
    /// cells as they stand, then diffusion, freezing, attachment and melting follow,
    /// each on the complete result of the stage before.
    ///
    /// Frozen cells stay frozen, a cell freezes only if it had a frozen neighbour
    /// when the step began, and afterwards no frozen cell holds vapor.
    pub fn update<D, F, P, A, M, N>(&mut self, rules: &Rules<T, D, F, P, A, M, N>) where
        D: Fn(T, Ring<T>, u8) -> T,
        F: Fn(T, T, T) -> (T, T),
        P: Fn(T, Ring<T>) -> Evidence,
        A: Fn(T, T) -> T,
        M: Fn(T, T, T) -> (T, T, T),
        N: Fn(T, bool) -> T,

        requires
            old(self).wf(),
            rules.total(),
        ensures
            final(self).wf(),
            final(self)@.side() == old(self)@.side(),
            rules.stepped(old(self)@, final(self)@),
            forall|i: int, j: int|
                0 <= i < old(self)@.side() && 0 <= j < old(self)@.side() && old(self)@.ice[i][j]
                    ==> #[trigger] final(self)@.ice[i][j],
            forall|i: int, j: int|
                0 <= i < old(self)@.side() && 0 <= j < old(self)@.side()
                    && #[trigger] final(self)@.ice[i][j] && !old(self)@.ice[i][j]
                    ==> neighbor_count(old(self)@.ice, i, j) > 0,
            final(self)@.dry_ice(rules.zero),
    {
        let counts = neighbor_counts(&self.ice);
        let diffused = rules.diffusion(&self.ice, &counts, &self.vapor);
        let settled = rules.freezing(
            &self.ice,
            &counts,
            &self.boundary_mass,
            &self.crystal_mass,
            &diffused,
        );
        let attached = rules.attachment(&self.ice, &counts, &settled.0, &settled.1, &settled.2);
        let melted = rules.melting(&attached.0, &attached.1, &attached.2, &settled.2);
        proof {
            let pre = self@;
            let post = Lattices {
                ice: attached.0@,
                boundary_mass: melted.0@,
                crystal_mass: melted.1@,
                vapor: melted.2@,
            };
            assert(rules.staged(
                pre,
                diffused@,
                (settled.0@, settled.1@, settled.2@),
                (attached.1@, attached.2@),
                post,
            ));
            rules.lemma_step_grows(
                pre,
                diffused@,
                (settled.0@, settled.1@, settled.2@),
                (attached.1@, attached.2@),
                post,
            );
        }
        self.ice = attached.0;
        self.boundary_mass = melted.0;
        self.crystal_mass = melted.1;
        self.vapor = melted.2;
    }

    /// One step of the automaton with noise: the four stages of [`State::update`],
    /// then one coin from `rng` for every cell, and the noise rule on every cell's
    /// vapor.
    ///
    /// Frozen cells stay frozen, and a cell freezes only if it had a frozen neighbour
    /// when the step began. Frozen cells are still without vapor afterwards if the
    /// noise rule turns no vapor into no vapor.
    pub fn update_with_noise<D, F, P, A, M, N>(
        &mut self,
        rules: &Rules<T, D, F, P, A, M, N>,
        rng: &mut StdRng,
    ) where
        D: Fn(T, Ring<T>, u8) -> T,
        F: Fn(T, T, T) -> (T, T),
        P: Fn(T, Ring<T>) -> Evidence,
        A: Fn(T, T) -> T,
        M: Fn(T, T, T) -> (T, T, T),
        N: Fn(T, bool) -> T,

        requires
            old(self).wf(),
            rules.total(),
        ensures
            final(self).wf(),
            final(self)@.side() == old(self)@.side(),
            rules.stepped_with_noise(old(self)@, final(self)@),
            forall|i: int, j: int|
                0 <= i < old(self)@.side() && 0 <= j < old(self)@.side() && old(self)@.ice[i][j]
                    ==> #[trigger] final(self)@.ice[i][j],
            forall|i: int, j: int|
                0 <= i < old(self)@.side() && 0 <= j < old(self)@.side()
                    && #[trigger] final(self)@.ice[i][j] && !old(self)@.ice[i][j]
                    ==> neighbor_count(old(self)@.ice, i, j) > 0,
            rules.noise_keeps_zero() ==> final(self)@.dry_ice(rules.zero),
    {
        self.update(rules);
        let ghost calm = self@;
        let n = self.ice.nrows();
        let coins = toss(rng, n, n);
        let vapor = rules.noise(&self.vapor, &coins);
        self.vapor = vapor;
        proof {
            assert(rules.shaken(calm, coins@, self@));
            if rules.noise_keeps_zero() {
                assert forall|i: int, j: int|
                    0 <= i < n && 0 <= j < n && self@.ice[i][j] implies (
                #[trigger] self@.vapor[i][j]) == rules.zero by {
                    assert(calm.vapor[i][j] == rules.zero);
                    assert(call_ensures(
                        rules.perturb,
                        (calm.vapor[i][j], coins@[i][j]),
                        self@.vapor[i][j],
                    ));
                }
            }
        }
    }
}

impl<T, D, F, P, A, M, N> Rules<T, D, F, P, A, M, N> where
    D: Fn(T, Ring<T>, u8) -> T,
    F: Fn(T, T, T) -> (T, T),
    P: Fn(T, Ring<T>) -> Evidence,
    A: Fn(T, T) -> T,
    M: Fn(T, T, T) -> (T, T, T),
    N: Fn(T, bool) -> T,
    T: Copy,
 {
    /// A step keeps every frozen cell frozen, freezes only cells that had a frozen
    /// neighbour before it, and leaves no vapor in a frozen cell.
    pub proof fn lemma_step_grows(
        &self,
        pre: Lattices<T>,
        diffused: Seq<Seq<T>>,
        settled: (Seq<Seq<T>>, Seq<Seq<T>>, Seq<Seq<T>>),
        attached: (Seq<Seq<T>>, Seq<Seq<T>>),
        post: Lattices<T>,
    )
        requires
            pre.wf(),
            self.staged(pre, diffused, settled, attached, post),
        ensures
            post.wf(),
            post.side() == pre.side(),
            forall|i: int, j: int|
                0 <= i < pre.side() && 0 <= j < pre.side() && pre.ice[i][j]
                    ==> #[trigger] post.ice[i][j],
            forall|i: int, j: int|
                0 <= i < pre.side() && 0 <= j < pre.side() && #[trigger] post.ice[i][j]
                    && !pre.ice[i][j] ==> neighbor_count(pre.ice, i, j) > 0,
            post.dry_ice(self.zero),
    {
        let n = pre.side();
        assert forall|i: int, j: int| 0 <= i < n && 0 <= j < n implies (pre.ice[i][j]
            ==> #[trigger] post.ice[i][j]) && (post.ice[i][j] && !pre.ice[i][j] ==> neighbor_count(
            pre.ice,
            i,
            j,
        ) > 0) && (post.ice[i][j] ==> post.vapor[i][j] == self.zero) by {
            assert(self.diffusion_at(pre.ice, pre.vapor, i, j, diffused[i][j]));
            assert(self.freezing_at(
                pre.ice,
                pre.boundary_mass,
                pre.crystal_mass,
                diffused,
                i,
                j,
                (settled.0[i][j], settled.1[i][j], settled.2[i][j]),
            ));
            assert(self.attachment_at(
                pre.ice,
                settled.0,
                settled.1,
                settled.2,
                i,
                j,
                (post.ice[i][j], attached.0[i][j], attached.1[i][j]),
            ));
            assert(self.melting_at(
                post.ice,
                attached.0,
                attached.1,
                settled.2,
                i,
                j,
                (post.boundary_mass[i][j], post.crystal_mass[i][j], post.vapor[i][j]),
            ));
        }
    }
}

} // verus!
