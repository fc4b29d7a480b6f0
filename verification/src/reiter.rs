//! Reiter's model of crystal growth: one quantity per cell, which counts as frozen
//! once it has reached a threshold.
//!
//! A cell is receptive when it is frozen or has a frozen neighbour. In a step the
//! water of the receptive cells stays where it is and the water of all other cells
//! diffuses; what becomes of a cell's water is up to the caller's rule.

use vstd::prelude::*;
use crate::layer::Layer;
use crate::grid::{fits, is_square, Mask};
use crate::lattice::{ring_at, Ring};
use crate::neighbors::{count_at, neighbor_count};

verus! {

/// The arithmetic of Reiter's model, supplied by the caller.
pub struct ReiterRules<T, G, R> {
    /// The quantity that stands for "nothing": the diffusing water of a receptive
    /// cell.
    pub zero: T,
    /// Whether a cell with this much water is frozen.
    pub is_ice: G,
    /// From whether a cell is receptive, its water, and the diffusing water around
    /// it, to its water after the step.
    pub renew: R,
}

/// The lattice at step zero: water `beta` everywhere but at the centre, which holds
/// `seed`.
pub open spec fn initial<T>(n: int, beta: T, seed: T) -> Seq<Seq<T>> {
    Seq::new(
        n as nat,
        |i: int|
            Seq::new(
                n as nat,
                |j: int|
                    if i == n / 2 && j == n / 2 {
                        seed
                    } else {
                        beta
                    },
            ),
    )
}

/// The lattice at step zero: see [`initial`].
pub fn init_grid<T: Copy>(n: usize, beta: T, seed: T) -> (s: Layer<T>)
    requires
        n > 0,
    ensures
        s@ == initial(n as int, beta, seed),
{
    let mut s = Layer::filled(n, n, beta);
    s.set(n / 2, n / 2, seed);
    proof {
        let want = initial(n as int, beta, seed);
        assert forall|i: int| 0 <= i < n implies #[trigger] s@[i] == want[i] by {
            assert(s@[i] =~= want[i]);
        }
        assert(s@ =~= want);
    }
    s
}

/// Cell `(i, j)` is receptive: frozen, or next to a frozen cell.
pub open spec fn receptive(ice: Seq<Seq<bool>>, i: int, j: int) -> bool {
    ice[i][j] || neighbor_count(ice, i, j) > 0
}

/// The water that diffuses: none in receptive cells, all of it elsewhere.
pub open spec fn diffusing<T>(ice: Seq<Seq<bool>>, zero: T, s: Seq<Seq<T>>) -> Seq<Seq<T>> {
    Seq::new(
        s.len(),
        |i: int|
            Seq::new(
                s.len(),
                |j: int|
                    if receptive(ice, i, j) {
                        zero
                    } else {
                        s[i][j]
                    },
            ),
    )
}

impl<T: Copy, G, R> ReiterRules<T, G, R> where
    G: Fn(T) -> bool,
    R: Fn(bool, T, Ring<T>) -> T,
 {
    /// Both rules accept every input.
    pub open spec fn total(&self) -> bool {
        &&& forall|s: T| call_requires(self.is_ice, (s,))
        &&& forall|r: bool, s: T, around: Ring<T>| call_requires(self.renew, (r, s, around))
    }

    /// `ice` marks the cells of `s` that the rule finds frozen.
    pub open spec fn frozen(&self, s: Seq<Seq<T>>, ice: Seq<Seq<bool>>) -> bool {
        &&& is_square(ice, s.len() as int)
        &&& forall|i: int, j: int|
            0 <= i < s.len() && 0 <= j < s.len() ==> call_ensures(
                self.is_ice,
                (s[i][j],),
                #[trigger] ice[i][j],
            )
    }

    /// `out` follows from `s` by one step, where `ice` are the frozen cells of `s`:
    /// every cell's water is what the rule makes of whether the cell is receptive,
    /// of its water, and of the diffusing water around it.
    pub open spec fn renewed(
        &self,
        s: Seq<Seq<T>>,
        ice: Seq<Seq<bool>>,
        out: Seq<Seq<T>>,
    ) -> bool {
        &&& is_square(out, s.len() as int)
        &&& forall|i: int, j: int|
            0 <= i < s.len() && 0 <= j < s.len() ==> call_ensures(
                self.renew,
                (receptive(ice, i, j), s[i][j], ring_at(diffusing(ice, self.zero, s), i, j)),
                #[trigger] out[i][j],
            )
    }

    /// The cells that the rule finds frozen.
    pub fn freeze_mask(&self, s: &Layer<T>) -> (ice: Mask)
        requires
            self.total(),
            is_square(s@, s@.len() as int),
            fits(s@.len() as int, s@.len() as int),
        ensures
            self.frozen(s@, ice@),
    {
        let n = s.rows.len();
        let mut ice = Mask::new(n, n);
        let mut i: usize = 0;
        while i < n
            invariant
                i <= n,
                n == s@.len(),
                self.total(),
                is_square(s@, n as int),
                is_square(ice@, n as int),
                forall|a: int, b: int|
                    0 <= a < i && 0 <= b < n ==> call_ensures(
                        self.is_ice,
                        (s@[a][b],),
                        #[trigger] ice@[a][b],
                    ),
            decreases n - i,
        {
            let mut j: usize = 0;
            while j < n
                invariant
                    i < n,
                    j <= n,
                    n == s@.len(),
                    self.total(),
                    is_square(s@, n as int),
                    is_square(ice@, n as int),
                    forall|a: int, b: int|
                        0 <= a < i && 0 <= b < n ==> call_ensures(
                            self.is_ice,
                            (s@[a][b],),
                            #[trigger] ice@[a][b],
                        ),
                    forall|b: int|
                        0 <= b < j ==> call_ensures(
                            self.is_ice,
                            (s@[i as int][b],),
                            #[trigger] ice@[i as int][b],
                        ),
                decreases n - j,
            {
                let flag = (self.is_ice)(s.get(i, j));
                ice.set(i, j, flag);
                j = j + 1;
            }
            i = i + 1;
        }
        ice
    }

    /// The water that diffuses: see [`diffusing`].
    pub fn diffusing_water(&self, ice: &Mask, s: &Layer<T>) -> (u: Layer<T>)
        requires
            is_square(s@, s@.len() as int),
            is_square(ice@, s@.len() as int),
        ensures
            u@ == diffusing(ice@, self.zero, s@),
    {
        let n = s.rows.len();
        let mut rows: Vec<Vec<T>> = Vec::new();
        let mut i: usize = 0;
        while i < n
            invariant
                i <= n,
                n == s@.len(),
                is_square(s@, n as int),
                is_square(ice@, n as int),
                rows.len() == i,
                forall|a: int| 0 <= a < i ==> (#[trigger] rows[a]).len() == n,
                forall|a: int, b: int|
                    0 <= a < i && 0 <= b < n ==> (#[trigger] rows[a][b]) == (if receptive(
                        ice@,
                        a,
                        b,
                    ) {
                        self.zero
                    } else {
                        s@[a][b]
                    }),
            decreases n - i,
        {
            let mut row: Vec<T> = Vec::new();
            let mut j: usize = 0;
            while j < n
                invariant
                    i < n,
                    j <= n,
                    n == s@.len(),
                    is_square(s@, n as int),
                    is_square(ice@, n as int),
                    row.len() == j,
                    forall|b: int|
                        0 <= b < j ==> (#[trigger] row[b]) == (if receptive(ice@, i as int, b) {
                            self.zero
                        } else {
                            s@[i as int][b]
                        }),
                decreases n - j,
            {
                let value = if ice.get(i, j) || count_at(ice, i, j) > 0 {
                    self.zero
                } else {
                    s.get(i, j)
                };
                row.push(value);
                j = j + 1;
            }
            rows.push(row);
            i = i + 1;
        }
        let u = Layer { rows };
        proof {
            let want = diffusing(ice@, self.zero, s@);
            assert forall|a: int| 0 <= a < n implies #[trigger] u@[a] == want[a] by {
                assert(u@[a] =~= want[a]);
            }
            assert(u@ =~= want);
        }
        u
    }
}

/// One step of Reiter's model. The frozen cells are found on the lattice as it
/// stands, and every cell is renewed from the lattice as it stood before the
/// step.
pub fn update_grid<T: Copy, G, R>(s: &mut Layer<T>, rules: &ReiterRules<T, G, R>) where
    G: Fn(T) -> bool,
    R: Fn(bool, T, Ring<T>) -> T,

    requires
        rules.total(),
        is_square(old(s)@, old(s)@.len() as int),
        fits(old(s)@.len() as int, old(s)@.len() as int),
    ensures
        exists|ice: Seq<Seq<bool>>| #[trigger]
            rules.frozen(old(s)@, ice) && rules.renewed(old(s)@, ice, final(s)@),
{
    let n = s.rows.len();
    let ice = rules.freeze_mask(s);
    let water = rules.diffusing_water(&ice, s);
    let mut rows: Vec<Vec<T>> = Vec::new();
    let mut i: usize = 0;
    while i < n
        invariant
            i <= n,
            n == s@.len(),
            rules.total(),
            is_square(s@, n as int),
            is_square(ice@, n as int),
            water@ == diffusing(ice@, rules.zero, s@),
            rows.len() == i,
            forall|a: int| 0 <= a < i ==> (#[trigger] rows[a]).len() == n,
            forall|a: int, b: int|
                0 <= a < i && 0 <= b < n ==> call_ensures(
                    rules.renew,
                    (receptive(ice@, a, b), s@[a][b], ring_at(water@, a, b)),
                    #[trigger] rows[a][b],
                ),
        decreases n - i,
    {
        let mut row: Vec<T> = Vec::new();
        let mut j: usize = 0;
        while j < n
            invariant
                i < n,
                j <= n,
                n == s@.len(),
                rules.total(),
                is_square(s@, n as int),
                is_square(ice@, n as int),
                water@ == diffusing(ice@, rules.zero, s@),
                row.len() == j,
                forall|b: int|
                    0 <= b < j ==> call_ensures(
                        rules.renew,
                        (receptive(ice@, i as int, b), s@[i as int][b], ring_at(water@, i as int, b)),
                        #[trigger] row[b],
                    ),
            decreases n - j,
        {
            let open = ice.get(i, j) || count_at(&ice, i, j) > 0;
            let value = (rules.renew)(open, s.get(i, j), water.around(i, j));
            row.push(value);
            j = j + 1;
        }
        rows.push(row);
        i = i + 1;
    }
    proof {
        let out = Layer { rows };
        assert(rules.renewed(s@, ice@, out@));
    }
    s.rows = rows;
}

} // verus!
