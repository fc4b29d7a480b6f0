//! The four deterministic stages of a step: diffusion, freezing, attachment and
//! melting. Each stage reads complete lattices and builds new ones, so that no cell
//! ever sees a value that the same stage has written.

use vstd::prelude::*;
use crate::layer::Layer;
use crate::grid::{fits, is_square, Mask};
use crate::grid::Counts;
use crate::lattice::{ring_at, Ring};
use crate::neighbors::{count_at, counts_of, neighbor_count};
use crate::rules::{attaches, attaches_spec, Evidence, Rules};

verus! {

/// A boundary cell: not frozen itself, with a frozen neighbour.
pub open spec fn is_boundary(ice: Seq<Seq<bool>>, i: int, j: int) -> bool {
    !ice[i][j] && neighbor_count(ice, i, j) > 0
}

impl<T: Copy, D, F, P, A, M, N> Rules<T, D, F, P, A, M, N> where
    D: Fn(T, Ring<T>, u8) -> T,
    F: Fn(T, T, T) -> (T, T),
    P: Fn(T, Ring<T>) -> Evidence,
    A: Fn(T, T) -> T,
    M: Fn(T, T, T) -> (T, T, T),
    N: Fn(T, bool) -> T,
 {
    /// Diffusion at one cell: a frozen cell holds no vapor; any other cell gets what
    /// the diffusion rule makes of its own vapor, the vapor around it and the number
    /// of its frozen neighbours.
    pub open spec fn diffusion_at(
        &self,
        ice: Seq<Seq<bool>>,
        vapor: Seq<Seq<T>>,
        i: int,
        j: int,
        out: T,
    ) -> bool {
        if ice[i][j] {
            out == self.zero
        } else {
            call_ensures(
                self.diffuse,
                (vapor[i][j], ring_at(vapor, i, j), neighbor_count(ice, i, j) as u8),
                out,
            )
        }
    }

    /// `out` is the vapor after diffusion.
    pub open spec fn diffused(
        &self,
        ice: Seq<Seq<bool>>,
        vapor: Seq<Seq<T>>,
        out: Seq<Seq<T>>,
    ) -> bool {
        &&& is_square(out, ice.len() as int)
        &&& forall|i: int, j: int|
            0 <= i < ice.len() && 0 <= j < ice.len() ==> self.diffusion_at(
                ice,
                vapor,
                i,
                j,
                #[trigger] out[i][j],
            )
    }

    /// The diffusion stage.
    pub fn diffusion(&self, ice: &Mask, counts: &Counts, vapor: &Layer<T>) -> (out: Layer<T>)
        requires
            self.total(),
            is_square(ice@, ice@.len() as int),
            is_square(vapor@, ice@.len() as int),
            counts_of(ice@, counts@),
        ensures
            self.diffused(ice@, vapor@, out@),
    {
        let n = ice.nrows();
        let mut rows: Vec<Vec<T>> = Vec::new();
        let mut i: usize = 0;
        while i < n
            invariant
                i <= n,
                n == ice@.len(),
                self.total(),
                is_square(ice@, n as int),
                is_square(vapor@, n as int),
                counts_of(ice@, counts@),
                rows.len() == i,
                forall|a: int| 0 <= a < i ==> (#[trigger] rows[a]).len() == n,
                forall|a: int, b: int|
                    0 <= a < i && 0 <= b < n ==> self.diffusion_at(
                        ice@,
                        vapor@,
                        a,
                        b,
                        #[trigger] rows[a][b],
                    ),
            decreases n - i,
        {
            let mut row: Vec<T> = Vec::new();
            let mut j: usize = 0;
            while j < n
                invariant
                    i < n,
                    j <= n,
                    n == ice@.len(),
                    self.total(),
                    is_square(ice@, n as int),
                    is_square(vapor@, n as int),
                    counts_of(ice@, counts@),
                    row.len() == j,
                    forall|b: int|
                        0 <= b < j ==> self.diffusion_at(ice@, vapor@, i as int, b, #[trigger] row[b]),
                decreases n - j,
            {
                let value = if ice.get(i, j) {
                    self.zero
                } else {
                    (self.diffuse)(vapor.get(i, j), vapor.around(i, j), counts.get(i, j))
                };
                row.push(value);
                j = j + 1;
            }
            rows.push(row);
            i = i + 1;
        }
        Layer { rows }
    }

    /// Freezing at one cell: a boundary cell hands its vapor to the freezing rule,
    /// which says what becomes of its boundary mass and crystal mass, and is left
    /// without vapor; any other cell keeps what it has. The triple is boundary mass,
    /// crystal mass, vapor.
    pub open spec fn freezing_at(
        &self,
        ice: Seq<Seq<bool>>,
        boundary_mass: Seq<Seq<T>>,
        crystal_mass: Seq<Seq<T>>,
        vapor: Seq<Seq<T>>,
        i: int,
        j: int,
        out: (T, T, T),
    ) -> bool {
        if is_boundary(ice, i, j) {
            &&& call_ensures(
                self.freeze,
                (boundary_mass[i][j], crystal_mass[i][j], vapor[i][j]),
                (out.0, out.1),
            )
            &&& out.2 == self.zero
        } else {
            out == (boundary_mass[i][j], crystal_mass[i][j], vapor[i][j])
        }
    }

    /// `out` holds boundary mass, crystal mass and vapor after freezing.
    pub open spec fn settled(
        &self,
        ice: Seq<Seq<bool>>,
        boundary_mass: Seq<Seq<T>>,
        crystal_mass: Seq<Seq<T>>,
        vapor: Seq<Seq<T>>,
        out: (Seq<Seq<T>>, Seq<Seq<T>>, Seq<Seq<T>>),
    ) -> bool {
        &&& is_square(out.0, ice.len() as int)
        &&& is_square(out.1, ice.len() as int)
        &&& is_square(out.2, ice.len() as int)
        &&& forall|i: int, j: int|
            0 <= i < ice.len() && 0 <= j < ice.len() ==> self.freezing_at(
                ice,
                boundary_mass,
                crystal_mass,
                vapor,
                i,
                j,
                (#[trigger] out.0[i][j], out.1[i][j], out.2[i][j]),
            )
    }

    /// The freezing stage. Returns boundary mass, crystal mass and vapor.
    pub fn freezing(
        &self,
        ice: &Mask,
        counts: &Counts,
        boundary_mass: &Layer<T>,
        crystal_mass: &Layer<T>,
        vapor: &Layer<T>,
    ) -> (out: (Layer<T>, Layer<T>, Layer<T>))
        requires
            self.total(),
            is_square(ice@, ice@.len() as int),
            is_square(boundary_mass@, ice@.len() as int),
            is_square(crystal_mass@, ice@.len() as int),
            is_square(vapor@, ice@.len() as int),
            counts_of(ice@, counts@),
        ensures
            self.settled(
                ice@,
                boundary_mass@,
                crystal_mass@,
                vapor@,
                (out.0@, out.1@, out.2@),
            ),
    {
        let n = ice.nrows();
        let mut b_rows: Vec<Vec<T>> = Vec::new();
        let mut c_rows: Vec<Vec<T>> = Vec::new();
        let mut d_rows: Vec<Vec<T>> = Vec::new();
        let mut i: usize = 0;
        while i < n
            invariant
                i <= n,
                n == ice@.len(),
                self.total(),
                is_square(ice@, n as int),
                is_square(boundary_mass@, n as int),
                is_square(crystal_mass@, n as int),
                is_square(vapor@, n as int),
                counts_of(ice@, counts@),
                b_rows.len() == i,
                c_rows.len() == i,
                d_rows.len() == i,
                forall|a: int| 0 <= a < i ==> (#[trigger] b_rows[a]).len() == n,
                forall|a: int| 0 <= a < i ==> (#[trigger] c_rows[a]).len() == n,
                forall|a: int| 0 <= a < i ==> (#[trigger] d_rows[a]).len() == n,
                forall|a: int, b: int|
                    0 <= a < i && 0 <= b < n ==> self.freezing_at(
                        ice@,
                        boundary_mass@,
                        crystal_mass@,
                        vapor@,
                        a,
                        b,
                        (#[trigger] b_rows[a][b], c_rows[a][b], d_rows[a][b]),
                    ),
            decreases n - i,
        {
            let mut b_row: Vec<T> = Vec::new();
            let mut c_row: Vec<T> = Vec::new();
            let mut d_row: Vec<T> = Vec::new();
            let mut j: usize = 0;
            while j < n
                invariant
                    i < n,
                    j <= n,
                    n == ice@.len(),
                    self.total(),
                    is_square(ice@, n as int),
                    is_square(boundary_mass@, n as int),
                    is_square(crystal_mass@, n as int),
                    is_square(vapor@, n as int),
                    counts_of(ice@, counts@),
                    b_row.len() == j,
                    c_row.len() == j,
                    d_row.len() == j,
                    forall|b: int|
                        0 <= b < j ==> self.freezing_at(
                            ice@,
                            boundary_mass@,
                            crystal_mass@,
                            vapor@,
                            i as int,
                            b,
                            (#[trigger] b_row[b], c_row[b], d_row[b]),
                        ),
                decreases n - j,
            {
                let b = boundary_mass.get(i, j);
                let c = crystal_mass.get(i, j);
                let d = vapor.get(i, j);
                if !ice.get(i, j) && counts.get(i, j) > 0 {
                    let (b_new, c_new) = (self.freeze)(b, c, d);
                    b_row.push(b_new);
                    c_row.push(c_new);
                    d_row.push(self.zero);
                } else {
                    b_row.push(b);
                    c_row.push(c);
                    d_row.push(d);
                }
                j = j + 1;
            }
            b_rows.push(b_row);
            c_rows.push(c_row);
            d_rows.push(d_row);
            i = i + 1;
        }
        (Layer { rows: b_rows }, Layer { rows: c_rows }, Layer { rows: d_rows })
    }

    /// Attachment at one cell: a boundary cell freezes when the attachment rule says
    /// so of its number of frozen neighbours and of the evidence that the probe
    /// gathers from its boundary mass and the vapor around it; a cell that freezes
    /// gives up its boundary mass, and the attachment rule says what its crystal mass
    /// becomes. Any other cell keeps what it has. The triple is the frozen flag,
    /// boundary mass, crystal mass.
    pub open spec fn attachment_at(
        &self,
        ice: Seq<Seq<bool>>,
        boundary_mass: Seq<Seq<T>>,
        crystal_mass: Seq<Seq<T>>,
        vapor: Seq<Seq<T>>,
        i: int,
        j: int,
        out: (bool, T, T),
    ) -> bool {
        if is_boundary(ice, i, j) {
            exists|e: Evidence|
                {
                    &&& #[trigger] call_ensures(
                        self.probe,
                        (boundary_mass[i][j], ring_at(vapor, i, j)),
                        e,
                    )
                    &&& out.0 == attaches_spec(neighbor_count(ice, i, j), e)
                    &&& if out.0 {
                        out.1 == self.zero && call_ensures(
                            self.attach,
                            (boundary_mass[i][j], crystal_mass[i][j]),
                            out.2,
                        )
                    } else {
                        out.1 == boundary_mass[i][j] && out.2 == crystal_mass[i][j]
                    }
                }
        } else {
            out == (ice[i][j], boundary_mass[i][j], crystal_mass[i][j])
        }
    }

    /// `out` holds the frozen cells, boundary mass and crystal mass after attachment.
    pub open spec fn attached(
        &self,
        ice: Seq<Seq<bool>>,
        boundary_mass: Seq<Seq<T>>,
        crystal_mass: Seq<Seq<T>>,
        vapor: Seq<Seq<T>>,
        out: (Seq<Seq<bool>>, Seq<Seq<T>>, Seq<Seq<T>>),
    ) -> bool {
        &&& is_square(out.0, ice.len() as int)
        &&& is_square(out.1, ice.len() as int)
        &&& is_square(out.2, ice.len() as int)
        &&& forall|i: int, j: int|
            0 <= i < ice.len() && 0 <= j < ice.len() ==> self.attachment_at(
                ice,
                boundary_mass,
                crystal_mass,
                vapor,
                i,
                j,
                (#[trigger] out.0[i][j], out.1[i][j], out.2[i][j]),
            )
    }

    /// The attachment stage. Every decision is taken on the lattices as they stood
    /// after freezing. Returns the frozen cells, boundary mass and crystal mass.
    pub fn attachment(
        &self,
        ice: &Mask,
        counts: &Counts,
        boundary_mass: &Layer<T>,
        crystal_mass: &Layer<T>,
        vapor: &Layer<T>,
    ) -> (out: (Mask, Layer<T>, Layer<T>))
        requires
            self.total(),
            fits(ice@.len() as int, ice@.len() as int),
            is_square(ice@, ice@.len() as int),
            is_square(boundary_mass@, ice@.len() as int),
            is_square(crystal_mass@, ice@.len() as int),
            is_square(vapor@, ice@.len() as int),
            counts_of(ice@, counts@),
        ensures
            self.attached(
                ice@,
                boundary_mass@,
                crystal_mass@,
                vapor@,
                (out.0@, out.1@, out.2@),
            ),
    {
        let n = ice.nrows();
        let mut grown = Mask::new(n, n);
        let mut b_rows: Vec<Vec<T>> = Vec::new();
        let mut c_rows: Vec<Vec<T>> = Vec::new();
        let mut i: usize = 0;
        while i < n
            invariant
                i <= n,
                n == ice@.len(),
                self.total(),
                is_square(ice@, n as int),
                is_square(boundary_mass@, n as int),
                is_square(crystal_mass@, n as int),
                is_square(vapor@, n as int),
                counts_of(ice@, counts@),
                is_square(grown@, n as int),
                b_rows.len() == i,
                c_rows.len() == i,
                forall|a: int| 0 <= a < i ==> (#[trigger] b_rows[a]).len() == n,
                forall|a: int| 0 <= a < i ==> (#[trigger] c_rows[a]).len() == n,
                forall|a: int, b: int|
                    0 <= a < i && 0 <= b < n ==> self.attachment_at(
                        ice@,
                        boundary_mass@,
                        crystal_mass@,
                        vapor@,
                        a,
                        b,
                        (#[trigger] grown@[a][b], b_rows[a][b], c_rows[a][b]),
                    ),
            decreases n - i,
        {
            let mut b_row: Vec<T> = Vec::new();
            let mut c_row: Vec<T> = Vec::new();
            let mut j: usize = 0;
            while j < n
                invariant
                    i < n,
                    j <= n,
                    n == ice@.len(),
                    self.total(),
                    is_square(ice@, n as int),
                    is_square(boundary_mass@, n as int),
                    is_square(crystal_mass@, n as int),
                    is_square(vapor@, n as int),
                    counts_of(ice@, counts@),
                    is_square(grown@, n as int),
                    b_rows.len() == i,
                    c_rows.len() == i,
                    forall|a: int| 0 <= a < i ==> (#[trigger] b_rows[a]).len() == n,
                    forall|a: int| 0 <= a < i ==> (#[trigger] c_rows[a]).len() == n,
                    forall|a: int, b: int|
                        0 <= a < i && 0 <= b < n ==> self.attachment_at(
                            ice@,
                            boundary_mass@,
                            crystal_mass@,
                            vapor@,
                            a,
                            b,
                            (#[trigger] grown@[a][b], b_rows[a][b], c_rows[a][b]),
                        ),
                    b_row.len() == j,
                    c_row.len() == j,
                    forall|b: int|
                        0 <= b < j ==> self.attachment_at(
                            ice@,
                            boundary_mass@,
                            crystal_mass@,
                            vapor@,
                            i as int,
                            b,
                            (#[trigger] grown@[i as int][b], b_row[b], c_row[b]),
                        ),
                decreases n - j,
            {
                let was_ice = ice.get(i, j);
                let k = counts.get(i, j);
                let b = boundary_mass.get(i, j);
                let c = crystal_mass.get(i, j);
                let ghost before = grown@;
                if !was_ice && k > 0 {
                    let evidence = (self.probe)(b, vapor.around(i, j));
                    let freezes = match attaches(k, evidence) {
                        Ok(verdict) => verdict,
                        Err(_) => vstd::pervasive::unreached(),
                    };
                    grown.set(i, j, freezes);
                    if freezes {
                        let merged = (self.attach)(b, c);
                        b_row.push(self.zero);
                        c_row.push(merged);
                    } else {
                        b_row.push(b);
                        c_row.push(c);
                    }
                } else {
                    grown.set(i, j, was_ice);
                    b_row.push(b);
                    c_row.push(c);
                }
                assert(forall|a: int, b: int|
                    0 <= a < n && 0 <= b < n && !(a == i && b == j) ==> grown@[a][b]
                        == before[a][b]);
                j = j + 1;
            }
            b_rows.push(b_row);
            c_rows.push(c_row);
            i = i + 1;
        }
        (grown, Layer { rows: b_rows }, Layer { rows: c_rows })
    }

    /// Melting at one cell: a cell that is not frozen but has a frozen neighbour
    /// hands its boundary mass, crystal mass and vapor to the melting rule; any other
    /// cell keeps what it has.
    pub open spec fn melting_at(
        &self,
        ice: Seq<Seq<bool>>,
        boundary_mass: Seq<Seq<T>>,
        crystal_mass: Seq<Seq<T>>,
        vapor: Seq<Seq<T>>,
        i: int,
        j: int,
        out: (T, T, T),
    ) -> bool {
        if is_boundary(ice, i, j) {
            call_ensures(self.melt, (boundary_mass[i][j], crystal_mass[i][j], vapor[i][j]), out)
        } else {
            out == (boundary_mass[i][j], crystal_mass[i][j], vapor[i][j])
        }
    }

    /// `out` holds boundary mass, crystal mass and vapor after melting, where `ice`
    /// are the frozen cells after attachment.
    pub open spec fn melted(
        &self,
        ice: Seq<Seq<bool>>,
        boundary_mass: Seq<Seq<T>>,
        crystal_mass: Seq<Seq<T>>,
        vapor: Seq<Seq<T>>,
        out: (Seq<Seq<T>>, Seq<Seq<T>>, Seq<Seq<T>>),
    ) -> bool {
        &&& is_square(out.0, ice.len() as int)
        &&& is_square(out.1, ice.len() as int)
        &&& is_square(out.2, ice.len() as int)
        &&& forall|i: int, j: int|
            0 <= i < ice.len() && 0 <= j < ice.len() ==> self.melting_at(
                ice,
                boundary_mass,
                crystal_mass,
                vapor,
                i,
                j,
                (#[trigger] out.0[i][j], out.1[i][j], out.2[i][j]),
            )
    }

    /// The melting stage. `ice` are the frozen cells after attachment. Returns
    /// boundary mass, crystal mass and vapor.
    pub fn melting(
        &self,
        ice: &Mask,
        boundary_mass: &Layer<T>,
        crystal_mass: &Layer<T>,
        vapor: &Layer<T>,
    ) -> (out: (Layer<T>, Layer<T>, Layer<T>))
        requires
            self.total(),
            is_square(ice@, ice@.len() as int),
            is_square(boundary_mass@, ice@.len() as int),
            is_square(crystal_mass@, ice@.len() as int),
            is_square(vapor@, ice@.len() as int),
        ensures
            self.melted(ice@, boundary_mass@, crystal_mass@, vapor@, (out.0@, out.1@, out.2@)),
    {
        let n = ice.nrows();
        let mut b_rows: Vec<Vec<T>> = Vec::new();
        let mut c_rows: Vec<Vec<T>> = Vec::new();
        let mut d_rows: Vec<Vec<T>> = Vec::new();
        let mut i: usize = 0;
        while i < n
            invariant
                i <= n,
                n == ice@.len(),
                self.total(),
                is_square(ice@, n as int),
                is_square(boundary_mass@, n as int),
                is_square(crystal_mass@, n as int),
                is_square(vapor@, n as int),
                b_rows.len() == i,
                c_rows.len() == i,
                d_rows.len() == i,
                forall|a: int| 0 <= a < i ==> (#[trigger] b_rows[a]).len() == n,
                forall|a: int| 0 <= a < i ==> (#[trigger] c_rows[a]).len() == n,
                forall|a: int| 0 <= a < i ==> (#[trigger] d_rows[a]).len() == n,
                forall|a: int, b: int|
                    0 <= a < i && 0 <= b < n ==> self.melting_at(
                        ice@,
                        boundary_mass@,
                        crystal_mass@,
                        vapor@,
                        a,
                        b,
                        (#[trigger] b_rows[a][b], c_rows[a][b], d_rows[a][b]),
                    ),
            decreases n - i,
        {
            let mut b_row: Vec<T> = Vec::new();
            let mut c_row: Vec<T> = Vec::new();
            let mut d_row: Vec<T> = Vec::new();
            let mut j: usize = 0;
            while j < n
                invariant
                    i < n,
                    j <= n,
                    n == ice@.len(),
                    self.total(),
                    is_square(ice@, n as int),
                    is_square(boundary_mass@, n as int),
                    is_square(crystal_mass@, n as int),
                    is_square(vapor@, n as int),
                    b_row.len() == j,
                    c_row.len() == j,
                    d_row.len() == j,
                    forall|b: int|
                        0 <= b < j ==> self.melting_at(
                            ice@,
                            boundary_mass@,
                            crystal_mass@,
                            vapor@,
                            i as int,
                            b,
                            (#[trigger] b_row[b], c_row[b], d_row[b]),
                        ),
                decreases n - j,
            {
                let b = boundary_mass.get(i, j);
                let c = crystal_mass.get(i, j);
                let d = vapor.get(i, j);
                if !ice.get(i, j) && count_at(ice, i, j) > 0 {
                    let (b_new, c_new, d_new) = (self.melt)(b, c, d);
                    b_row.push(b_new);
                    c_row.push(c_new);
                    d_row.push(d_new);
                } else {
                    b_row.push(b);
                    c_row.push(c);
                    d_row.push(d);
                }
                j = j + 1;
            }
            b_rows.push(b_row);
            c_rows.push(c_row);
            d_rows.push(d_row);
            i = i + 1;
        }
        (Layer { rows: b_rows }, Layer { rows: c_rows }, Layer { rows: d_rows })
    }

    /// `out` is the vapor after noise: every cell's vapor is what the noise rule makes
    /// of it and of the cell's coin.
    pub open spec fn perturbed(
        &self,
        vapor: Seq<Seq<T>>,
        coins: Seq<Seq<bool>>,
        out: Seq<Seq<T>>,
    ) -> bool {
        &&& is_square(out, vapor.len() as int)
        &&& forall|i: int, j: int|
            0 <= i < vapor.len() && 0 <= j < vapor.len() ==> call_ensures(
                self.perturb,
                (vapor[i][j], coins[i][j]),
                #[trigger] out[i][j],
            )
    }

    /// The noise stage, for coins that have been tossed already: one coin for every
    /// cell, frozen or not.
    pub fn noise(&self, vapor: &Layer<T>, coins: &Mask) -> (out: Layer<T>)
        requires
            self.total(),
            is_square(vapor@, vapor@.len() as int),
            is_square(coins@, vapor@.len() as int),
        ensures
            self.perturbed(vapor@, coins@, out@),
    {
        let n = coins.nrows();
        let mut rows: Vec<Vec<T>> = Vec::new();
        let mut i: usize = 0;
        while i < n
            invariant
                i <= n,
                n == vapor@.len(),
                self.total(),
                is_square(vapor@, n as int),
                is_square(coins@, n as int),
                rows.len() == i,
                forall|a: int| 0 <= a < i ==> (#[trigger] rows[a]).len() == n,
                forall|a: int, b: int|
                    0 <= a < i && 0 <= b < n ==> call_ensures(
                        self.perturb,
                        (vapor@[a][b], coins@[a][b]),
                        #[trigger] rows[a][b],
                    ),
            decreases n - i,
        {
            let mut row: Vec<T> = Vec::new();
            let mut j: usize = 0;
            while j < n
                invariant
                    i < n,
                    j <= n,
                    n == vapor@.len(),
                    self.total(),
                    is_square(vapor@, n as int),
                    is_square(coins@, n as int),
                    row.len() == j,
                    forall|b: int|
                        0 <= b < j ==> call_ensures(
                            self.perturb,
                            (vapor@[i as int][b], coins@[i as int][b]),
                            #[trigger] row[b],
                        ),
                decreases n - j,
            {
                let value = (self.perturb)(vapor.get(i, j), coins.get(i, j));
                row.push(value);
                j = j + 1;
            }
            rows.push(row);
            i = i + 1;
        }
        Layer { rows }
    }
}

} // verus!
