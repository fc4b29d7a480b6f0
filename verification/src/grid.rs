//! Two-dimensional lattices of flags and of small counts, stored in `ndarray` arrays.
//!
//! The arrays themselves are opaque to the verifier. Each lattice is modelled by the
//! sequence of its rows, and the few array operations the crate needs are declared
//! here with contracts over that model.

use vstd::prelude::*;
use ndarray_rand::rand::rngs::StdRng;
use ndarray_rand::rand_distr::Standard;
use ndarray_rand::RandomExt;

verus! {

/// A rectangular lattice of flags.
#[verifier::external_body]
pub struct Mask {
    cells: ndarray::Array2<bool>,
}

/// A rectangular lattice of small counts.
#[verifier::external_body]
pub struct Counts {
    cells: ndarray::Array2<u8>,
}

/// The rows of a mask, first axis first.
pub uninterp spec fn mask_cells(m: Mask) -> Seq<Seq<bool>>;

/// The rows of a lattice of counts, first axis first.
pub uninterp spec fn count_cells(c: Counts) -> Seq<Seq<u8>>;

impl View for Mask {
    type V = Seq<Seq<bool>>;

    open spec fn view(&self) -> Seq<Seq<bool>> {
        mask_cells(*self)
    }
}

impl View for Counts {
    type V = Seq<Seq<u8>>;

    open spec fn view(&self) -> Seq<Seq<u8>> {
        count_cells(*self)
    }
}

/// `g` has `rows` rows of `cols` cells each.
pub open spec fn has_shape<T>(g: Seq<Seq<T>>, rows: int, cols: int) -> bool {
    &&& g.len() == rows
    &&& forall|i: int| 0 <= i < rows ==> (#[trigger] g[i]).len() == cols
}

/// `g` is an `n` by `n` lattice.
pub open spec fn is_square<T>(g: Seq<Seq<T>>, n: int) -> bool {
    has_shape(g, n, n)
}

/// `ndarray::Array2::<bool>::default((rows, cols))`: a fresh array of the given
/// shape whose cells are all `false`. The constructor panics when the product of the
/// axis lengths that are not zero exceeds `isize::MAX`, which the precondition rules
/// out.
#[verifier::external_body]
fn mask_default(rows: usize, cols: usize) -> (m: Mask)
    requires
        rows <= isize::MAX,
        cols <= isize::MAX,
        rows * cols <= isize::MAX,
    ensures
        has_shape(mask_cells(m), rows as int, cols as int),
        forall|i: int, j: int| 0 <= i < rows && 0 <= j < cols ==> !(#[trigger] mask_cells(m)[i][j]),
{
    Mask { cells: ndarray::Array2::<bool>::default((rows, cols)) }
}

/// `ndarray::ArrayBase::nrows`: the length of the first axis.
#[verifier::external_body]
fn mask_nrows(m: &Mask) -> (r: usize)
    ensures
        r == mask_cells(*m).len(),
{
    m.cells.nrows()
}

/// `ndarray::ArrayBase::ncols`: the length of the second axis, which is the length
/// of every row.
#[verifier::external_body]
fn mask_ncols(m: &Mask) -> (r: usize)
    ensures
        forall|i: int| 0 <= i < mask_cells(*m).len() ==> (#[trigger] mask_cells(*m)[i]).len() == r,
{
    m.cells.ncols()
}

/// `ndarray`'s `Index<[usize; 2]>`: the cell at row `i`, column `j`. Indexing panics
/// out of bounds, which the precondition rules out.
#[verifier::external_body]
fn mask_index(m: &Mask, i: usize, j: usize) -> (r: bool)
    requires
        i < mask_cells(*m).len(),
        j < mask_cells(*m)[i as int].len(),
    ensures
        r == mask_cells(*m)[i as int][j as int],
{
    m.cells[[i, j]]
}

/// `ndarray`'s `IndexMut<[usize; 2]>`: overwrites the cell at row `i`, column `j`
/// and leaves every other cell and the shape as they were.
#[verifier::external_body]
fn mask_index_mut(m: &mut Mask, i: usize, j: usize, value: bool)
    requires
        i < mask_cells(*old(m)).len(),
        j < mask_cells(*old(m))[i as int].len(),
    ensures
        mask_cells(*final(m)) == mask_cells(*old(m)).update(i as int, mask_cells(*old(m))[i as int].update(j as int, value)),
{
    m.cells[[i, j]] = value;
}

/// `ndarray_rand`'s `RandomExt::random_using` with the `Standard` distribution: an
/// array of the given shape with one fair coin per cell, drawn from `rng`. Nothing
/// is promised about the coins. The call panics when the product of the axis lengths
/// that are not zero exceeds `isize::MAX`, which the precondition rules out.
#[verifier::external_body]
pub(crate) fn mask_random(rng: &mut StdRng, rows: usize, cols: usize) -> (coins: Mask)
    requires
        rows <= isize::MAX,
        cols <= isize::MAX,
        rows * cols <= isize::MAX,
    ensures
        has_shape(mask_cells(coins), rows as int, cols as int),
{
    Mask { cells: ndarray::Array2::<bool>::random_using((rows, cols), Standard, rng) }
}

/// `ndarray::Array2::<u8>::zeros((rows, cols))`: a fresh array of the given shape
/// whose cells are all zero. The constructor panics when the product of the axis
/// lengths that are not zero exceeds `isize::MAX`, which the precondition rules out.
#[verifier::external_body]
fn counts_zeros(rows: usize, cols: usize) -> (c: Counts)
    requires
        rows <= isize::MAX,
        cols <= isize::MAX,
        rows * cols <= isize::MAX,
    ensures
        has_shape(count_cells(c), rows as int, cols as int),
        forall|i: int, j: int| 0 <= i < rows && 0 <= j < cols ==> (#[trigger] count_cells(c)[i][j]) == 0,
{
    Counts { cells: ndarray::Array2::<u8>::zeros((rows, cols)) }
}

/// `ndarray::ArrayBase::nrows`: the length of the first axis.
#[verifier::external_body]
fn counts_nrows(c: &Counts) -> (r: usize)
    ensures
        r == count_cells(*c).len(),
{
    c.cells.nrows()
}

/// `ndarray::ArrayBase::ncols`: the length of the second axis, which is the length
/// of every row.
#[verifier::external_body]
fn counts_ncols(c: &Counts) -> (r: usize)
    ensures
        forall|i: int| 0 <= i < count_cells(*c).len() ==> (#[trigger] count_cells(*c)[i]).len() == r,
{
    c.cells.ncols()
}

/// `ndarray`'s `Index<[usize; 2]>`: the cell at row `i`, column `j`. Indexing panics
/// out of bounds, which the precondition rules out.
#[verifier::external_body]
fn counts_index(c: &Counts, i: usize, j: usize) -> (r: u8)
    requires
        i < count_cells(*c).len(),
        j < count_cells(*c)[i as int].len(),
    ensures
        r == count_cells(*c)[i as int][j as int],
{
    c.cells[[i, j]]
}

/// `ndarray`'s `IndexMut<[usize; 2]>`: overwrites the cell at row `i`, column `j`
/// and leaves every other cell and the shape as they were.
#[verifier::external_body]
fn counts_index_mut(c: &mut Counts, i: usize, j: usize, value: u8)
    requires
        i < count_cells(*old(c)).len(),
        j < count_cells(*old(c))[i as int].len(),
    ensures
        count_cells(*final(c)) == count_cells(*old(c)).update(i as int, count_cells(*old(c))[i as int].update(j as int, value)),
{
    c.cells[[i, j]] = value;
}

/// Whether an array can have this shape: neither axis, nor the number of cells, may
/// exceed `isize::MAX`.
pub open spec fn fits(rows: int, cols: int) -> bool {
    rows <= isize::MAX && cols <= isize::MAX && rows * cols <= isize::MAX
}

/// Decides [`fits`] without overflowing.
pub fn shape_fits(rows: usize, cols: usize) -> (r: bool)
    ensures
        r == fits(rows as int, cols as int),
{
    let limit: usize = isize::MAX as usize;
    if rows > limit || cols > limit {
        false
    } else if rows == 0 || cols == 0 {
        assert(rows * cols == 0) by (nonlinear_arith)
            requires
                rows == 0 || cols == 0,
        ;
        true
    } else {
        let quota: usize = limit / rows;
        assert(rows * cols <= limit <==> cols <= limit / rows) by (nonlinear_arith)
            requires
                rows > 0,
                cols >= 0,
                limit >= 0,
        ;
        cols <= quota
    }
}

impl Mask {
    /// The number of columns: the length that all rows share, and zero for a mask
    /// without rows.
    pub open spec fn spec_ncols(&self) -> int {
        if self@.len() == 0 {
            0
        } else {
            self@[0].len() as int
        }
    }

    /// A mask of the given shape with every flag cleared.
    pub fn new(rows: usize, cols: usize) -> (m: Mask)
        requires
            fits(rows as int, cols as int),
        ensures
            has_shape(m@, rows as int, cols as int),
            forall|i: int, j: int| 0 <= i < rows && 0 <= j < cols ==> !(#[trigger] m@[i][j]),
    {
        mask_default(rows, cols)
    }

    /// Number of rows.
    pub fn nrows(&self) -> (r: usize)
        ensures
            r == self@.len(),
    {
        mask_nrows(self)
    }

    /// Number of columns. Every row has this length.
    pub fn ncols(&self) -> (r: usize)
        ensures
            forall|i: int| 0 <= i < self@.len() ==> (#[trigger] self@[i]).len() == r,
    {
        mask_ncols(self)
    }

    /// The flag at row `i`, column `j`.
    pub fn get(&self, i: usize, j: usize) -> (r: bool)
        requires
            i < self@.len(),
            j < self@[i as int].len(),
        ensures
            r == self@[i as int][j as int],
    {
        mask_index(self, i, j)
    }

    /// Sets the flag at row `i`, column `j`.
    pub fn set(&mut self, i: usize, j: usize, value: bool)
        requires
            i < old(self)@.len(),
            j < old(self)@[i as int].len(),
        ensures
            final(self)@ == old(self)@.update(i as int, old(self)@[i as int].update(j as int, value)),
    {
        mask_index_mut(self, i, j, value)
    }
}

impl Counts {
    /// A lattice of the given shape with every count zero.
    pub fn new(rows: usize, cols: usize) -> (c: Counts)
        requires
            fits(rows as int, cols as int),
        ensures
            has_shape(c@, rows as int, cols as int),
            forall|i: int, j: int| 0 <= i < rows && 0 <= j < cols ==> (#[trigger] c@[i][j]) == 0,
    {
        counts_zeros(rows, cols)
    }

    /// Number of rows.
    pub fn nrows(&self) -> (r: usize)
        ensures
            r == self@.len(),
    {
        counts_nrows(self)
    }

    /// Number of columns. Every row has this length.
    pub fn ncols(&self) -> (r: usize)
        ensures
            forall|i: int| 0 <= i < self@.len() ==> (#[trigger] self@[i]).len() == r,
    {
        counts_ncols(self)
    }

    /// The count at row `i`, column `j`.
    pub fn get(&self, i: usize, j: usize) -> (r: u8)
        requires
            i < self@.len(),
            j < self@[i as int].len(),
        ensures
            r == self@[i as int][j as int],
    {
        counts_index(self, i, j)
    }

    /// Sets the count at row `i`, column `j`.
    pub fn set(&mut self, i: usize, j: usize, value: u8)
        requires
            i < old(self)@.len(),
            j < old(self)@[i as int].len(),
        ensures
            final(self)@ == old(self)@.update(i as int, old(self)@[i as int].update(j as int, value)),
    {
        counts_index_mut(self, i, j, value)
    }
}

} // verus!
