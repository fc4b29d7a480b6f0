//! Lattices of physical quantities.
//!
//! The automaton never computes with the quantities itself: it moves them between
//! cells and hands them to the caller's rules. A layer is therefore generic in the
//! type of its cells.

use vstd::prelude::*;
use crate::grid::{has_shape, is_square};
use crate::lattice::{neighbors, ring_at, Ring};

verus! {

/// A lattice of values, stored row by row.
pub struct Layer<T> {
    pub rows: Vec<Vec<T>>,
}

impl<T> View for Layer<T> {
    type V = Seq<Seq<T>>;

    open spec fn view(&self) -> Seq<Seq<T>> {
        Seq::new(self.rows.len() as nat, |i: int| self.rows[i]@)
    }
}

impl<T: Copy> Layer<T> {
    /// A layer of the given shape that holds `value` in every cell.
    pub fn filled(rows: usize, cols: usize, value: T) -> (f: Layer<T>)
        ensures
            has_shape(f@, rows as int, cols as int),
            forall|i: int, j: int| 0 <= i < rows && 0 <= j < cols ==> (#[trigger] f@[i][j]) == value,
    {
        let mut out: Vec<Vec<T>> = Vec::new();
        let mut i: usize = 0;
        while i < rows
            invariant
                i <= rows,
                out.len() == i,
                forall|a: int| 0 <= a < i ==> (#[trigger] out[a]).len() == cols,
                forall|a: int, b: int| 0 <= a < i && 0 <= b < cols ==> (#[trigger] out[a][b]) == value,
            decreases rows - i,
        {
            let mut row: Vec<T> = Vec::new();
            let mut j: usize = 0;
            while j < cols
                invariant
                    j <= cols,
                    row.len() == j,
                    forall|b: int| 0 <= b < j ==> (#[trigger] row[b]) == value,
                decreases cols - j,
            {
                row.push(value);
                j = j + 1;
            }
            out.push(row);
            i = i + 1;
        }
        Layer { rows: out }
    }

    /// The value at row `i`, column `j`.
    pub fn get(&self, i: usize, j: usize) -> (r: T)
        requires
            i < self@.len(),
            j < self@[i as int].len(),
        ensures
            r == self@[i as int][j as int],
    {
        self.rows[i][j]
    }

    /// The values around cell `(i, j)` of a square layer that wraps around.
    pub fn around(&self, i: usize, j: usize) -> (r: Ring<T>)
        requires
            is_square(self@, self@.len() as int),
            i < self@.len(),
            j < self@.len(),
        ensures
            r == ring_at(self@, i as int, j as int),
    {
        let n = self.rows.len();
        let at = neighbors(n, i, j);
        Ring {
            east: self.get(at[0].0, at[0].1),
            west: self.get(at[1].0, at[1].1),
            north: self.get(at[2].0, at[2].1),
            south: self.get(at[3].0, at[3].1),
            north_west: self.get(at[4].0, at[4].1),
            south_east: self.get(at[5].0, at[5].1),
        }
    }

    /// Replaces the value at row `i`, column `j`.
    pub fn set(&mut self, i: usize, j: usize, value: T)
        requires
            i < old(self)@.len(),
            j < old(self)@[i as int].len(),
        ensures
            final(self)@ == old(self)@.update(i as int, old(self)@[i as int].update(j as int, value)),
    {
        let row = &mut self.rows[i];
        row.set(j, value);
    }
}

} // verus!
