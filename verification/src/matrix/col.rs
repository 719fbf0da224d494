//! Shared, read-only column views. A column is strided in row-major
//! storage, so it has no contiguous slice: access is elementwise, with
//! the flat offset `index * col + c` recomputed on every step.

use vstd::prelude::*;

use crate::matrix::raw::lemma_flat_in_bounds;
use crate::matrix::Matrix;
use crate::vector::ColVec;

verus! {

/// A read-only view of one column of a matrix: logically the strided
/// sequence `data[i * col + c]` for `0 <= i < row`. Any number of
/// shared views may coexist.
pub struct Col<'a, T> {
    pub matrix: &'a Matrix<T>,
    pub col: usize,
}

impl<'a, T> View for Col<'a, T> {
    type V = Seq<T>;

    open spec fn view(&self) -> Seq<T> {
        self.matrix.col_seq(self.col as int)
    }
}

impl<'a, T> Col<'a, T> {
    /// The view points at a real column of a well-formed matrix.
    pub open spec fn wf(self) -> bool {
        self.matrix.wf() && self.col < self.matrix.col
    }

    /// Bounds-checked element access within the column (`index` is a
    /// row position): `None` exactly when `index` is not a row of the
    /// matrix.
    pub fn get(&self, index: usize) -> (r: Option<&'a T>)
        requires
            self.wf(),
        ensures
            index < self.matrix.row ==> r is Some && *r->0 == self.matrix.ele(
                index as int,
                self.col as int,
            ),
            index >= self.matrix.row ==> r is None,
    {
        if index >= self.matrix.row {
            None
        } else {
            proof {
                vstd::std_specs::vec::axiom_spec_len(&self.matrix.data);
                lemma_flat_in_bounds(
                    index as int,
                    self.col as int,
                    self.matrix.row as int,
                    self.matrix.col as int,
                );
            }
            Some(&self.matrix.data[index * self.matrix.col + self.col])
        }
    }

    /// An iterator over the column's elements, top to bottom.
    pub fn iter(&self) -> (it: ColEleIter<'_, T>)
        ensures
            it.col == self,
            it.idx == 0,
    {
        ColEleIter { col: self, idx: 0 }
    }
}

impl<'a, T: Copy> Col<'a, T> {
    /// Copies the column out into an owned vector, decoupled from the
    /// buffer's lifetime.
    pub fn to_vec(self) -> (r: ColVec<T>)
        requires
            self.wf(),
        ensures
            r.data@ == self@,
    {
        let mut data: Vec<T> = Vec::new();
        let mut i: usize = 0;
        while i < self.matrix.row
            invariant
                self.wf(),
                i <= self.matrix.row,
                data@ == self@.take(i as int),
            decreases self.matrix.row - i,
        {
            let e = *self.get(i).unwrap();
            data.push(e);
            proof {
                assert(data@ =~= self@.take(i as int + 1));
            }
            i += 1;
        }
        proof {
            assert(data@ =~= self@);
        }
        ColVec { data }
    }

    /// Consumes the view into an iterator that yields the elements by
    /// value, top to bottom.
    pub fn into_ele_iter(self) -> (it: IntoColEleIter<'a, T>)
        ensures
            it.col == self,
            it.idx == 0,
    {
        IntoColEleIter { col: self, idx: 0 }
    }
}

/// Iterator over the elements of a column, yielding references in
/// top-to-bottom order.
pub struct ColEleIter<'a, T> {
    pub col: &'a Col<'a, T>,
    pub idx: usize,
}

impl<'a, T> ColEleIter<'a, T> {
    /// Yields the element at the cursor and advances, or `None` once
    /// the column is exhausted.
    pub fn next(&mut self) -> (r: Option<&'a T>)
        requires
            old(self).col.wf(),
        ensures
            final(self).col == old(self).col,
            old(self).idx < old(self).col.matrix.row ==> r is Some && *r->0 == old(
                self,
            ).col.matrix.ele(old(self).idx as int, old(self).col.col as int) && final(self).idx
                == old(self).idx + 1,
            old(self).idx >= old(self).col.matrix.row ==> r is None && final(self).idx == old(
                self,
            ).idx,
    {
        let result = self.col.get(self.idx)?;
        self.idx += 1;
        Some(result)
    }
}

/// Iterator over the elements of a column, yielding copies in
/// top-to-bottom order.
pub struct IntoColEleIter<'a, T> {
    pub col: Col<'a, T>,
    pub idx: usize,
}

impl<'a, T: Copy> IntoColEleIter<'a, T> {
    /// Yields the element at the cursor and advances, or `None` once
    /// the column is exhausted.
    pub fn next(&mut self) -> (r: Option<T>)
        requires
            old(self).col.wf(),
        ensures
            final(self).col == old(self).col,
            old(self).idx < old(self).col.matrix.row ==> r == Some(
                old(self).col.matrix.ele(old(self).idx as int, old(self).col.col as int),
            ) && final(self).idx == old(self).idx + 1,
            old(self).idx >= old(self).col.matrix.row ==> r is None && final(self).idx == old(
                self,
            ).idx,
    {
        let result = *self.col.get(self.idx)?;
        self.idx += 1;
        Some(result)
    }
}

/// Iterator over the columns of a matrix, left to right, yielding
/// shared column views.
pub struct ColMatrix<'a, T> {
    pub matrix: &'a Matrix<T>,
    pub idx: usize,
}

impl<'a, T> ColMatrix<'a, T> {
    /// Yields a view of the column at the cursor and advances, or
    /// `None` once every column has been produced.
    pub fn next(&mut self) -> (r: Option<Col<'a, T>>)
        ensures
            final(self).matrix == old(self).matrix,
            old(self).idx < old(self).matrix.col ==> r == Some(
                Col { matrix: old(self).matrix, col: old(self).idx },
            ) && final(self).idx == old(self).idx + 1,
            old(self).idx >= old(self).matrix.col ==> r is None && final(self).idx == old(
                self,
            ).idx,
    {
        if self.idx >= self.matrix.col {
            None
        } else {
            let result = Col { matrix: self.matrix, col: self.idx };
            self.idx += 1;
            Some(result)
        }
    }
}

} // verus!
