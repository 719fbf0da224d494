//! Shared, read-only row views. A row is contiguous in row-major
//! storage, so the view can expose the underlying slice directly.

use vstd::prelude::*;
use vstd::slice::{slice_index_get, slice_subrange, slice_to_vec};

use crate::matrix::raw::lemma_row_end_in_bounds;
use crate::matrix::Matrix;
use crate::vector::RowVec;

verus! {

/// A read-only view of one row of a matrix: logically the contiguous
/// slice `data[row * col .. row * col + col]`. Any number of shared
/// views may coexist.
pub struct Row<'a, T> {
    pub matrix: &'a Matrix<T>,
    pub row: usize,
}

impl<'a, T> View for Row<'a, T> {
    type V = Seq<T>;

    open spec fn view(&self) -> Seq<T> {
        self.matrix.row_seq(self.row as int)
    }
}

impl<'a, T> Row<'a, T> {
    /// The view points at a real row of a well-formed matrix.
    pub open spec fn wf(self) -> bool {
        self.matrix.wf() && self.row < self.matrix.row
    }

    /// The whole row as the underlying contiguous span, borrowed
    /// straight from the buffer: no copy.
    pub fn as_slice(&self) -> (s: &'a [T])
        requires
            self.wf(),
        ensures
            s@ == self@,
    {
        proof {
            vstd::std_specs::vec::axiom_spec_len(&self.matrix.data);
            lemma_row_end_in_bounds(
                self.row as int,
                self.matrix.row as int,
                self.matrix.col as int,
            );
        }
        let start: usize = self.row * self.matrix.col;
        slice_subrange(self.matrix.data.as_slice(), start, start + self.matrix.col)
    }

    /// Bounds-checked element access within the row: `None` exactly
    /// when `index` is not a column of the matrix.
    pub fn get(&self, index: usize) -> (r: Option<&'a T>)
        requires
            self.wf(),
        ensures
            index < self.matrix.col ==> r is Some && *r->0 == self.matrix.ele(
                self.row as int,
                index as int,
            ),
            index >= self.matrix.col ==> r is None,
    {
        if index >= self.matrix.col {
            None
        } else {
            proof {
                lemma_row_end_in_bounds(
                    self.row as int,
                    self.matrix.row as int,
                    self.matrix.col as int,
                );
            }
            Some(slice_index_get(self.as_slice(), index))
        }
    }

    /// An iterator over the row's elements, left to right.
    pub fn iter(&self) -> (it: RowEleIter<'_, T>)
        ensures
            it.row == self,
            it.idx == 0,
    {
        RowEleIter { row: self, idx: 0 }
    }
}

impl<'a, T: Copy> Row<'a, T> {
    /// Copies the row out into an owned vector, decoupled from the
    /// buffer's lifetime.
    pub fn to_vec(&self) -> (r: RowVec<T>)
        requires
            self.wf(),
        ensures
            r.data@ == self@,
    {
        RowVec { data: slice_to_vec(self.as_slice()) }
    }

    /// Consumes the view into an iterator that yields the elements by
    /// value, left to right.
    pub fn into_ele_iter(self) -> (it: IntoRowEleIter<'a, T>)
        ensures
            it.row == self,
            it.idx == 0,
    {
        IntoRowEleIter { row: self, idx: 0 }
    }
}

/// Iterator over the elements of a row, yielding references in
/// left-to-right order.
pub struct RowEleIter<'a, T> {
    pub row: &'a Row<'a, T>,
    pub idx: usize,
}

impl<'a, T> RowEleIter<'a, T> {
    /// Yields the element at the cursor and advances, or `None` once
    /// the row is exhausted.
    pub fn next(&mut self) -> (r: Option<&'a T>)
        requires
            old(self).row.wf(),
        ensures
            final(self).row == old(self).row,
            old(self).idx < old(self).row.matrix.col ==> r is Some && *r->0 == old(
                self,
            ).row.matrix.ele(old(self).row.row as int, old(self).idx as int) && final(self).idx
                == old(self).idx + 1,
            old(self).idx >= old(self).row.matrix.col ==> r is None && final(self).idx == old(
                self,
            ).idx,
    {
        let result = self.row.get(self.idx)?;
        self.idx += 1;
        Some(result)
    }
}

/// Iterator over the elements of a row, yielding copies in
/// left-to-right order.
pub struct IntoRowEleIter<'a, T> {
    pub row: Row<'a, T>,
    pub idx: usize,
}

impl<'a, T: Copy> IntoRowEleIter<'a, T> {
    /// Yields the element at the cursor and advances, or `None` once
    /// the row is exhausted.
    pub fn next(&mut self) -> (r: Option<T>)
        requires
            old(self).row.wf(),
        ensures
            final(self).row == old(self).row,
            old(self).idx < old(self).row.matrix.col ==> r == Some(
                old(self).row.matrix.ele(old(self).row.row as int, old(self).idx as int),
            ) && final(self).idx == old(self).idx + 1,
            old(self).idx >= old(self).row.matrix.col ==> r is None && final(self).idx == old(
                self,
            ).idx,
    {
        let result = *self.row.get(self.idx)?;
        self.idx += 1;
        Some(result)
    }
}

/// Iterator over the rows of a matrix, top to bottom, yielding shared
/// row views.
pub struct RowMatrix<'a, T> {
    pub matrix: &'a Matrix<T>,
    pub idx: usize,
}

impl<'a, T> RowMatrix<'a, T> {
    /// Yields a view of the row at the cursor and advances, or `None`
    /// once every row has been produced.
    pub fn next(&mut self) -> (r: Option<Row<'a, T>>)
        ensures
            final(self).matrix == old(self).matrix,
            old(self).idx < old(self).matrix.row ==> r == Some(
                Row { matrix: old(self).matrix, row: old(self).idx },
            ) && final(self).idx == old(self).idx + 1,
            old(self).idx >= old(self).matrix.row ==> r is None && final(self).idx == old(
                self,
            ).idx,
    {
        if self.idx >= self.matrix.row {
            None
        } else {
            let result = Row { matrix: self.matrix, row: self.idx };
            self.idx += 1;
            Some(result)
        }
    }
}

} // verus!
