//! Exclusive row views. The row is contiguous, so exclusive access
//! reduces to exclusive access to the owning buffer plus a bounds
//! check; the borrow discipline guarantees that no other view touches
//! the buffer while this one lives.

use vstd::prelude::*;
use vstd::slice::slice_subrange;

use crate::matrix::raw::{lemma_flat_in_bounds, lemma_row_end_in_bounds};
use crate::matrix::Matrix;

verus! {

/// An exclusive view of one row of a matrix. While it lives, no other
/// view of the same matrix can exist; element access and mutation go
/// through a freshly bounds-checked borrow of the buffer each time.
pub struct RowMut<'a, T> {
    pub matrix: &'a mut Matrix<T>,
    pub row: usize,
}

impl<'a, T> View for RowMut<'a, T> {
    type V = Seq<T>;

    open spec fn view(&self) -> Seq<T> {
        (*self.matrix).row_seq(self.row as int)
    }
}

impl<'a, T> RowMut<'a, T> {
    /// The view points at a real row of a well-formed matrix.
    pub open spec fn wf(self) -> bool {
        (*self.matrix).wf() && self.row < (*self.matrix).row
    }

    /// The row as a contiguous read-only span: exclusive access always
    /// grants the weaker shared access.
    pub fn as_slice(&self) -> (s: &[T])
        requires
            self.wf(),
        ensures
            s@ == self@,
    {
        proof {
            vstd::std_specs::vec::axiom_spec_len(&self.matrix.data);
            lemma_row_end_in_bounds(
                self.row as int,
                (*self.matrix).row as int,
                (*self.matrix).col as int,
            );
        }
        let start: usize = self.row * self.matrix.col;
        slice_subrange(self.matrix.data.as_slice(), start, start + self.matrix.col)
    }

    /// Bounds-checked exclusive access to one element of the row:
    /// `None` exactly when `index` is not a column of the matrix.
    /// Writing through the returned reference changes that element and
    /// nothing else.
    pub fn get(&mut self, index: usize) -> (r: Option<&mut T>)
        requires
            old(self).wf(),
        ensures
            final(self).row == old(self).row,
            (*final(self).matrix).row == (*old(self).matrix).row,
            (*final(self).matrix).col == (*old(self).matrix).col,
            *final(final(self).matrix) == *final(old(self).matrix),
            index < (*old(self).matrix).col ==> r is Some && *r->0 == (*old(self).matrix).ele(
                old(self).row as int,
                index as int,
            ) && (*final(self).matrix).data@ == (*old(self).matrix).data@.update(
                old(self).row * (*old(self).matrix).col + index,
                *final(r->0),
            ),
            index >= (*old(self).matrix).col ==> r is None && *final(self).matrix == *old(
                self,
            ).matrix,
    {
        if index >= self.matrix.col {
            None
        } else {
            proof {
                vstd::std_specs::vec::axiom_spec_len(&self.matrix.data);
                lemma_flat_in_bounds(
                    self.row as int,
                    index as int,
                    (*self.matrix).row as int,
                    (*self.matrix).col as int,
                );
            }
            let flat: usize = self.row * self.matrix.col + index;
            Some(&mut self.matrix.data[flat])
        }
    }

    /// Overwrites one element of the row. The element must exist; every
    /// other element of the buffer is left as it was.
    pub fn set(&mut self, index: usize, v: T)
        requires
            old(self).wf(),
            index < (*old(self).matrix).col,
        ensures
            final(self).row == old(self).row,
            (*final(self).matrix).row == (*old(self).matrix).row,
            (*final(self).matrix).col == (*old(self).matrix).col,
            (*final(self).matrix).data@ == (*old(self).matrix).data@.update(
                old(self).row * (*old(self).matrix).col + index,
                v,
            ),
            *final(final(self).matrix) == *final(old(self).matrix),
    {
        proof {
            vstd::std_specs::vec::axiom_spec_len(&self.matrix.data);
            lemma_flat_in_bounds(
                self.row as int,
                index as int,
                (*self.matrix).row as int,
                (*self.matrix).col as int,
            );
        }
        let flat: usize = self.row * self.matrix.col + index;
        self.matrix.data[flat] = v;
    }

    /// An iterator handing out exclusive references to the row's
    /// elements, left to right.
    pub fn iter_mut(&mut self) -> (it: RowIterMut<'_, T>)
        requires
            old(self).wf(),
        ensures
            it.row == old(self).row,
            it.idx == 0,
            *it.matrix == *old(self).matrix,
            final(self).row == old(self).row,
            *final(self).matrix == *final(it.matrix),
            *final(final(self).matrix) == *final(old(self).matrix),
    {
        RowIterMut { matrix: &mut *self.matrix, row: self.row, idx: 0 }
    }
}

/// Iterator over one row that yields an exclusive reference to each
/// element exactly once, left to right. Each yielded reference must be
/// released before the next is requested.
pub struct RowIterMut<'a, T> {
    pub matrix: &'a mut Matrix<T>,
    pub row: usize,
    pub idx: usize,
}

impl<'a, T> RowIterMut<'a, T> {
    /// Yields an exclusive reference to the element at the cursor and
    /// advances, or `None` once the row is exhausted. Writing through
    /// the reference changes that element and nothing else.
    pub fn next(&mut self) -> (r: Option<&mut T>)
        requires
            (*old(self).matrix).wf(),
            old(self).row < (*old(self).matrix).row,
        ensures
            final(self).row == old(self).row,
            (*final(self).matrix).row == (*old(self).matrix).row,
            (*final(self).matrix).col == (*old(self).matrix).col,
            *final(final(self).matrix) == *final(old(self).matrix),
            old(self).idx < (*old(self).matrix).col ==> r is Some && final(self).idx == old(
                self,
            ).idx + 1 && *r->0 == (*old(self).matrix).ele(
                old(self).row as int,
                old(self).idx as int,
            ) && (*final(self).matrix).data@ == (*old(self).matrix).data@.update(
                old(self).row * (*old(self).matrix).col + old(self).idx,
                *final(r->0),
            ),
            old(self).idx >= (*old(self).matrix).col ==> r is None && final(self).idx == old(
                self,
            ).idx && *final(self).matrix == *old(self).matrix,
    {
        if self.idx >= self.matrix.col {
            None
        } else {
            proof {
                vstd::std_specs::vec::axiom_spec_len(&self.matrix.data);
                lemma_flat_in_bounds(
                    self.row as int,
                    self.idx as int,
                    (*self.matrix).row as int,
                    (*self.matrix).col as int,
                );
            }
            let flat: usize = self.row * self.matrix.col + self.idx;
            self.idx += 1;
            Some(&mut self.matrix.data[flat])
        }
    }
}

} // verus!
