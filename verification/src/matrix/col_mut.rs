//! Exclusive column views. A column is not contiguous, so every access
//! recomputes the flat offset `index * col + c` and takes a fresh
//! bounds-checked exclusive borrow of the buffer: no unchecked offset
//! arithmetic, and the borrow discipline rules out any aliasing view.

use vstd::prelude::*;

use crate::matrix::col::Col;
use crate::matrix::raw::lemma_flat_in_bounds;
use crate::matrix::Matrix;
use crate::vector::ColVec;

verus! {

/// An exclusive view of one column of a matrix. While it lives, no
/// other view of the same matrix can exist.
pub struct ColMut<'a, T> {
    pub matrix: &'a mut Matrix<T>,
    pub col: usize,
}

impl<'a, T> View for ColMut<'a, T> {
    type V = Seq<T>;

    open spec fn view(&self) -> Seq<T> {
        (*self.matrix).col_seq(self.col as int)
    }
}

impl<'a, T> ColMut<'a, T> {
    /// The view points at a real column of a well-formed matrix.
    pub open spec fn wf(self) -> bool {
        (*self.matrix).wf() && self.col < (*self.matrix).col
    }

    /// The matrix behind the view, as it currently stands.
    pub open spec fn target(self) -> Matrix<T> {
        *self.matrix
    }

    /// Bounds-checked exclusive access to one element of the column
    /// (`index` is a row position): `None` exactly when `index` is not
    /// a row of the matrix. Writing through the returned reference
    /// changes that element and nothing else.
    pub fn get(&mut self, index: usize) -> (r: Option<&mut T>)
        requires
            old(self).wf(),
        ensures
            final(self).col == old(self).col,
            (*final(self).matrix).row == (*old(self).matrix).row,
            (*final(self).matrix).col == (*old(self).matrix).col,
            *final(final(self).matrix) == *final(old(self).matrix),
            index < (*old(self).matrix).row ==> r is Some && *r->0 == (*old(self).matrix).ele(
                index as int,
                old(self).col as int,
            ) && (*final(self).matrix).data@ == (*old(self).matrix).data@.update(
                index * (*old(self).matrix).col + old(self).col,
                *final(r->0),
            ),
            index >= (*old(self).matrix).row ==> r is None && *final(self).matrix == *old(
                self,
            ).matrix,
    {
        if index >= self.matrix.row {
            None
        } else {
            proof {
                vstd::std_specs::vec::axiom_spec_len(&self.matrix.data);
                lemma_flat_in_bounds(
                    index as int,
                    self.col as int,
                    (*self.matrix).row as int,
                    (*self.matrix).col as int,
                );
            }
            let flat: usize = index * self.matrix.col + self.col;
            Some(&mut self.matrix.data[flat])
        }
    }

    /// Overwrites one element of the column. The element must exist;
    /// every other element of the buffer is left as it was.
    pub fn set(&mut self, index: usize, v: T)
        requires
            old(self).wf(),
            index < (*old(self).matrix).row,
        ensures
            final(self).col == old(self).col,
            (*final(self).matrix).row == (*old(self).matrix).row,
            (*final(self).matrix).col == (*old(self).matrix).col,
            (*final(self).matrix).data@ == (*old(self).matrix).data@.update(
                index * (*old(self).matrix).col + old(self).col,
                v,
            ),
            *final(final(self).matrix) == *final(old(self).matrix),
    {
        proof {
            vstd::std_specs::vec::axiom_spec_len(&self.matrix.data);
            lemma_flat_in_bounds(
                index as int,
                self.col as int,
                (*self.matrix).row as int,
                (*self.matrix).col as int,
            );
        }
        let flat: usize = index * self.matrix.col + self.col;
        self.matrix.data[flat] = v;
    }

    /// An iterator handing out exclusive references to the column's
    /// elements, top to bottom.
    pub fn iter_mut(&mut self) -> (it: IterMut<'_, T>)
        requires
            old(self).wf(),
        ensures
            it.col == old(self).col,
            it.idx == 0,
            *it.matrix == *old(self).matrix,
            final(self).col == old(self).col,
            *final(self).matrix == *final(it.matrix),
            *final(final(self).matrix) == *final(old(self).matrix),
    {
        IterMut { matrix: &mut *self.matrix, col: self.col, idx: 0 }
    }

    /// The same column as a shared view: exclusive access always
    /// grants the weaker shared access.
    pub fn as_col(&self) -> (r: Col<'_, T>)
        ensures
            *r.matrix == self.target(),
            r.col == self.col,
    {
        Col { matrix: &*self.matrix, col: self.col }
    }
}

impl<'a, T: Copy> ColMut<'a, T> {
    /// Copies the column out into an owned vector, decoupled from the
    /// buffer's lifetime.
    pub fn to_vec(&self) -> (r: ColVec<T>)
        requires
            self.wf(),
        ensures
            r.data@ == self@,
    {
        self.as_col().to_vec()
    }
}

/// Iterator over one column that yields an exclusive reference to each
/// element exactly once, in top-to-bottom order. Each yielded reference
/// must be released before the next is requested.
pub struct IterMut<'a, T> {
    pub matrix: &'a mut Matrix<T>,
    pub col: usize,
    pub idx: usize,
}

impl<'a, T> IterMut<'a, T> {
    /// Yields an exclusive reference to the element at the cursor and
    /// advances, or `None` once the column is exhausted. Writing
    /// through the reference changes that element and nothing else.
    pub fn next(&mut self) -> (r: Option<&mut T>)
        requires
            (*old(self).matrix).wf(),
            old(self).col < (*old(self).matrix).col,
        ensures
            final(self).col == old(self).col,
            (*final(self).matrix).row == (*old(self).matrix).row,
            (*final(self).matrix).col == (*old(self).matrix).col,
            *final(final(self).matrix) == *final(old(self).matrix),
            old(self).idx < (*old(self).matrix).row ==> r is Some && final(self).idx == old(
                self,
            ).idx + 1 && *r->0 == (*old(self).matrix).ele(
                old(self).idx as int,
                old(self).col as int,
            ) && (*final(self).matrix).data@ == (*old(self).matrix).data@.update(
                old(self).idx * (*old(self).matrix).col + old(self).col,
                *final(r->0),
            ),
            old(self).idx >= (*old(self).matrix).row ==> r is None && final(self).idx == old(
                self,
            ).idx && *final(self).matrix == *old(self).matrix,
    {
        if self.idx >= self.matrix.row {
            None
        } else {
            proof {
                vstd::std_specs::vec::axiom_spec_len(&self.matrix.data);
                lemma_flat_in_bounds(
                    self.idx as int,
                    self.col as int,
                    (*self.matrix).row as int,
                    (*self.matrix).col as int,
                );
            }
            let flat: usize = self.idx * self.matrix.col + self.col;
            self.idx += 1;
            Some(&mut self.matrix.data[flat])
        }
    }
}

/// Consuming iterator over one column, yielding an exclusive reference
/// to each element exactly once, in top-to-bottom order.
pub struct IntoIter<'a, T> {
    pub matrix: &'a mut Matrix<T>,
    pub col: usize,
    pub idx: usize,
}

impl<'a, T> ColMut<'a, T> {
    /// Consumes the view into an iterator over its elements.
    pub fn into_iter(self) -> (it: IntoIter<'a, T>)
        ensures
            it.col == self.col,
            it.idx == 0,
            *it.matrix == self.target(),
            *final(it.matrix) == *final(self.matrix),
    {
        IntoIter { matrix: self.matrix, col: self.col, idx: 0 }
    }
}

impl<'a, T> IntoIter<'a, T> {
    /// Yields an exclusive reference to the element at the cursor and
    /// advances, or `None` once the column is exhausted. Writing
    /// through the reference changes that element and nothing else.
    pub fn next(&mut self) -> (r: Option<&mut T>)
        requires
            (*old(self).matrix).wf(),
            old(self).col < (*old(self).matrix).col,
        ensures
            final(self).col == old(self).col,
            (*final(self).matrix).row == (*old(self).matrix).row,
            (*final(self).matrix).col == (*old(self).matrix).col,
            *final(final(self).matrix) == *final(old(self).matrix),
            old(self).idx < (*old(self).matrix).row ==> r is Some && final(self).idx == old(
                self,
            ).idx + 1 && *r->0 == (*old(self).matrix).ele(
                old(self).idx as int,
                old(self).col as int,
            ) && (*final(self).matrix).data@ == (*old(self).matrix).data@.update(
                old(self).idx * (*old(self).matrix).col + old(self).col,
                *final(r->0),
            ),
            old(self).idx >= (*old(self).matrix).row ==> r is None && final(self).idx == old(
                self,
            ).idx && *final(self).matrix == *old(self).matrix,
    {
        if self.idx >= self.matrix.row {
            None
        } else {
            proof {
                vstd::std_specs::vec::axiom_spec_len(&self.matrix.data);
                lemma_flat_in_bounds(
                    self.idx as int,
                    self.col as int,
                    (*self.matrix).row as int,
                    (*self.matrix).col as int,
                );
            }
            let flat: usize = self.idx * self.matrix.col + self.col;
            self.idx += 1;
            Some(&mut self.matrix.data[flat])
        }
    }
}

} // verus!
