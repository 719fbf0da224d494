//! The owning buffer: a flat row-major `Vec` together with its declared
//! extents, and the accessors that hand out row and column views.

use vstd::prelude::*;

use crate::matrix::col::{Col, ColMatrix};
use crate::matrix::col_mut::ColMut;
use crate::matrix::row::{Row, RowMatrix};
use crate::matrix::row_mut::RowMut;

pub mod col;
pub mod col_mut;
pub mod ops;
pub mod raw;
pub mod row;
pub mod row_mut;

verus! {

/// Error returned by [`Matrix::rearrange`] when the requested extents do
/// not multiply out to the buffer's length. It carries the untouched
/// matrix back to the caller, so a failed reshape loses nothing.
#[derive(Debug)]
pub struct MatrixRearrangeFailed<T> {
    pub matrix: Matrix<T>,
}

/// A dense matrix: a flat buffer of `row * col` elements in row-major
/// order. Element `(r, c)` lives at flat offset `r * col + c`.
#[derive(Clone, Debug)]
pub struct Matrix<T> {
    pub data: Vec<T>,
    pub row: usize,
    pub col: usize,
}

impl<T> View for Matrix<T> {
    type V = Seq<T>;

    open spec fn view(&self) -> Seq<T> {
        self.data@
    }
}

impl<T> Matrix<T> {
    /// The buffer holds exactly one element per logical position.
    pub open spec fn wf(self) -> bool {
        self.data@.len() == self.row * self.col
    }

    /// The element at logical position `(r, c)`.
    pub open spec fn ele(self, r: int, c: int) -> T
        recommends
            self.wf(),
            0 <= r < self.row,
            0 <= c < self.col,
    {
        self.data@[r * self.col + c]
    }

    /// The contiguous slice of the buffer that holds row `r`.
    pub open spec fn row_seq(self, r: int) -> Seq<T>
        recommends
            self.wf(),
            0 <= r < self.row,
    {
        self.data@.subrange(r * self.col, r * self.col + self.col)
    }

    /// The strided sequence of the buffer that holds column `c`,
    /// top to bottom.
    pub open spec fn col_seq(self, c: int) -> Seq<T>
        recommends
            self.wf(),
            0 <= c < self.col,
    {
        Seq::new(self.row as nat, |i: int| self.ele(i, c))
    }

    /// Wraps a flat buffer as a 1 x N matrix. Never fails.
    pub fn new(data: Vec<T>) -> (r: Self)
        ensures
            r@ == data@,
            r.row == 1,
            r.col == data@.len(),
            r.wf(),
    {
        Self { col: data.len(), data, row: 1 }
    }

    /// Re-declares the extents over the same storage: a move, never a
    /// copy. Succeeds exactly when `row * col` equals the buffer's
    /// length; otherwise the matrix comes back unchanged inside the
    /// error.
    pub fn rearrange(self, row: usize, col: usize) -> (r: Result<
        Self,
        MatrixRearrangeFailed<T>,
    >)
        ensures
            row * col == self@.len() ==> (r == Ok::<Self, MatrixRearrangeFailed<T>>(
                Matrix { row, col, data: self.data },
            )),
            row * col != self@.len() ==> (r == Err::<Self, MatrixRearrangeFailed<T>>(
                MatrixRearrangeFailed { matrix: self },
            )),
    {
        if row.checked_mul(col) != Some(self.data.len()) {
            Err(MatrixRearrangeFailed { matrix: self })
        } else {
            Ok(Self { col, row, ..self })
        }
    }

    /// An iterator over the rows, top to bottom.
    pub fn as_rowmatrix(&self) -> (it: RowMatrix<'_, T>)
        ensures
            it.matrix == self,
            it.idx == 0,
    {
        RowMatrix { matrix: self, idx: 0 }
    }

    /// A shared view of row `index`, or `None` exactly when the index
    /// is out of range.
    pub fn row(&self, index: usize) -> (r: Option<Row<'_, T>>)
        ensures
            index < self.row ==> r == Some(Row { matrix: self, row: index }),
            index >= self.row ==> r is None,
    {
        if index >= self.row {
            None
        } else {
            Some(Row { matrix: self, row: index })
        }
    }

    /// An exclusive view of row `index`, or `None` exactly when the
    /// index is out of range (the matrix is then untouched). While the
    /// view lives, no other access to the matrix is possible.
    pub fn row_mut(&mut self, index: usize) -> (r: Option<RowMut<'_, T>>)
        ensures
            index < old(self).row ==> r is Some && r->0.row == index && *r->0.matrix == *old(self)
                && *final(self) == *final(r->0.matrix),
            index >= old(self).row ==> r is None && *final(self) == *old(self),
    {
        if index >= self.row {
            None
        } else {
            Some(RowMut { matrix: self, row: index })
        }
    }

    /// A shared view of column `index`, or `None` exactly when the
    /// index is out of range.
    pub fn col(&self, index: usize) -> (r: Option<Col<'_, T>>)
        ensures
            index < self.col ==> r == Some(Col { matrix: self, col: index }),
            index >= self.col ==> r is None,
    {
        if index >= self.col {
            None
        } else {
            Some(Col { matrix: self, col: index })
        }
    }

    /// An exclusive view of column `index`, or `None` exactly when the
    /// index is out of range (the matrix is then untouched). While the
    /// view lives, no other access to the matrix is possible.
    pub fn col_mut(&mut self, index: usize) -> (r: Option<ColMut<'_, T>>)
        ensures
            index < old(self).col ==> r is Some && r->0.col == index && *r->0.matrix == *old(self)
                && *final(self) == *final(r->0.matrix),
            index >= old(self).col ==> r is None && *final(self) == *old(self),
    {
        if index >= self.col {
            None
        } else {
            Some(ColMut { matrix: self, col: index })
        }
    }

    /// An iterator over the columns, left to right.
    pub fn as_colmatrix(&self) -> (it: ColMatrix<'_, T>)
        ensures
            it.matrix == self,
            it.idx == 0,
    {
        ColMatrix { matrix: self, idx: 0 }
    }
}

/// Indexing law: after any reshape that keeps the buffer, the element
/// a row view shows at column `c` of row `r` — and a column view at row
/// `r` of column `c` — is exactly the original flat element at offset
/// `r * col + c`.
pub proof fn lemma_element_offset<T>(m: Matrix<T>, r: int, c: int)
    requires
        m.wf(),
        0 <= r < m.row,
        0 <= c < m.col,
    ensures
        m.ele(r, c) == m@[r * m.col + c],
        m.row_seq(r)[c] == m@[r * m.col + c],
        m.col_seq(c)[r] == m@[r * m.col + c],
{
    raw::lemma_row_end_in_bounds(r, m.row as int, m.col as int);
    raw::lemma_flat_in_bounds(r, c, m.row as int, m.col as int);
}

/// The concatenation of the first `upto` row views, in top-to-bottom
/// order.
pub open spec fn rows_concat<T>(m: Matrix<T>, upto: int) -> Seq<T>
    recommends
        m.wf(),
        0 <= upto <= m.row,
    decreases upto,
{
    if upto <= 0 {
        Seq::empty()
    } else {
        rows_concat(m, upto - 1) + m.row_seq(upto - 1)
    }
}

proof fn lemma_rows_concat_prefix<T>(m: Matrix<T>, k: int)
    requires
        m.wf(),
        0 <= k <= m.row,
    ensures
        rows_concat(m, k) == m@.take(k * m.col),
    decreases k,
{
    if k == 0 {
        assert(rows_concat(m, 0) =~= m@.take(0));
    } else {
        lemma_rows_concat_prefix(m, k - 1);
        raw::lemma_row_end_in_bounds(k - 1, m.row as int, m.col as int);
        assert((k - 1) * m.col + m.col == k * m.col) by (nonlinear_arith);
        assert(rows_concat(m, k) =~= m@.take(k * m.col));
    }
}

/// Row-major round-trip law: flattening a matrix by walking its rows
/// top to bottom and each row left to right reproduces the flat buffer
/// exactly, so wrapping that flat sequence again and reshaping it to
/// the original extents restores the original matrix.
pub proof fn lemma_row_major_flatten<T>(m: Matrix<T>)
    requires
        m.wf(),
    ensures
        rows_concat(m, m.row as int) == m@,
{
    lemma_rows_concat_prefix(m, m.row as int);
    assert(m@.take(m.row as int * m.col as int) =~= m@);
}

/// Exclusive-mutation law: overwriting the element at `(r, c)` changes
/// the column view of `c` at position `r` and the row view of `r` at
/// position `c`, and leaves every other row and column view of the
/// matrix exactly as it was. A mutation through an exclusive view is
/// therefore visible through any shared view requested afterwards, and
/// invisible everywhere else.
pub proof fn lemma_view_update<T>(m1: Matrix<T>, m2: Matrix<T>, r: int, c: int, v: T)
    requires
        m1.wf(),
        0 <= r < m1.row,
        0 <= c < m1.col,
        m2.row == m1.row,
        m2.col == m1.col,
        m2@ == m1@.update(r * m1.col + c, v),
    ensures
        m2.wf(),
        m2.col_seq(c) == m1.col_seq(c).update(r, v),
        m2.row_seq(r) == m1.row_seq(r).update(c, v),
        forall|c2: int| 0 <= c2 < m1.col && c2 != c ==> m2.col_seq(c2) == m1.col_seq(c2),
        forall|r2: int| 0 <= r2 < m1.row && r2 != r ==> m2.row_seq(r2) == m1.row_seq(r2),
{
    let rows = m1.row as int;
    let cols = m1.col as int;
    raw::lemma_flat_in_bounds(r, c, rows, cols);
    assert forall|i: int| 0 <= i < rows implies m2.col_seq(c)[i] == m1.col_seq(c).update(r, v)[i] by {
        raw::lemma_flat_in_bounds(i, c, rows, cols);
        if i != r && i * cols + c == r * cols + c {
            raw::lemma_flat_injective(i, c, r, c, cols);
        }
    }
    assert(m2.col_seq(c) =~= m1.col_seq(c).update(r, v));
    raw::lemma_row_end_in_bounds(r, rows, cols);
    assert forall|j: int| 0 <= j < cols implies m2.row_seq(r)[j] == m1.row_seq(r).update(c, v)[j] by {
        raw::lemma_flat_in_bounds(r, j, rows, cols);
        if j != c && r * cols + j == r * cols + c {
            raw::lemma_flat_injective(r, j, r, c, cols);
        }
    }
    assert(m2.row_seq(r) =~= m1.row_seq(r).update(c, v));
    assert forall|c2: int| 0 <= c2 < cols && c2 != c implies m2.col_seq(c2) == m1.col_seq(c2) by {
        assert forall|i: int| 0 <= i < rows implies m2.col_seq(c2)[i] == m1.col_seq(c2)[i] by {
            raw::lemma_flat_in_bounds(i, c2, rows, cols);
            if i * cols + c2 == r * cols + c {
                raw::lemma_flat_injective(i, c2, r, c, cols);
            }
        }
        assert(m2.col_seq(c2) =~= m1.col_seq(c2));
    }
    assert forall|r2: int| 0 <= r2 < rows && r2 != r implies m2.row_seq(r2) == m1.row_seq(r2) by {
        raw::lemma_row_end_in_bounds(r2, rows, cols);
        assert forall|j: int| 0 <= j < cols implies m2.row_seq(r2)[j] == m1.row_seq(r2)[j] by {
            raw::lemma_flat_in_bounds(r2, j, rows, cols);
            if r2 * cols + j == r * cols + c {
                raw::lemma_flat_injective(r2, j, r, c, cols);
            }
        }
        assert(m2.row_seq(r2) =~= m1.row_seq(r2));
    }
}

} // verus!
