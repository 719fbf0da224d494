//! The arithmetic layer: elementwise addition, transposition, and the
//! row-times-column dot product. All of it is a consumer of the view
//! and indexing contracts, not a second storage model.

use vstd::prelude::*;

use crate::matrix::col::Col;
use crate::matrix::raw::lemma_flat_in_bounds;
use crate::matrix::row::Row;
use crate::matrix::Matrix;

verus! {

/// An element type the arithmetic layer can work with: addition and
/// multiplication with explicit overflow preconditions, and an
/// explicit zero for seeding sums.
pub trait Scalar: Sized + Copy {
    /// Whether `self + rhs` stays within the type's range.
    spec fn plus_ok(self, rhs: Self) -> bool;

    /// The exact sum, assuming it stays in range.
    spec fn spec_plus(self, rhs: Self) -> Self;

    /// Whether `self * rhs` stays within the type's range.
    spec fn times_ok(self, rhs: Self) -> bool;

    /// The exact product, assuming it stays in range.
    spec fn spec_times(self, rhs: Self) -> Self;

    /// The additive identity used to seed accumulators.
    spec fn spec_zero() -> Self;

    /// In-range addition never wraps and never panics.
    fn plus(self, rhs: Self) -> (r: Self)
        requires
            self.plus_ok(rhs),
        ensures
            r == self.spec_plus(rhs),
    ;

    /// In-range multiplication never wraps and never panics.
    fn times(self, rhs: Self) -> (r: Self)
        requires
            self.times_ok(rhs),
        ensures
            r == self.spec_times(rhs),
    ;

    /// The additive identity as a runtime value.
    fn zero() -> (r: Self)
        ensures
            r == Self::spec_zero(),
    ;

    /// Addition is commutative wherever it is defined.
    proof fn lemma_plus_comm(self, rhs: Self)
        requires
            self.plus_ok(rhs),
        ensures
            rhs.plus_ok(self),
            self.spec_plus(rhs) == rhs.spec_plus(self),
    ;
}

impl Scalar for u8 {
    open spec fn plus_ok(self, rhs: Self) -> bool {
        self + rhs <= u8::MAX
    }

    open spec fn spec_plus(self, rhs: Self) -> Self {
        (self + rhs) as u8
    }

    open spec fn times_ok(self, rhs: Self) -> bool {
        self * rhs <= u8::MAX
    }

    open spec fn spec_times(self, rhs: Self) -> Self {
        (self * rhs) as u8
    }

    open spec fn spec_zero() -> Self {
        0u8
    }

    fn plus(self, rhs: Self) -> (r: Self) {
        self + rhs
    }

    fn times(self, rhs: Self) -> (r: Self) {
        proof {
            assert(self * rhs <= u8::MAX);
        }
        self * rhs
    }

    fn zero() -> (r: Self) {
        0
    }

    proof fn lemma_plus_comm(self, rhs: Self) {
    }
}

impl Scalar for i64 {
    open spec fn plus_ok(self, rhs: Self) -> bool {
        i64::MIN <= self + rhs <= i64::MAX
    }

    open spec fn spec_plus(self, rhs: Self) -> Self {
        (self + rhs) as i64
    }

    open spec fn times_ok(self, rhs: Self) -> bool {
        i64::MIN <= self * rhs <= i64::MAX
    }

    open spec fn spec_times(self, rhs: Self) -> Self {
        (self * rhs) as i64
    }

    open spec fn spec_zero() -> Self {
        0i64
    }

    fn plus(self, rhs: Self) -> (r: Self) {
        self + rhs
    }

    fn times(self, rhs: Self) -> (r: Self) {
        proof {
            assert(i64::MIN <= self * rhs <= i64::MAX);
        }
        self * rhs
    }

    fn zero() -> (r: Self) {
        0
    }

    proof fn lemma_plus_comm(self, rhs: Self) {
    }
}

/// Whether two flat sequences can be added pairwise without leaving
/// the element type's range.
pub open spec fn seq_plus_ok<T: Scalar>(a: Seq<T>, b: Seq<T>) -> bool
    recommends
        a.len() == b.len(),
{
    forall|i: int| 0 <= i < a.len() && i < b.len() ==> #[trigger] a[i].plus_ok(b[i])
}

/// The pairwise sum of two flat sequences of equal length.
pub open spec fn seq_plus<T: Scalar>(a: Seq<T>, b: Seq<T>) -> Seq<T>
    recommends
        a.len() == b.len(),
{
    Seq::new(a.len(), |i: int| a[i].spec_plus(b[i]))
}

/// Error returned by [`Matrix::add`] when the operands' extents differ.
#[derive(Debug)]
pub struct MatrixDifferentArrangement;

impl<T: Scalar> Matrix<T> {
    /// Elementwise addition. Fails exactly when the extents differ;
    /// otherwise the result has the same shape and holds the pairwise
    /// sums in the same row-major order.
    pub fn add(self, rhs: Self) -> (r: Result<Self, MatrixDifferentArrangement>)
        requires
            self.wf(),
            rhs.wf(),
            self.row == rhs.row && self.col == rhs.col ==> seq_plus_ok(self@, rhs@),
        ensures
            self.row == rhs.row && self.col == rhs.col ==> r is Ok && r->Ok_0.row == self.row
                && r->Ok_0.col == self.col && r->Ok_0@ == seq_plus(self@, rhs@) && r->Ok_0.wf(),
            !(self.row == rhs.row && self.col == rhs.col) ==> (r == Err::<
                Self,
                MatrixDifferentArrangement,
            >(MatrixDifferentArrangement)),
    {
        if (self.col != rhs.col) || (self.row != rhs.row) {
            Err(MatrixDifferentArrangement)
        } else {
            let n = self.data.len();
            let mut out: Vec<T> = Vec::new();
            let mut i: usize = 0;
            while i < n
                invariant
                    n == self@.len(),
                    n == rhs@.len(),
                    i <= n,
                    seq_plus_ok(self@, rhs@),
                    out@ == seq_plus(self@, rhs@).take(i as int),
                decreases n - i,
            {
                let s = self.data[i].plus(rhs.data[i]);
                out.push(s);
                proof {
                    assert(out@ =~= seq_plus(self@, rhs@).take(i as int + 1));
                }
                i += 1;
            }
            proof {
                assert(seq_plus(self@, rhs@).take(n as int) =~= seq_plus(self@, rhs@));
            }
            Ok(Matrix { data: out, row: self.row, col: self.col })
        }
    }

    /// The infix-style convenience form of [`Matrix::add`]: a thin
    /// wrapper that demands matching extents up front instead of
    /// returning the mismatch as a value.
    pub fn plus(self, rhs: Self) -> (r: Self)
        requires
            self.wf(),
            rhs.wf(),
            self.row == rhs.row,
            self.col == rhs.col,
            seq_plus_ok(self@, rhs@),
        ensures
            r.row == self.row,
            r.col == self.col,
            r@ == seq_plus(self@, rhs@),
            r.wf(),
    {
        match self.add(rhs) {
            Ok(m) => m,
            Err(_) => vstd::pervasive::unreached(),
        }
    }
}

/// The dot product of two equal-length sequences, folded left to right
/// from an explicit zero seed: `((zero + a[0]*b[0]) + a[1]*b[1]) + ...`.
pub open spec fn spec_dot<T: Scalar>(a: Seq<T>, b: Seq<T>) -> T
    recommends
        a.len() == b.len(),
    decreases a.len(),
{
    if a.len() == 0 {
        T::spec_zero()
    } else {
        spec_dot(a.drop_last(), b.drop_last()).spec_plus(a.last().spec_times(b.last()))
    }
}

/// Whether the dot product of two equal-length sequences can be folded
/// without any product or partial sum leaving the type's range.
pub open spec fn spec_dot_ok<T: Scalar>(a: Seq<T>, b: Seq<T>) -> bool
    recommends
        a.len() == b.len(),
    decreases a.len(),
{
    if a.len() == 0 {
        true
    } else {
        spec_dot_ok(a.drop_last(), b.drop_last()) && a.last().times_ok(b.last()) && spec_dot(
            a.drop_last(),
            b.drop_last(),
        ).plus_ok(a.last().spec_times(b.last()))
    }
}

/// The in-range condition for a dot product carries down to every
/// prefix of the operands.
pub(crate) proof fn lemma_dot_prefix_ok<T: Scalar>(a: Seq<T>, b: Seq<T>, i: int)
    requires
        a.len() == b.len(),
        0 <= i <= a.len(),
        spec_dot_ok(a, b),
    ensures
        spec_dot_ok(a.take(i), b.take(i)),
    decreases a.len() - i,
{
    if i == a.len() {
        assert(a.take(i) =~= a);
        assert(b.take(i) =~= b);
    } else {
        lemma_dot_prefix_ok(a, b, i + 1);
        assert(a.take(i + 1).drop_last() =~= a.take(i));
        assert(b.take(i + 1).drop_last() =~= b.take(i));
    }
}

impl<'a, T: Scalar> Row<'a, T> {
    /// The dot product of this row with a column of equal logical
    /// length: pairwise products folded into a zero-seeded sum.
    pub fn dot(self, rhs: Col<'a, T>) -> (r: T)
        requires
            self.wf(),
            rhs.wf(),
            self.matrix.col == rhs.matrix.row,
            spec_dot_ok(self@, rhs@),
        ensures
            r == spec_dot(self@, rhs@),
    {
        let n: usize = self.matrix.col;
        let mut sum: T = T::zero();
        let mut i: usize = 0;
        proof {
            crate::matrix::raw::lemma_row_end_in_bounds(
                self.row as int,
                self.matrix.row as int,
                self.matrix.col as int,
            );
            assert(self@.take(0) =~= Seq::<T>::empty());
            assert(rhs@.take(0) =~= Seq::<T>::empty());
        }
        while i < n
            invariant
                self.wf(),
                rhs.wf(),
                n == self.matrix.col,
                n == rhs.matrix.row,
                n == self@.len(),
                n == rhs@.len(),
                i <= n,
                spec_dot_ok(self@, rhs@),
                sum == spec_dot(self@.take(i as int), rhs@.take(i as int)),
            decreases n - i,
        {
            let x: T = *self.get(i).unwrap();
            let y: T = *rhs.get(i).unwrap();
            proof {
                lemma_dot_prefix_ok(self@, rhs@, i as int + 1);
                assert(self@.take(i as int + 1).drop_last() =~= self@.take(i as int));
                assert(rhs@.take(i as int + 1).drop_last() =~= rhs@.take(i as int));
                assert(self@.take(i as int + 1).last() == self@[i as int]);
                assert(rhs@.take(i as int + 1).last() == rhs@[i as int]);
                crate::matrix::raw::lemma_row_end_in_bounds(
                    self.row as int,
                    self.matrix.row as int,
                    self.matrix.col as int,
                );
                assert(self@[i as int] == self.matrix.ele(self.row as int, i as int));
                assert(rhs@[i as int] == rhs.matrix.ele(i as int, rhs.col as int));
            }
            let prod: T = x.times(y);
            sum = sum.plus(prod);
            i += 1;
        }
        proof {
            assert(self@.take(n as int) =~= self@);
            assert(rhs@.take(n as int) =~= rhs@);
        }
        sum
    }
}

/// Whether `b` is the mathematical transpose of `a`: extents swapped,
/// and element `(i, j)` of `b` equal to element `(j, i)` of `a`.
pub open spec fn is_transpose<T>(a: Matrix<T>, b: Matrix<T>) -> bool {
    &&& b.row == a.col
    &&& b.col == a.row
    &&& b.wf()
    &&& forall|i: int, j: int|
        0 <= i < b.row && 0 <= j < b.col ==> #[trigger] b.ele(i, j) == a.ele(j, i)
}

/// Which positions of an `n` x `n` matrix have already been exchanged
/// with their mirror image, once the in-place sweep has finished every
/// row before `r` and, within row `r`, every column before `j`.
pub open spec fn swept(a: int, b: int, r: int, j: int) -> bool {
    ||| (if a < b {
        a
    } else {
        b
    }) < r
    ||| a == r && r < b < j
    ||| b == r && r < a < j
}

/// The state of the in-place square sweep: every exchanged position
/// holds its mirror image from the original buffer `orig`, every other
/// position still holds its original value.
pub open spec fn swept_state<T>(cur: Seq<T>, orig: Seq<T>, n: int, r: int, j: int) -> bool {
    forall|a: int, b: int|
        0 <= a < n && 0 <= b < n ==> #[trigger] cur[a * n + b] == if swept(a, b, r, j) {
            orig[b * n + a]
        } else {
            orig[a * n + b]
        }
}

impl<T: Copy> Matrix<T> {
    /// The mathematical transpose. A vector (single row or column) only
    /// swaps its extents; a square matrix is transposed in place by
    /// exchanging each position above the diagonal with its mirror
    /// image; a rectangular matrix is copied into a freshly allocated
    /// `col` x `row` buffer.
    pub fn transpose(self) -> (r: Self)
        requires
            self.wf(),
        ensures
            is_transpose(self, r),
    {
        if self.col == 1 || self.row == 1 {
            let r = Self { col: self.row, row: self.col, data: self.data };
            proof {
                assert forall|i: int, j: int| 0 <= i < r.row && 0 <= j < r.col implies #[trigger] r.ele(
                    i,
                    j,
                ) == self.ele(j, i) by {
                    if self.col == 1 {
                        assert(i == 0);
                        assert(i * r.col + j == j) by (nonlinear_arith)
                            requires
                                i == 0,
                        ;
                        assert(j * self.col + i == j) by (nonlinear_arith)
                            requires
                                i == 0,
                                self.col == 1,
                        ;
                    } else {
                        assert(j == 0);
                        assert(i * r.col + j == i) by (nonlinear_arith)
                            requires
                                j == 0,
                                r.col == 1,
                        ;
                        assert(j * self.col + i == i) by (nonlinear_arith)
                            requires
                                j == 0,
                        ;
                    }
                }
            }
            r
        } else if self.col == self.row {
            self.transpose_square()
        } else {
            self.transpose_rect()
        }
    }

    /// The in-place path for a square matrix: for each row `r`, exchange
    /// `(r, j)` with `(j, r)` for every `j` above the diagonal. No
    /// allocation; the diagonal is never touched.
    fn transpose_square(self) -> (res: Self)
        requires
            self.wf(),
            self.row == self.col,
        ensures
            is_transpose(self, res),
    {
        let n_usize: usize = self.row;
        let ghost n: int = self.row as int;
        let ghost orig: Seq<T> = self.data@;
        let mut m = self;
        let mut r: usize = 0;
        proof {
            assert(swept_state(m.data@, orig, n, 0, 1));
        }
        while r < n_usize
            invariant
                m.row == n_usize,
                m.col == n_usize,
                n == n_usize as int,
                m.wf(),
                m.data@.len() == orig.len(),
                r <= n_usize,
                swept_state(m.data@, orig, n, r as int, r as int + 1),
            decreases n_usize - r,
        {
            let mut j: usize = r + 1;
            while j < n_usize
                invariant
                    m.row == n_usize,
                    m.col == n_usize,
                    n == n_usize as int,
                    m.wf(),
                    m.data@.len() == orig.len(),
                    r < n_usize,
                    r + 1 <= j <= n_usize,
                    swept_state(m.data@, orig, n, r as int, j as int),
                decreases n_usize - j,
            {
                proof {
                    vstd::std_specs::vec::axiom_spec_len(&m.data);
                    lemma_flat_in_bounds(r as int, j as int, n, n);
                    lemma_flat_in_bounds(j as int, r as int, n, n);
                }
                let f1: usize = r * n_usize + j;
                let f2: usize = j * n_usize + r;
                let ghost before: Seq<T> = m.data@;
                let tmp: T = m.data[f1];
                let other: T = m.data[f2];
                m.data[f1] = other;
                m.data[f2] = tmp;
                proof {
                    lemma_swap_step(m.data@, before, orig, n, r as int, j as int);
                }
                j += 1;
            }
            proof {
                lemma_row_done(m.data@, orig, n, r as int);
            }
            r += 1;
        }
        proof {
            assert forall|i: int, j: int| 0 <= i < n && 0 <= j < n implies #[trigger] m.ele(i, j)
                == self.ele(j, i) by {
                lemma_flat_in_bounds(i, j, n, n);
                lemma_flat_in_bounds(j, i, n, n);
                assert(m.data@[i * n + j] == if swept(i, j, n, n + 1) {
                    orig[j * n + i]
                } else {
                    orig[i * n + j]
                });
            }
        }
        m
    }

    /// The general rectangular path: allocate a fresh `col` x `row`
    /// buffer and copy `new[c][r] = old[r][c]` for every position.
    fn transpose_rect(self) -> (res: Self)
        requires
            self.wf(),
        ensures
            is_transpose(self, res),
    {
        let len = self.data.len();
        let mut out: Vec<T> = Vec::new();
        let mut i: usize = 0;
        while i < self.col
            invariant
                self.wf(),
                len == self@.len(),
                i <= self.col,
                out@.len() == i * self.row,
                forall|a: int, b: int|
                    0 <= a < i && 0 <= b < self.row ==> #[trigger] out@[a * self.row + b]
                        == self.data@[b * self.col + a],
            decreases self.col - i,
        {
            let mut j: usize = 0;
            while j < self.row
                invariant
                    self.wf(),
                    len == self@.len(),
                    i < self.col,
                    j <= self.row,
                    out@.len() == i * self.row + j,
                    forall|a: int, b: int|
                        0 <= a < i && 0 <= b < self.row ==> #[trigger] out@[a * self.row + b]
                            == self.data@[b * self.col + a],
                    forall|b: int|
                        0 <= b < j ==> #[trigger] out@[i as int * self.row + b] == self.data@[b
                            * self.col + i],
                decreases self.row - j,
            {
                proof {
                    lemma_flat_in_bounds(j as int, i as int, self.row as int, self.col as int);
                    lemma_flat_in_bounds(i as int, j as int, self.col as int, self.row as int);
                }
                let flat: usize = j * self.col + i;
                let ghost prev: Seq<T> = out@;
                out.push(self.data[flat]);
                proof {
                    let rows: int = self.row as int;
                    let ii: int = i as int;
                    let jj: int = j as int;
                    assert forall|a: int, b: int| 0 <= a < ii && 0 <= b < rows implies #[trigger] out@[
                        a * rows + b
                    ] == self.data@[b * self.col + a] by {
                        assert(a * rows + b < prev.len()) by (nonlinear_arith)
                            requires
                                0 <= a < ii,
                                0 <= b < rows,
                                0 <= jj,
                                prev.len() == ii * rows + jj,
                        ;
                        assert(out@[a * rows + b] == prev[a * rows + b]);
                    }
                    assert forall|b: int| 0 <= b < jj + 1 implies #[trigger] out@[ii * rows + b]
                        == self.data@[b * self.col + ii] by {
                        if b < jj {
                            assert(ii * rows + b < prev.len());
                            assert(out@[ii * rows + b] == prev[ii * rows + b]);
                        } else {
                            assert(out@[ii * rows + jj] == self.data@[jj * self.col + ii]);
                        }
                    }
                }
                j += 1;
            }
            proof {
                assert(i * self.row + self.row == (i + 1) * self.row) by (nonlinear_arith);
                lemma_col_done(out@, self.data@, i as int, self.row as int, self.col as int);
            }
            i += 1;
        }
        let res = Self { data: out, row: self.col, col: self.row };
        proof {
            assert(res@.len() == self.col * self.row) by (nonlinear_arith)
                requires
                    res@.len() == self.col as int * self.row as int,
            ;
            assert forall|a: int, b: int| 0 <= a < res.row && 0 <= b < res.col implies #[trigger] res.ele(
                a,
                b,
            ) == self.ele(b, a) by {
                lemma_flat_in_bounds(a, b, res.row as int, res.col as int);
                lemma_flat_in_bounds(b, a, self.row as int, self.col as int);
            }
        }
        res
    }
}

/// Commutativity law: wherever elementwise addition is defined at all,
/// it is defined both ways round and gives the same sums, so
/// `add(A, B)` and `add(B, A)` agree elementwise. The failure side is
/// symmetric as well: extents differ in one order exactly when they
/// differ in the other.
pub proof fn lemma_add_commutes<T: Scalar>(a: Seq<T>, b: Seq<T>)
    requires
        a.len() == b.len(),
        seq_plus_ok(a, b),
    ensures
        seq_plus_ok(b, a),
        seq_plus(a, b) == seq_plus(b, a),
{
    assert forall|i: int| 0 <= i < b.len() && i < a.len() implies #[trigger] b[i].plus_ok(a[i]) by {
        T::lemma_plus_comm(a[i], b[i]);
    }
    assert forall|i: int| 0 <= i < a.len() implies seq_plus(a, b)[i] == seq_plus(b, a)[i] by {
        T::lemma_plus_comm(a[i], b[i]);
    }
    assert(seq_plus(a, b) =~= seq_plus(b, a));
}

/// Involution law: transposing twice restores the original matrix, for
/// square and rectangular extents alike — the shape comes back and so
/// does every element of the flat buffer.
pub proof fn lemma_transpose_involution<T>(a: Matrix<T>, b: Matrix<T>, c: Matrix<T>)
    requires
        a.wf(),
        is_transpose(a, b),
        is_transpose(b, c),
    ensures
        c.row == a.row,
        c.col == a.col,
        c.wf(),
        c@ == a@,
{
    let rows = a.row as int;
    let cols = a.col as int;
    assert forall|k: int| 0 <= k < a@.len() implies c@[k] == a@[k] by {
        vstd::arithmetic::div_mod::lemma_fundamental_div_mod(k, cols);
        let i = k / cols;
        let j = k % cols;
        assert(0 <= j < cols && 0 <= i < rows && k == i * cols + j) by (nonlinear_arith)
            requires
                cols > 0,
                k == cols * i + j,
                j == k % cols,
                0 <= k < rows * cols,
        ;
        lemma_flat_in_bounds(i, j, rows, cols);
        assert(c.ele(i, j) == b.ele(j, i));
        assert(b.ele(j, i) == a.ele(i, j));
    }
    assert(c@ =~= a@);
}

/// After exchanging `(r, j)` with `(j, r)`, the sweep state advances by
/// one column: exactly the freshly exchanged pair joins the mirrored
/// region, and flat-offset injectivity shows nothing else moved.
proof fn lemma_swap_step<T>(cur: Seq<T>, before: Seq<T>, orig: Seq<T>, n: int, r: int, j: int)
    requires
        0 <= r < n,
        r < j < n,
        orig.len() == n * n,
        before.len() == n * n,
        swept_state(before, orig, n, r, j),
        cur == before.update(r * n + j, before[j * n + r]).update(j * n + r, before[r * n + j]),
    ensures
        swept_state(cur, orig, n, r, j + 1),
{
    lemma_flat_in_bounds(r, j, n, n);
    lemma_flat_in_bounds(j, r, n, n);
    assert(r * n + j != j * n + r) by {
        if r * n + j == j * n + r {
            crate::matrix::raw::lemma_flat_injective(r, j, j, r, n);
        }
    }
    assert forall|a: int, b: int| 0 <= a < n && 0 <= b < n implies #[trigger] cur[a * n + b] == (
    if swept(a, b, r, j + 1) {
        orig[b * n + a]
    } else {
        orig[a * n + b]
    }) by {
        lemma_flat_in_bounds(a, b, n, n);
        if a * n + b == r * n + j {
            crate::matrix::raw::lemma_flat_injective(a, b, r, j, n);
        } else if a * n + b == j * n + r {
            crate::matrix::raw::lemma_flat_injective(a, b, j, r, n);
        }
    }
}

/// Once the sweep has exchanged every column of row `r` above the
/// diagonal, its state is exactly the starting state for row `r + 1`.
proof fn lemma_row_done<T>(cur: Seq<T>, orig: Seq<T>, n: int, r: int)
    requires
        0 <= r < n,
        orig.len() == n * n,
        cur.len() == n * n,
        swept_state(cur, orig, n, r, n),
    ensures
        swept_state(cur, orig, n, r + 1, r + 2),
{
    assert forall|a: int, b: int| 0 <= a < n && 0 <= b < n implies #[trigger] cur[a * n + b] == (
    if swept(a, b, r + 1, r + 2) {
        orig[b * n + a]
    } else {
        orig[a * n + b]
    }) by {
        lemma_flat_in_bounds(a, b, n, n);
        assert(cur[a * n + b] == if swept(a, b, r, n) {
            orig[b * n + a]
        } else {
            orig[a * n + b]
        });
        if a == r && b == r {
            assert(orig[b * n + a] == orig[a * n + b]);
        }
    }
}

/// Once every row position of output column `i` has been appended, the
/// completed block covers all positions `a <= i` of the transposed grid.
proof fn lemma_col_done<T>(out: Seq<T>, data: Seq<T>, i: int, rows: int, cols: int)
    requires
        0 <= i < cols,
        0 <= rows,
        out.len() == i * rows + rows,
        forall|a: int, b: int|
            0 <= a < i && 0 <= b < rows ==> #[trigger] out[a * rows + b] == data[b * cols + a],
        forall|b: int| 0 <= b < rows ==> #[trigger] out[i * rows + b] == data[b * cols + i],
    ensures
        out.len() == (i + 1) * rows,
        forall|a: int, b: int|
            0 <= a < i + 1 && 0 <= b < rows ==> #[trigger] out[a * rows + b] == data[b * cols + a],
{
    assert(out.len() == (i + 1) * rows) by (nonlinear_arith)
        requires
            out.len() == i * rows + rows,
    ;
    assert forall|a: int, b: int| 0 <= a < i + 1 && 0 <= b < rows implies #[trigger] out[a * rows
        + b] == data[b * cols + a] by {
        if a < i {
        } else {
            assert(a == i);
        }
    }
}

} // verus!
