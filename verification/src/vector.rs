//! Owned one-dimensional carriers: a row copied out of a matrix, and a
//! column copied out of a matrix. Their dot product is the row-times-
//! column building block of matrix multiplication.

use vstd::prelude::*;

use crate::matrix::ops::{spec_dot, spec_dot_ok, Scalar};

verus! {

/// An owned copy of a matrix row.
pub struct RowVec<T> {
    pub data: Vec<T>,
}

/// An owned copy of a matrix column.
pub struct ColVec<T> {
    pub data: Vec<T>,
}

impl<T: Scalar> RowVec<T> {
    /// The dot product of this row with a column of equal length:
    /// pairwise products folded into a zero-seeded sum.
    pub fn dot(self, rhs: ColVec<T>) -> (r: T)
        requires
            self.data@.len() == rhs.data@.len(),
            spec_dot_ok(self.data@, rhs.data@),
        ensures
            r == spec_dot(self.data@, rhs.data@),
    {
        let n: usize = self.data.len();
        let mut sum: T = T::zero();
        let mut i: usize = 0;
        proof {
            assert(self.data@.take(0) =~= Seq::<T>::empty());
            assert(rhs.data@.take(0) =~= Seq::<T>::empty());
        }
        while i < n
            invariant
                n == self.data@.len(),
                n == rhs.data@.len(),
                i <= n,
                spec_dot_ok(self.data@, rhs.data@),
                sum == spec_dot(self.data@.take(i as int), rhs.data@.take(i as int)),
            decreases n - i,
        {
            let x: T = self.data[i];
            let y: T = rhs.data[i];
            proof {
                crate::matrix::ops::lemma_dot_prefix_ok(self.data@, rhs.data@, i as int + 1);
                assert(self.data@.take(i as int + 1).drop_last() =~= self.data@.take(i as int));
                assert(rhs.data@.take(i as int + 1).drop_last() =~= rhs.data@.take(i as int));
                assert(self.data@.take(i as int + 1).last() == self.data@[i as int]);
                assert(rhs.data@.take(i as int + 1).last() == rhs.data@[i as int]);
            }
            let prod: T = x.times(y);
            sum = sum.plus(prod);
            i += 1;
        }
        proof {
            assert(self.data@.take(n as int) =~= self.data@);
            assert(rhs.data@.take(n as int) =~= rhs.data@);
        }
        sum
    }
}

} // verus!
