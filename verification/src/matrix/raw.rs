//! The flat-offset arithmetic behind the views: facts about the
//! row-major mapping `(r, c) -> r * cols + c`, kept private to the
//! crate so that no caller ever works with raw offsets directly.

use vstd::prelude::*;

verus! {

/// A flat offset computed from an in-range position lies inside the
/// buffer, so every bounds-checked view access stays in bounds.
pub(crate) proof fn lemma_flat_in_bounds(r: int, c: int, rows: int, cols: int)
    requires
        0 <= r < rows,
        0 <= c < cols,
    ensures
        0 <= r * cols + c < rows * cols,
        r * cols + c < rows * cols,
{
    assert(r * cols + c < rows * cols) by (nonlinear_arith)
        requires
            0 <= r < rows,
            0 <= c < cols,
    ;
    assert(0 <= r * cols) by (nonlinear_arith)
        requires
            0 <= r,
            0 <= cols,
    ;
}

/// A whole row ends no later than the buffer does.
pub(crate) proof fn lemma_row_end_in_bounds(r: int, rows: int, cols: int)
    requires
        0 <= r < rows,
        0 <= cols,
    ensures
        0 <= r * cols,
        r * cols + cols <= rows * cols,
{
    assert(0 <= r * cols && r * cols + cols <= rows * cols) by (nonlinear_arith)
        requires
            0 <= r < rows,
            0 <= cols,
    ;
}

/// The row-major mapping is injective on in-range positions: distinct
/// `(r, c)` pairs never collide at one flat offset. This is the heart
/// of the aliasing argument — exclusive access to one element is
/// exclusive access to one flat slot.
pub(crate) proof fn lemma_flat_injective(r1: int, c1: int, r2: int, c2: int, cols: int)
    requires
        0 <= c1 < cols,
        0 <= c2 < cols,
        0 <= r1,
        0 <= r2,
        r1 * cols + c1 == r2 * cols + c2,
    ensures
        r1 == r2,
        c1 == c2,
{
    assert(r1 == r2 && c1 == c2) by (nonlinear_arith)
        requires
            0 <= c1 < cols,
            0 <= c2 < cols,
            0 <= r1,
            0 <= r2,
            r1 * cols + c1 == r2 * cols + c2,
    ;
}

} // verus!
