//! A dense two-dimensional matrix over a flat row-major buffer, with
//! shared and exclusive row/column views, reshaping, elementwise
//! addition, transposition and dot products, all carrying verified
//! contracts.

pub mod matrix;
pub mod vector;
