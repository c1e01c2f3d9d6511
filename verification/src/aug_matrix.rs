//! The augmented-matrix pipeline: matrix, row operations, and the
//! elimination stages.

use vstd::prelude::*;

pub mod access_traits;
pub mod matrix;
pub mod row_echolon;

pub use access_traits::{MatrixRead, MatrixRowOps, MatrixToSquare};
pub use matrix::Matrix;
pub use row_echolon::{
    ElimObserver, PivotStrategy, ReducedRowEcholon, RowEcholon, SilentObserver, SquareMatrix,
};

verus! {

/// Construction failure: the raw rows were absent or of unequal length.
#[derive(Debug)]
pub struct MalformedMatrixError;

} // verus!
