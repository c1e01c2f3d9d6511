//! Gauss-Jordan elimination over field-like scalars.
//!
//! An augmented matrix (coefficient columns followed by one target column) is
//! driven through a linear pipeline: `Matrix` -> `RowEcholon` (forward
//! elimination) -> `SquareMatrix` (full-rank validation and crop) ->
//! `ReducedRowEcholon` (backward elimination), after which the last column
//! holds the solution vector.

pub mod scalar;
pub mod gf11;
pub mod model;
pub mod aug_matrix;
pub mod matrix;
