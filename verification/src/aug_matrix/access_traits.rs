//! The access interface of an augmented matrix.
//!
//! Pipeline stages work through these traits: reading the raw grid, the row
//! exchange used for pivoting, and the crop that turns a row-echelon matrix
//! into an exact coefficient square.  `Mv` is the scalar element type of the
//! matrix.  The arithmetic row updates (`scale_row`, `add_scaled_row`) sit on
//! the matrix type itself: their contracts speak of scalar arithmetic on the
//! element type, which Verus cannot yet state on a trait method over the
//! trait's generic element.

use vstd::prelude::*;
use crate::model::grid_of;
use crate::scalar::Scalar;

verus! {

/// Read access to the underlying grid of rows.
pub trait MatrixRead<Mv> {
    /// The grid as a sequence of rows of scalars.
    spec fn entries(&self) -> Seq<Seq<Mv>>;

    /// Borrows the raw rows.
    fn inner(&self) -> (r: &Vec<Vec<Mv>>)
        ensures
            grid_of(r@) == self.entries(),
    ;
}

/// The row exchange of Gauss-Jordan elimination.
pub trait MatrixRowOps<Mv: Scalar>: MatrixRead<Mv> {
    /// Exchanges rows `row1` and `row2`.
    fn swap_rows(&mut self, row1: usize, row2: usize)
        requires
            row1 < old(self).entries().len(),
            row2 < old(self).entries().len(),
        ensures
            final(self).entries().len() == old(self).entries().len(),
            final(self).entries()[row1 as int] == old(self).entries()[row2 as int],
            final(self).entries()[row2 as int] == old(self).entries()[row1 as int],
            forall|t: int|
                0 <= t < old(self).entries().len() && t != row1 && t != row2
                    ==> final(self).entries()[t] == old(self).entries()[t],
    ;
}

/// Cropping a matrix to an exact coefficient square.
pub trait MatrixToSquare<Mv>: MatrixRead<Mv> {
    /// Truncates the rows to the coefficient width (the row length without
    /// the target column), discarding any surplus rows.
    fn crop_matrix(&mut self)
        requires
            old(self).entries().len() > 0,
            old(self).entries()[0].len() >= 1,
        ensures
            old(self).entries()[0].len() - 1 <= old(self).entries().len() ==> final(self).entries()
                == old(self).entries().subrange(0, old(self).entries()[0].len() - 1),
            old(self).entries()[0].len() - 1 > old(self).entries().len() ==> final(self).entries()
                == old(self).entries(),
    ;
}

} // verus!
