//! A minimal matrix wrapper: validated construction from raw rows, and read
//! access to them, with no arithmetic attached.

use vstd::prelude::*;
use crate::model::{grid_of, rectangular};

verus! {

/// Construction failure: the raw rows were absent or of unequal length.
pub struct MalformedMatrixError;

/// An ordered collection of equally long rows.
pub struct Matrix<M>(Vec<Vec<M>>);

impl<M> View for Matrix<M> {
    type V = Seq<Seq<M>>;

    closed spec fn view(&self) -> Seq<Seq<M>> {
        grid_of(self.0@)
    }
}

impl<M> Matrix<M> {
    /// Accepts the raw rows when they form a non-empty rectangular grid;
    /// rejects an empty grid or rows of differing lengths.
    pub fn from_raw(raw: Vec<Vec<M>>) -> (r: Result<Self, MalformedMatrixError>)
        ensures
            r is Ok <==> (raw@.len() > 0 && rectangular(grid_of(raw@))),
            r matches Ok(m) ==> m@ == grid_of(raw@),
    {
        if raw.len() == 0 {
            return Err(MalformedMatrixError);
        }
        let first_length = raw[0].len();
        let mut i: usize = 1;
        while i < raw.len()
            invariant
                1 <= i <= raw@.len(),
                first_length == grid_of(raw@)[0].len(),
                forall|t: int| 0 <= t < i ==> (#[trigger] grid_of(raw@)[t]).len() == first_length,
            decreases raw@.len() - i,
        {
            if raw[i].len() != first_length {
                assert(grid_of(raw@)[i as int].len() != grid_of(raw@)[0].len());
                assert(!rectangular(grid_of(raw@)));
                return Err(MalformedMatrixError);
            }
            i += 1;
        }
        assert(rectangular(grid_of(raw@)));
        Ok(Matrix(raw))
    }

    /// Borrows the rows.
    pub fn rows(&self) -> (r: &Vec<Vec<M>>)
        ensures
            grid_of(r@) == self@,
    {
        &self.0
    }
}

} // verus!
