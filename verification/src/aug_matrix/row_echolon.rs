//! The elimination stages: forward elimination to row-echelon form, the
//! square validation and crop, backward elimination to reduced row-echelon
//! form, and solution extraction.
//!
//! Every stage preserves the solution set of the system it was handed; the
//! crop only shrinks it.  The contracts state this over `system_satisfied`,
//! so a vector extracted at the end is proved to satisfy a square input
//! system.

use vstd::prelude::*;
use crate::model::{
    coeff_count, grid_of, grid_wf, identity_block, is_zero_row, lemma_identity_solution,
    lemma_nonzero_count_step, lemma_system_add_scaled, lemma_system_scale, lemma_system_swap,
    mat_wf, no_pivot_column, nonzero_row_count, pivot_column_done, pivots_done_upto, rectangular,
    row_add_scaled,
    row_scaled, row_wf, rows_swapped, system_satisfied, width,
};
use crate::scalar::{Scalar, lemma_zero_add, lemma_zero_mul};
use super::access_traits::{MatrixRead, MatrixRowOps, MatrixToSquare};
use super::matrix::Matrix;

verus! {

/// How forward elimination picks the pivot of each column: take the diagonal
/// entry and, only when it is zero, the first non-zero entry below it; or
/// always take the entry of largest magnitude in the column (partial
/// pivoting, for element types where rounding matters).
#[derive(Clone, Copy, PartialEq, Eq, Debug)]
pub enum PivotStrategy {
    FirstNonZero,
    MaxMagnitude,
}

/// Diagnostic hooks the elimination calls at its decision points; inject an
/// implementation to observe pivot choices and singularity detection.
pub trait ElimObserver {
    /// Column `column` is eliminated around the pivot found in `pivot_row`.
    fn pivot_chosen(&mut self, column: usize, pivot_row: usize);

    /// No usable pivot exists in `column`: the system is singular.
    fn singular_column(&mut self, column: usize);
}

/// The default observer: it ignores every event.
pub struct SilentObserver;

impl ElimObserver for SilentObserver {
    fn pivot_chosen(&mut self, _column: usize, _pivot_row: usize) {
    }

    fn singular_column(&mut self, _column: usize) {
    }
}

/// A matrix in forward-eliminated form.  When every pivot was found
/// (`pivots_complete`), each diagonal entry of the coefficient block is one
/// with zeros below it; otherwise elimination stopped at a singular column.
pub struct RowEcholon<T: Scalar> {
    m: Matrix<T>,
    complete: bool,
}

impl<T: Scalar> View for RowEcholon<T> {
    type V = Seq<Seq<T>>;

    closed spec fn view(&self) -> Seq<Seq<T>> {
        self.m@
    }
}

/// A matrix cropped to an exact coefficient square with unit pivots.
pub struct SquareMatrix<T: Scalar> {
    m: Matrix<T>,
}

impl<T: Scalar> View for SquareMatrix<T> {
    type V = Seq<Seq<T>>;

    closed spec fn view(&self) -> Seq<Seq<T>> {
        self.m@
    }
}

/// A square matrix whose coefficient block is the identity; the target
/// column holds the solution.
pub struct ReducedRowEcholon<T: Scalar> {
    m: Matrix<T>,
}

impl<T: Scalar> View for ReducedRowEcholon<T> {
    type V = Seq<Seq<T>>;

    closed spec fn view(&self) -> Seq<Seq<T>> {
        self.m@
    }
}

/// Decides whether the whole row is zero.
fn row_is_zero<T: Scalar>(row: &Vec<T>) -> (r: bool)
    requires
        row_wf(row@),
    ensures
        r == is_zero_row(row@),
{
    let n = row.len();
    let mut k: usize = 0;
    while k < n
        invariant
            k <= n,
            n == row@.len(),
            row_wf(row@),
            forall|t: int| 0 <= t < k ==> #[trigger] row@[t] == T::sp_zero(),
        decreases n - k,
    {
        if !row[k].is_zero() {
            return false;
        }
        k += 1;
    }
    true
}

impl<T: Scalar> RowEcholon<T> {
    /// Whether every coefficient column received a unit pivot.
    pub closed spec fn pivots_complete(&self) -> bool {
        self.complete
    }

    /// Shape and elimination invariants of this stage.
    pub open spec fn wf(self) -> bool {
        &&& mat_wf(self@)
        &&& width(self@) >= 2
        &&& (self.pivots_complete() ==> coeff_count(self@) <= self@.len() && pivots_done_upto(
            self@,
            coeff_count(self@),
        ))
    }

    /// Forward elimination with the default pivot handling.
    pub fn from(m: Matrix<T>) -> (r: RowEcholon<T>)
        requires
            mat_wf(m@),
            width(m@) >= 2,
        ensures
            r.wf(),
            r@.len() == m@.len(),
            width(r@) == width(m@),
            !r.pivots_complete() ==> exists|c: int|
                0 <= c < coeff_count(r@) && c <= r@.len() && pivots_done_upto(r@, c)
                    && #[trigger] no_pivot_column(r@, c),
            forall|x: Seq<T>|
                x.len() == coeff_count(m@) && row_wf(x) ==> (system_satisfied(m@, x)
                    <==> #[trigger] system_satisfied(r@, x)),
    {
        let mut observer = SilentObserver;
        Self::from_with(m, PivotStrategy::FirstNonZero, &mut observer)
    }

    /// Forward elimination.  For each coefficient column a pivot is selected
    /// by `strategy` and swapped onto the diagonal, the pivot row is
    /// normalized by the pivot's inverse, and every lower row has its entry
    /// in that column eliminated.  A column without a usable pivot makes the
    /// system singular: elimination stops and the result is marked
    /// incomplete.  The solution set of the system is preserved exactly.
    pub fn from_with<O: ElimObserver>(m: Matrix<T>, strategy: PivotStrategy, observer: &mut O) -> (r:
        RowEcholon<T>)
        requires
            mat_wf(m@),
            width(m@) >= 2,
        ensures
            r.wf(),
            r@.len() == m@.len(),
            width(r@) == width(m@),
            !r.pivots_complete() ==> exists|c: int|
                0 <= c < coeff_count(r@) && c <= r@.len() && pivots_done_upto(r@, c)
                    && #[trigger] no_pivot_column(r@, c),
            forall|x: Seq<T>|
                x.len() == coeff_count(m@) && row_wf(x) ==> (system_satisfied(m@, x)
                    <==> #[trigger] system_satisfied(r@, x)),
    {
        let ghost m0 = m@;
        let mut mm = m;
        let rows = mm.row_count();
        let cols = mm.column_count();
        let n = cols - 1;
        let mut complete: bool = true;
        let mut i: usize = 0;
        while i < n && complete
            invariant
                mat_wf(mm@),
                mm@.len() == m0.len(),
                width(mm@) == width(m0),
                rows == m0.len(),
                cols == width(m0),
                cols >= 2,
                n == cols - 1,
                i <= n,
                complete ==> i <= rows && pivots_done_upto(mm@, i as int),
                !complete ==> exists|c: int|
                    0 <= c < n && c <= mm@.len() && pivots_done_upto(mm@, c)
                        && #[trigger] no_pivot_column(mm@, c),
                forall|x: Seq<T>|
                    x.len() == n && row_wf(x) ==> (system_satisfied(m0, x)
                        <==> #[trigger] system_satisfied(mm@, x)),
            decreases n - i, (if complete {
                1int
            } else {
                0int
            }),
        {
            // select the pivot row for column i
            let mut pivot_row: usize = i;
            let mut found: bool = false;
            if i < rows {
                match strategy {
                    PivotStrategy::FirstNonZero => {
                        if !mm.entry(i, i).is_zero() {
                            found = true;
                        } else {
                            let mut rr: usize = i + 1;
                            while rr < rows && !found
                                invariant
                                    i + 1 <= rr <= rows,
                                    i < rows,
                                    i < n,
                                    rows == mm@.len(),
                                    cols == width(mm@),
                                    n == cols - 1,
                                    mat_wf(mm@),
                                    mm@[i as int][i as int] == T::sp_zero(),
                                    found ==> i <= pivot_row < rows && mm@[pivot_row as int][i as int]
                                        != T::sp_zero(),
                                    !found ==> forall|t: int|
                                        i < t < rr ==> #[trigger] mm@[t][i as int] == T::sp_zero(),
                                decreases rows - rr, (if found {
                                    0int
                                } else {
                                    1int
                                }),
                            {
                                if !mm.entry(rr, i).is_zero() {
                                    pivot_row = rr;
                                    found = true;
                                } else {
                                    rr += 1;
                                }
                            }
                            proof {
                                if !found {
                                    assert(forall|t: int|
                                        i <= t < rows ==> #[trigger] mm@[t][i as int]
                                            == T::sp_zero());
                                }
                            }
                        }
                    },
                    PivotStrategy::MaxMagnitude => {
                        let mut best: usize = i;
                        proof {
                            assert(row_wf(mm@[i as int]));
                            T::lemma_abs_ge_total(mm@[i as int][i as int], mm@[i as int][i as int]);
                        }
                        let mut rr: usize = i + 1;
                        while rr < rows
                            invariant
                                i + 1 <= rr <= rows,
                                i <= best < rows,
                                i < rows,
                                i < n,
                                rows == mm@.len(),
                                cols == width(mm@),
                                n == cols - 1,
                                mat_wf(mm@),
                                forall|t: int|
                                    i <= t < rr ==> mm@[best as int][i as int].sp_abs_ge(
                                        #[trigger] mm@[t][i as int],
                                    ),
                            decreases rows - rr,
                        {
                            let cur = mm.entry(rr, i);
                            let best_entry = mm.entry(best, i);
                            if cur.abs_ge(best_entry) {
                                let ghost prev = best as int;
                                best = rr;
                                proof {
                                    assert forall|t: int|
                                        i <= t < rr + 1 implies mm@[best as int][i as int].sp_abs_ge(
                                        #[trigger] mm@[t][i as int],
                                    ) by {
                                        assert(row_wf(mm@[best as int]));
                                        assert(row_wf(mm@[prev]));
                                        assert(row_wf(mm@[t]));
                                        if t < rr {
                                            T::lemma_abs_ge_trans(
                                                mm@[best as int][i as int],
                                                mm@[prev][i as int],
                                                mm@[t][i as int],
                                            );
                                        } else {
                                            T::lemma_abs_ge_total(
                                                mm@[best as int][i as int],
                                                mm@[best as int][i as int],
                                            );
                                        }
                                    }
                                }
                            } else {
                                proof {
                                    assert(row_wf(mm@[best as int]));
                                    assert(row_wf(mm@[rr as int]));
                                    T::lemma_abs_ge_total(
                                        mm@[rr as int][i as int],
                                        mm@[best as int][i as int],
                                    );
                                }
                            }
                            rr += 1;
                        }
                        if !mm.entry(best, i).is_zero() {
                            pivot_row = best;
                            found = true;
                        } else {
                            proof {
                                assert forall|t: int|
                                    i <= t < rows implies #[trigger] mm@[t][i as int]
                                    == T::sp_zero() by {
                                    assert(row_wf(mm@[best as int]));
                                    assert(row_wf(mm@[t]));
                                    T::lemma_abs_ge_zero(
                                        mm@[best as int][i as int],
                                        mm@[t][i as int],
                                    );
                                }
                            }
                        }
                    },
                }
            }
            if !found {
                observer.singular_column(i);
                proof {
                    assert(pivots_done_upto(mm@, i as int));
                    assert(no_pivot_column(mm@, i as int));
                }
                complete = false;
            } else {
                observer.pivot_chosen(i, pivot_row);
                let ghost before_swap = mm@;
                mm.swap_rows(i, pivot_row);
                proof {
                    assert(mm@ =~= rows_swapped(before_swap, i as int, pivot_row as int));
                    assert forall|j: int| 0 <= j < i implies #[trigger] pivot_column_done(
                        mm@,
                        j,
                    ) by {
                        assert(pivot_column_done(before_swap, j));
                        assert(mm@[j] == before_swap[j]);
                        assert forall|t: int| j < t < mm@.len() implies #[trigger] mm@[t][j]
                            == T::sp_zero() by {
                            if t == i as int {
                                assert(mm@[t] == before_swap[pivot_row as int]);
                            } else if t == pivot_row as int {
                                assert(mm@[t] == before_swap[i as int]);
                            } else {
                                assert(mm@[t] == before_swap[t]);
                            }
                        }
                    }
                    assert forall|i2: int| 0 <= i2 < mm@.len() implies row_wf(
                        #[trigger] mm@[i2],
                    ) by {
                        assert(grid_wf(before_swap));
                        if i2 == i as int {
                            assert(mm@[i2] == before_swap[pivot_row as int]);
                        } else if i2 == pivot_row as int {
                            assert(mm@[i2] == before_swap[i as int]);
                        } else {
                            assert(mm@[i2] == before_swap[i2]);
                        }
                    }
                    assert forall|x: Seq<T>|
                        x.len() == n && row_wf(x) implies (system_satisfied(m0, x)
                        <==> #[trigger] system_satisfied(mm@, x)) by {
                        lemma_system_swap(before_swap, i as int, pivot_row as int, x);
                    }
                }
                let piv = mm.entry(i, i);
                proof {
                    T::lemma_mul_inv(piv);
                }
                let s = piv.inv();
                let ghost before_scale = mm@;
                mm.scale_row(i, &s);
                proof {
                    assert(mm@ == before_scale.update(
                        i as int,
                        row_scaled(before_scale[i as int], piv.sp_inv()),
                    ));
                    // the pivot becomes one, and earlier zeros in the pivot
                    // row stay zero
                    assert(mm@[i as int][i as int] == piv.sp_mul(piv.sp_inv()));
                    assert forall|j: int| 0 <= j < i implies #[trigger] pivot_column_done(
                        mm@,
                        j,
                    ) by {
                        assert(pivot_column_done(before_scale, j));
                        assert(mm@[j] == before_scale[j]);
                        assert forall|t: int| j < t < mm@.len() implies #[trigger] mm@[t][j]
                            == T::sp_zero() by {
                            if t == i as int {
                                assert(before_scale[t][j] == T::sp_zero());
                                lemma_zero_mul(piv.sp_inv());
                            } else {
                                assert(mm@[t] == before_scale[t]);
                            }
                        }
                    }
                    assert forall|x: Seq<T>|
                        x.len() == n && row_wf(x) implies (system_satisfied(m0, x)
                        <==> #[trigger] system_satisfied(mm@, x)) by {
                        if x.len() == n && row_wf(x) {
                            lemma_system_scale(before_scale, i as int, piv.sp_inv(), x);
                        }
                    }
                }
                // eliminate the entries below the pivot
                let mut r: usize = i + 1;
                while r < rows
                    invariant
                        i + 1 <= r <= rows,
                        i < rows,
                        i < n,
                        rows == mm@.len(),
                        cols == width(mm@),
                        n == cols - 1,
                        mm@.len() == m0.len(),
                        width(mm@) == width(m0),
                        cols == width(m0),
                        mat_wf(mm@),
                        pivots_done_upto(mm@, i as int),
                        mm@[i as int][i as int] == T::sp_one(),
                        forall|t: int| i < t < r ==> #[trigger] mm@[t][i as int] == T::sp_zero(),
                        forall|x: Seq<T>|
                            x.len() == n && row_wf(x) ==> (system_satisfied(m0, x)
                                <==> #[trigger] system_satisfied(mm@, x)),
                    decreases rows - r,
                {
                    let c = mm.entry(r, i);
                    proof {
                        T::lemma_ops_wf(c, c);
                    }
                    let nc = c.neg();
                    let ghost before = mm@;
                    mm.add_scaled_row(r, i, &nc);
                    proof {
                        assert(mm@ == before.update(
                            r as int,
                            row_add_scaled(before[r as int], before[i as int], c.sp_neg()),
                        ));
                        // the eliminated entry: c + (-c) * 1 == 0
                        T::lemma_mul_one(c.sp_neg());
                        T::lemma_add_neg(c);
                        assert(mm@[r as int][i as int] == T::sp_zero());
                        // earlier columns of row r stay zero
                        T::lemma_consts_wf();
                        assert forall|j: int| 0 <= j < i implies #[trigger] pivot_column_done(
                            mm@,
                            j,
                        ) by {
                            assert(pivot_column_done(before, j));
                            assert(mm@[j] == before[j]);
                            assert forall|t: int| j < t < mm@.len() implies #[trigger] mm@[t][j]
                                == T::sp_zero() by {
                                if t == r as int {
                                    assert(before[t][j] == T::sp_zero());
                                    assert(before[i as int][j] == T::sp_zero());
                                    T::lemma_mul_zero(c.sp_neg());
                                    lemma_zero_add(T::sp_zero());
                                } else {
                                    assert(mm@[t] == before[t]);
                                }
                            }
                        }
                        assert forall|x: Seq<T>|
                            x.len() == n && row_wf(x) implies (system_satisfied(m0, x)
                            <==> #[trigger] system_satisfied(mm@, x)) by {
                            if x.len() == n && row_wf(x) {
                                lemma_system_add_scaled(before, r as int, i as int, c.sp_neg(), x);
                            }
                        }
                    }
                    r += 1;
                }
                proof {
                    assert forall|j: int| 0 <= j < i + 1 implies #[trigger] pivot_column_done(
                        mm@,
                        j,
                    ) by {
                        if j == i as int {
                            assert(mm@[j][j] == T::sp_one());
                        }
                    }
                }
                i += 1;
            }
        }
        let result = RowEcholon { m: mm, complete };
        proof {
            assert(result.wf());
        }
        result
    }

    /// Whether the eliminated matrix has exactly as many non-zero rows as
    /// coefficient columns: the full-rank, unique-solution candidate test.
    pub fn is_solvable(&self) -> (r: bool)
        requires
            self.wf(),
        ensures
            r == (nonzero_row_count(self@) == coeff_count(self@)),
    {
        let rows = self.m.row_count();
        let cols = self.m.column_count();
        let raw = self.m.inner();
        let mut count: usize = 0;
        let mut i: usize = 0;
        while i < rows
            invariant
                i <= rows,
                rows == self@.len(),
                count <= i,
                mat_wf(self@),
                grid_of(raw@) == self@,
                count == nonzero_row_count(self@.take(i as int)),
            decreases rows - i,
        {
            proof {
                assert(raw@[i as int]@ == grid_of(raw@)[i as int]);
            }
            let zr = row_is_zero(&raw[i]);
            proof {
                lemma_nonzero_count_step(self@, i as int);
            }
            if !zr {
                count += 1;
            }
            i += 1;
        }
        proof {
            assert(self@.take(rows as int) =~= self@);
        }
        count == cols - 1
    }
}

impl<T: Scalar> SquareMatrix<T> {
    /// Shape and elimination invariants of this stage: an exact coefficient
    /// square with unit pivots and zeros below them.
    pub open spec fn wf(self) -> bool {
        &&& mat_wf(self@)
        &&& width(self@) >= 2
        &&& self@.len() == coeff_count(self@)
        &&& pivots_done_upto(self@, coeff_count(self@))
    }

    /// Validates the row-echelon matrix and crops it to an exact coefficient
    /// square: the elimination must have found every pivot, there must be at
    /// least as many rows as coefficient columns, and none of the first
    /// `coeff_count` rows may be entirely zero; surplus rows are discarded.
    /// Rejection means the system has no unique solution.
    pub fn try_from_row_echolon(m: RowEcholon<T>) -> (r: Option<SquareMatrix<T>>)
        requires
            m.wf(),
        ensures
            r is Some <==> (m.pivots_complete() && m@.len() >= coeff_count(m@)),
            r matches Some(sq) ==> {
                &&& sq@ == m@.subrange(0, coeff_count(m@))
                &&& sq.wf()
                &&& width(sq@) == width(m@)
                &&& forall|x: Seq<T>|
                    system_satisfied(m@, x) ==> #[trigger] system_satisfied(sq@, x)
            },
    {
        let rows = m.m.row_count();
        let cols = m.m.column_count();
        let n = cols - 1;
        if !m.complete {
            return None;
        }
        if rows < n {
            return None;
        }
        // the validator's rule: none of the first n rows may be entirely zero
        let raw = m.m.inner();
        let mut j: usize = 0;
        while j < n
            invariant
                j <= n,
                n == coeff_count(m@),
                rows == m@.len(),
                n <= rows,
                m.wf(),
                m.pivots_complete(),
                grid_of(raw@) == m@,
            decreases n - j,
        {
            proof {
                assert(raw@[j as int]@ == grid_of(raw@)[j as int]);
            }
            let zr = row_is_zero(&raw[j]);
            if zr {
                proof {
                    // impossible: column j has a unit pivot in row j
                    assert(pivot_column_done(m@, j as int));
                    T::lemma_consts_wf();
                    assert(m@[j as int][j as int] == T::sp_one());
                    assert(false);
                }
                return None;
            }
            j += 1;
        }
        let ghost e = m@;
        let mut mm = m.m;
        mm.crop_matrix();
        let sq = SquareMatrix { m: mm };
        proof {
            assert(sq@ == e.subrange(0, n as int));
            assert(rectangular(sq@));
            assert forall|i2: int| 0 <= i2 < sq@.len() implies row_wf(#[trigger] sq@[i2]) by {
                assert(sq@[i2] == e[i2]);
                assert(grid_wf(e));
            }
            assert forall|j2: int| 0 <= j2 < n implies #[trigger] pivot_column_done(
                sq@,
                j2,
            ) by {
                assert(pivot_column_done(e, j2));
                assert forall|t: int| j2 < t < sq@.len() implies #[trigger] sq@[t][j2]
                    == T::sp_zero() by {
                    assert(sq@[t] == e[t]);
                }
            }
            assert(sq.wf());
            assert forall|x: Seq<T>| system_satisfied(e, x) implies #[trigger] system_satisfied(
                sq@,
                x,
            ) by {
                assert forall|t: int| 0 <= t < sq@.len() implies crate::model::row_satisfied(
                    #[trigger] sq@[t],
                    x,
                ) by {
                    assert(sq@[t] == e[t]);
                }
            }
        }
        Some(sq)
    }
}

impl<T: Scalar> ReducedRowEcholon<T> {
    /// Shape invariant of the final stage: the coefficient block is the
    /// identity.
    pub open spec fn wf(self) -> bool {
        &&& mat_wf(self@)
        &&& width(self@) >= 2
        &&& self@.len() == coeff_count(self@)
        &&& identity_block(self@, coeff_count(self@))
    }

    /// Backward elimination.  For each coefficient column from the last down
    /// to the first, every entry above the diagonal is eliminated by adding
    /// the negated entry times the pivot row; the unit diagonal and the
    /// zeros below it are untouched, leaving an identity coefficient block.
    /// The solution set is preserved exactly.
    pub fn from(m: SquareMatrix<T>) -> (r: ReducedRowEcholon<T>)
        requires
            m.wf(),
        ensures
            r.wf(),
            r@.len() == m@.len(),
            width(r@) == width(m@),
            forall|x: Seq<T>|
                x.len() == coeff_count(m@) && row_wf(x) ==> (system_satisfied(m@, x)
                    <==> #[trigger] system_satisfied(r@, x)),
    {
        let ghost m0 = m@;
        let mut mm = m.m;
        let rows = mm.row_count();
        let cols = mm.column_count();
        let n = cols - 1;
        let mut col = n;
        while col > 0
            invariant
                col <= n,
                rows == mm@.len(),
                cols == width(mm@),
                n == cols - 1,
                cols >= 2,
                rows == n,
                mm@.len() == m0.len(),
                width(mm@) == width(m0),
                mat_wf(mm@),
                pivots_done_upto(mm@, n as int),
                forall|jj: int, ii: int|
                    col <= jj < n && 0 <= ii < jj ==> #[trigger] mm@[ii][jj] == T::sp_zero(),
                forall|x: Seq<T>|
                    x.len() == n && row_wf(x) ==> (system_satisfied(m0, x)
                        <==> #[trigger] system_satisfied(mm@, x)),
            decreases col,
        {
            col -= 1;
            let mut row: usize = 0;
            while row < col
                invariant
                    row <= col,
                    col < n,
                    rows == mm@.len(),
                    cols == width(mm@),
                    n == cols - 1,
                    cols >= 2,
                    rows == n,
                    mm@.len() == m0.len(),
                    width(mm@) == width(m0),
                    mat_wf(mm@),
                    pivots_done_upto(mm@, n as int),
                    forall|jj: int, ii: int|
                        col < jj < n && 0 <= ii < jj ==> #[trigger] mm@[ii][jj] == T::sp_zero(),
                    forall|ii: int| 0 <= ii < row ==> #[trigger] mm@[ii][col as int] == T::sp_zero(),
                    forall|x: Seq<T>|
                        x.len() == n && row_wf(x) ==> (system_satisfied(m0, x)
                            <==> #[trigger] system_satisfied(mm@, x)),
                decreases col - row,
            {
                let c = mm.entry(row, col);
                proof {
                    T::lemma_ops_wf(c, c);
                }
                let nc = c.neg();
                let ghost before = mm@;
                mm.add_scaled_row(row, col, &nc);
                proof {
                    assert(mm@ == before.update(
                        row as int,
                        row_add_scaled(before[row as int], before[col as int], c.sp_neg()),
                    ));
                    T::lemma_consts_wf();
                    // the eliminated entry: c + (-c) * 1 == 0
                    assert(pivot_column_done(before, col as int));
                    T::lemma_mul_one(c.sp_neg());
                    T::lemma_add_neg(c);
                    assert(mm@[row as int][col as int] == T::sp_zero());
                    // the pivot row `col` has zeros left of its pivot and in
                    // the already-cleared columns right of it, so every other
                    // tracked entry of row `row` keeps its value
                    assert forall|j: int|
                        0 <= j < n && j != col implies #[trigger] before[col as int][j]
                        == T::sp_zero() by {
                        if j < col {
                            assert(pivot_column_done(before, j));
                        } else {
                            assert(before[col as int][j] == T::sp_zero());
                        }
                    }
                    assert forall|j: int|
                        0 <= j < n && j != col implies #[trigger] mm@[row as int][j]
                        == before[row as int][j] by {
                        T::lemma_mul_zero(c.sp_neg());
                        T::lemma_add_zero(before[row as int][j]);
                    }
                    // unit diagonal and zeros below are untouched
                    assert forall|j: int| 0 <= j < n implies #[trigger] pivot_column_done(
                        mm@,
                        j,
                    ) by {
                        assert(pivot_column_done(before, j));
                        if j != col && (row as int) < j {
                            assert(mm@[row as int][j] == before[row as int][j]);
                        }
                        assert forall|t: int| j < t < mm@.len() implies #[trigger] mm@[t][j]
                            == T::sp_zero() by {
                            if t == row as int {
                                assert(mm@[t][j] == before[t][j]);
                            } else {
                                assert(mm@[t] == before[t]);
                            }
                        }
                        assert(mm@[j][j] == before[j][j]);
                    }
                    assert forall|x: Seq<T>|
                        x.len() == n && row_wf(x) implies (system_satisfied(m0, x)
                        <==> #[trigger] system_satisfied(mm@, x)) by {
                        if x.len() == n && row_wf(x) {
                            lemma_system_add_scaled(before, row as int, col as int, c.sp_neg(), x);
                        }
                    }
                }
                row += 1;
            }
        }
        let result = ReducedRowEcholon { m: mm };
        proof {
            assert forall|ii: int, jj: int|
                0 <= ii < n && 0 <= jj < n implies #[trigger] result@[ii][jj] == (if ii == jj {
                T::sp_one()
            } else {
                T::sp_zero()
            }) by {
                assert(pivot_column_done(result@, jj));
            }
            assert(result.wf());
        }
        result
    }

    /// Reads the solution out of the target column, one value per variable
    /// in row order.  The vector satisfies every equation of this reduced
    /// system.
    pub fn solve(&self) -> (r: Vec<T>)
        requires
            self.wf(),
        ensures
            r@.len() == self@.len(),
            forall|k: int| 0 <= k < r@.len() ==> #[trigger] r@[k] == self@[k][width(self@) - 1],
            row_wf(r@),
            system_satisfied(self@, r@),
    {
        let rows = self.m.row_count();
        let last = self.m.column_count() - 1;
        let mut out: Vec<T> = Vec::new();
        let mut k: usize = 0;
        while k < rows
            invariant
                k <= rows,
                rows == self@.len(),
                last == width(self@) - 1,
                mat_wf(self@),
                out@.len() == k,
                forall|t: int| 0 <= t < k ==> #[trigger] out@[t] == self@[t][last as int],
            decreases rows - k,
        {
            out.push(self.m.entry(k, last));
            k += 1;
        }
        proof {
            assert forall|t: int| 0 <= t < out@.len() implies (#[trigger] out@[t]).wf() by {
                assert(row_wf(self@[t]));
            }
            lemma_identity_solution(self@, out@);
        }
        out
    }
}

} // verus!
