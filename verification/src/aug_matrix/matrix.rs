//! The mutable augmented matrix and its row operations.

use vstd::prelude::*;
use crate::model::{
    coeff_count, grid_of, grid_wf, is_solution, lemma_identity_unique, lemma_pivotless_not_unique,
    mat_wf, no_pivot_column, pivots_done_upto, rectangular, row_add_scaled, row_scaled, row_wf,
    rows_swapped, system_satisfied, unique_solution, width,
};
use crate::scalar::Scalar;
use super::access_traits::{MatrixRead, MatrixRowOps, MatrixToSquare};
use super::row_echolon::{
    ElimObserver, PivotStrategy, ReducedRowEcholon, RowEcholon, SilentObserver, SquareMatrix,
};

verus! {

/// A rectangular grid of scalars; the last column is the augmented target
/// vector.  Built by the fallible constructor `try_from_raw`, which is the
/// only place the shape is checked.
pub struct Matrix<T: Scalar> {
    rows: Vec<Vec<T>>,
}

impl<T: Scalar> View for Matrix<T> {
    type V = Seq<Seq<T>>;

    closed spec fn view(&self) -> Seq<Seq<T>> {
        grid_of(self.rows@)
    }
}

/// Builds one row, copied entry by entry.
fn copy_row<T: Scalar>(src: &Vec<T>) -> (r: Vec<T>)
    ensures
        r@ == src@,
{
    let mut r: Vec<T> = Vec::new();
    let n = src.len();
    let mut k: usize = 0;
    while k < n
        invariant
            k <= n,
            n == src@.len(),
            r@ == src@.take(k as int),
        decreases n - k,
    {
        r.push(src[k]);
        proof {
            assert(r@ =~= src@.take(k + 1));
        }
        k += 1;
    }
    proof {
        assert(src@.take(n as int) =~= src@);
    }
    r
}

impl<T: Scalar> Matrix<T> {
    /// Accepts the raw rows when they form a non-empty rectangular grid;
    /// rejects an empty grid or rows of differing lengths.
    pub fn try_from_raw(raw: Vec<Vec<T>>) -> (r: Option<Matrix<T>>)
        requires
            grid_wf(grid_of(raw@)),
        ensures
            r is Some <==> (raw@.len() > 0 && rectangular(grid_of(raw@))),
            r matches Some(m) ==> m@ == grid_of(raw@),
    {
        if raw.len() == 0 {
            return None;
        }
        let first_length = raw[0].len();
        let mut i: usize = 1;
        while i < raw.len()
            invariant
                1 <= i <= raw@.len(),
                first_length == grid_of(raw@)[0].len(),
                forall|t: int| 0 <= t < i ==> (#[trigger] grid_of(raw@)[t]).len() == first_length,
            decreases raw@.len() - i,
        {
            if raw[i].len() != first_length {
                assert(grid_of(raw@)[i as int].len() != grid_of(raw@)[0].len());
                assert(!rectangular(grid_of(raw@)));
                return None;
            }
            i += 1;
        }
        assert(rectangular(grid_of(raw@)));
        Some(Matrix { rows: raw })
    }

    /// Reads one entry.
    pub fn entry(&self, i: usize, j: usize) -> (r: T)
        requires
            i < self@.len(),
            j < self@[i as int].len(),
        ensures
            r == self@[i as int][j as int],
    {
        self.rows[i][j]
    }

    /// The number of rows.
    pub fn row_count(&self) -> (r: usize)
        ensures
            r == self@.len(),
    {
        self.rows.len()
    }

    /// The common row length.
    pub fn column_count(&self) -> (r: usize)
        requires
            self@.len() > 0,
        ensures
            r == self@[0].len(),
    {
        self.rows[0].len()
    }

    /// `M(row) = M(row) * scalar`.  Scaling by zero would destroy the
    /// equation, so a zero scalar is a caller fault, excluded up front.
    pub fn scale_row(&mut self, row: usize, scalar: &T)
        requires
            row < old(self)@.len(),
            grid_wf(old(self)@),
            scalar.wf(),
            *scalar != T::sp_zero(),
        ensures
            final(self)@ == old(self)@.update(
                row as int,
                row_scaled(old(self)@[row as int], *scalar),
            ),
            grid_wf(final(self)@),
    {
        let ghost orig = *self;
        let ghost sc = *scalar;
        let mut new_row: Vec<T> = Vec::new();
        let n = self.rows[row].len();
        let mut k: usize = 0;
        while k < n
            invariant
                *self == orig,
                row < orig@.len(),
                n == orig@[row as int].len(),
                grid_wf(orig@),
                sc.wf(),
                *scalar == sc,
                k <= n,
                new_row@.len() == k,
                forall|t: int| 0 <= t < k ==> #[trigger] new_row@[t] == orig@[row as int][t].sp_mul(
                    sc,
                ),
                row_wf(new_row@),
            decreases n - k,
        {
            let v = self.rows[row][k];
            let w = v.mul(*scalar);
            proof {
                T::lemma_ops_wf(v, sc);
            }
            new_row.push(w);
            k += 1;
        }
        self.rows.set(row, new_row);
        proof {
            assert(self@[row as int] =~= row_scaled(orig@[row as int], sc));
            assert(self@ =~= orig@.update(row as int, row_scaled(orig@[row as int], sc)));
            assert forall|i: int| 0 <= i < self@.len() implies row_wf(#[trigger] self@[i]) by {
                if i != row {
                    assert(self@[i] == orig@[i]);
                }
            }
        }
    }

    /// `M(row1) = M(row1) + (scalar * M(row2))`.
    pub fn add_scaled_row(&mut self, row1: usize, row2: usize, scalar: &T)
        requires
            row1 < old(self)@.len(),
            row2 < old(self)@.len(),
            old(self)@[row1 as int].len() == old(self)@[row2 as int].len(),
            grid_wf(old(self)@),
            scalar.wf(),
        ensures
            final(self)@ == old(self)@.update(
                row1 as int,
                row_add_scaled(old(self)@[row1 as int], old(self)@[row2 as int], *scalar),
            ),
            grid_wf(final(self)@),
    {
        let ghost orig = *self;
        let ghost sc = *scalar;
        let mut new_row: Vec<T> = Vec::new();
        let n = self.rows[row1].len();
        let mut k: usize = 0;
        while k < n
            invariant
                *self == orig,
                row1 < orig@.len(),
                row2 < orig@.len(),
                n == orig@[row1 as int].len(),
                n == orig@[row2 as int].len(),
                grid_wf(orig@),
                sc.wf(),
                *scalar == sc,
                k <= n,
                new_row@.len() == k,
                forall|t: int| 0 <= t < k ==> #[trigger] new_row@[t] == orig@[row1 as int][t].sp_add(
                    sc.sp_mul(orig@[row2 as int][t]),
                ),
                row_wf(new_row@),
            decreases n - k,
        {
            let v1 = self.rows[row1][k];
            let v2 = self.rows[row2][k];
            proof {
                T::lemma_ops_wf(sc, v2);
            }
            let w = v1.add(scalar.mul(v2));
            proof {
                T::lemma_ops_wf(v1, sc.sp_mul(v2));
            }
            new_row.push(w);
            k += 1;
        }
        self.rows.set(row1, new_row);
        proof {
            assert(self@[row1 as int] =~= row_add_scaled(
                orig@[row1 as int],
                orig@[row2 as int],
                sc,
            ));
            assert(self@ =~= orig@.update(
                row1 as int,
                row_add_scaled(orig@[row1 as int], orig@[row2 as int], sc),
            ));
            assert forall|i: int| 0 <= i < self@.len() implies row_wf(#[trigger] self@[i]) by {
                if i != row1 {
                    assert(self@[i] == orig@[i]);
                }
            }
        }
    }

    /// An independent copy with the same entries.
    pub fn duplicate(&self) -> (r: Self)
        ensures
            r@ == self@,
    {
        let mut rows: Vec<Vec<T>> = Vec::new();
        let n = self.rows.len();
        let mut i: usize = 0;
        while i < n
            invariant
                i <= n,
                n == self.rows@.len(),
                rows@.len() == i,
                forall|t: int| 0 <= t < i ==> #[trigger] rows@[t]@ == self.rows@[t]@,
            decreases n - i,
        {
            let row = copy_row(&self.rows[i]);
            rows.push(row);
            i += 1;
        }
        let r = Matrix { rows };
        proof {
            assert(r@ =~= self@);
        }
        r
    }
}

impl<T: Scalar> MatrixRead<T> for Matrix<T> {
    open spec fn entries(&self) -> Seq<Seq<T>> {
        self.view()
    }

    fn inner(&self) -> (r: &Vec<Vec<T>>) {
        &self.rows
    }
}

impl<T: Scalar> MatrixRowOps<T> for Matrix<T> {
    fn swap_rows(&mut self, row1: usize, row2: usize) {
        if row1 == row2 {
            proof {
                assert(rows_swapped(self@, row1 as int, row2 as int) =~= self@);
            }
            return ;
        }
        let r1 = copy_row(&self.rows[row1]);
        let r2 = copy_row(&self.rows[row2]);
        self.rows.set(row1, r2);
        self.rows.set(row2, r1);
        proof {
            assert(self@ =~= rows_swapped(old(self)@, row1 as int, row2 as int));
        }
    }
}

impl<T: Scalar> MatrixToSquare<T> for Matrix<T> {
    fn crop_matrix(&mut self) {
        let ghost orig = *self;
        let num_cols = self.rows[0].len() - 1;
        self.rows.truncate(num_cols);
        proof {
            if num_cols <= orig@.len() {
                assert(self@ =~= orig@.subrange(0, num_cols as int));
            } else {
                assert(self@ =~= orig@);
            }
        }
    }
}

impl<T: Scalar> Matrix<T> {
    /// Runs the whole pipeline: forward elimination, square validation and
    /// crop, backward elimination, and solution extraction.  On success the
    /// vector has one entry per coefficient column, and for a square system
    /// it is proved to satisfy every input equation.  For a square system
    /// the outcome is exact: it succeeds precisely when the system has
    /// exactly one solution, and rejection means the system was classified
    /// as singular or underdetermined.
    pub fn try_solve(&self) -> (r: Option<Vec<T>>)
        requires
            mat_wf(self@),
            width(self@) >= 2,
        ensures
            r matches Some(x) ==> {
                &&& x@.len() == coeff_count(self@)
                &&& row_wf(x@)
                &&& (self@.len() == coeff_count(self@) ==> system_satisfied(self@, x@))
            },
            self@.len() == coeff_count(self@) ==> (r is Some <==> unique_solution(self@)),
            self@.len() < coeff_count(self@) ==> r is None,
    {
        let mut observer = SilentObserver;
        self.try_solve_with(PivotStrategy::FirstNonZero, &mut observer)
    }

    /// `try_solve` with an explicit pivot strategy and observer.
    pub fn try_solve_with<O: ElimObserver>(&self, strategy: PivotStrategy, observer: &mut O) -> (r:
        Option<Vec<T>>)
        requires
            mat_wf(self@),
            width(self@) >= 2,
        ensures
            r matches Some(x) ==> {
                &&& x@.len() == coeff_count(self@)
                &&& row_wf(x@)
                &&& (self@.len() == coeff_count(self@) ==> system_satisfied(self@, x@))
            },
            self@.len() == coeff_count(self@) ==> (r is Some <==> unique_solution(self@)),
            self@.len() < coeff_count(self@) ==> r is None,
    {
        let work = self.duplicate();
        let re = RowEcholon::from_with(work, strategy, observer);
        let ghost re_snap = re;
        let ghost e = re@;
        match SquareMatrix::try_from_row_echolon(re) {
            None => {
                proof {
                    if self@.len() == coeff_count(self@) {
                        // the input was square, so the refusal means some
                        // coefficient column had no pivot: the system cannot
                        // have exactly one solution
                        let n = coeff_count(self@);
                        assert(e.len() == self@.len());
                        assert(!re_snap.pivots_complete());
                        let c = choose|c: int|
                            0 <= c < coeff_count(e) && c <= e.len() && pivots_done_upto(e, c)
                                && #[trigger] no_pivot_column(e, c);
                        lemma_pivotless_not_unique(e, c);
                        if unique_solution(self@) {
                            let x = choose|x: Seq<T>|
                                #[trigger] is_solution(self@, x) && (forall|y: Seq<T>|
                                    #[trigger] is_solution(self@, y) ==> y == x);
                            assert(system_satisfied(e, x));
                            assert(is_solution(e, x));
                            assert forall|y: Seq<T>| #[trigger] is_solution(e, y) implies y
                                == x by {
                                assert(system_satisfied(e, y));
                                assert(system_satisfied(self@, y));
                                assert(is_solution(self@, y));
                            }
                            assert(unique_solution(e));
                            assert(false);
                        }
                    }
                }
                None
            },
            Some(sq) => {
                let red = ReducedRowEcholon::from(sq);
                let x = red.solve();
                proof {
                    let n = coeff_count(self@);
                    assert(system_satisfied(sq@, x@));
                    if self@.len() == n {
                        assert(sq@ == e.subrange(0, coeff_count(e)));
                        assert(e.subrange(0, n) =~= e);
                        assert(system_satisfied(e, x@));
                        assert(system_satisfied(self@, x@));
                        // the returned vector is the only solution: any other
                        // passes unchanged through both eliminations and is
                        // pinned by the identity block
                        assert forall|y: Seq<T>| #[trigger] is_solution(self@, y) implies y
                            == x@ by {
                            assert(system_satisfied(self@, y));
                            assert(system_satisfied(e, y));
                            assert(system_satisfied(sq@, y));
                            assert(system_satisfied(red@, y));
                            lemma_identity_unique(red@, y);
                            assert forall|k: int| 0 <= k < n implies #[trigger] y[k]
                                == x@[k] by {
                                assert(y[k] == red@[k][width(red@) - 1]);
                            }
                            assert(y =~= x@);
                        }
                        assert(is_solution(self@, x@));
                        assert(unique_solution(self@));
                    }
                }
                Some(x)
            },
        }
    }
}

/// Exchanging the same two rows twice restores the matrix: `swap_rows` is
/// self-inverse.
pub proof fn lemma_swap_rows_twice<T: Scalar>(m: Seq<Seq<T>>, i: int, j: int)
    requires
        0 <= i < m.len(),
        0 <= j < m.len(),
    ensures
        rows_swapped(rows_swapped(m, i, j), i, j) == m,
{
    assert(rows_swapped(rows_swapped(m, i, j), i, j) =~= m);
}

/// Scaling a row by `s` and then by `s`'s inverse restores the matrix:
/// the two `scale_row` calls cancel exactly.
pub proof fn lemma_scale_row_inverse<T: Scalar>(m: Seq<Seq<T>>, row: int, s: T)
    requires
        0 <= row < m.len(),
        row_wf(m[row]),
        s.wf(),
        s != T::sp_zero(),
    ensures
        m.update(row, row_scaled(m[row], s)).update(
            row,
            row_scaled(row_scaled(m[row], s), s.sp_inv()),
        ) == m,
{
    T::lemma_mul_inv(s);
    assert forall|k: int| 0 <= k < m[row].len() implies #[trigger] row_scaled(
        row_scaled(m[row], s),
        s.sp_inv(),
    )[k] == m[row][k] by {
        let v = m[row][k];
        T::lemma_mul_assoc(v, s, s.sp_inv());
        T::lemma_mul_one(v);
    }
    assert(row_scaled(row_scaled(m[row], s), s.sp_inv()) =~= m[row]);
    assert(m.update(row, row_scaled(m[row], s)).update(
        row,
        row_scaled(row_scaled(m[row], s), s.sp_inv()),
    ) =~= m);
}

} // verus!
