//! End-to-end tests of the elimination pipeline over the mod-11 field.

use gauss_jordan::aug_matrix::{
    ElimObserver, Matrix, PivotStrategy, ReducedRowEcholon, RowEcholon, SquareMatrix,
};
use gauss_jordan::gf11::Gf11;
use gauss_jordan::scalar::Scalar;

fn mat(rows: &[&[u64]]) -> Matrix<Gf11> {
    let raw: Vec<Vec<Gf11>> = rows
        .iter()
        .map(|r| r.iter().map(|&v| Gf11::new(v)).collect())
        .collect();
    Matrix::try_from_raw(raw).expect("rectangular input")
}

fn vals(xs: &[Gf11]) -> Vec<u64> {
    xs.iter().map(|x| x.val()).collect()
}

// 2x + y - z = 8; -3x - y + 2z = -11; -2x + y + 2z = -3, written mod 11
// (10 stands for -1, 8 for -3, 9 for -2, 0 for -11 mod 11).
fn solvable_rows() -> &'static [&'static [u64]] {
    &[&[2, 1, 10, 8], &[8, 10, 2, 0], &[9, 1, 2, 8]]
}

#[test]
fn solvable_three_by_three() {
    let m = mat(solvable_rows());
    let x = m.try_solve().expect("full-rank system must solve");
    // x = 2, y = 3, z = -1 (10 mod 11)
    assert_eq!(vals(&x), vec![2, 3, 10]);
}

#[test]
fn solution_satisfies_every_equation() {
    let m = mat(solvable_rows());
    let x = m.try_solve().expect("full-rank system must solve");
    for row in solvable_rows() {
        let mut acc = Gf11::new(0);
        for (k, &c) in row[..row.len() - 1].iter().enumerate() {
            acc = acc.add(Gf11::new(c).mul(x[k]));
        }
        assert_eq!(acc.val(), row[row.len() - 1] % 11);
    }
}

#[test]
fn underdetermined_rejected() {
    // x + 3y + z = 9; x + y - z = 1; 3x + 11y + 5z = 35: the third row is
    // 4*(first) - (second), so the square validation must reject.
    let m = mat(&[&[1, 3, 1, 9], &[1, 1, 10, 1], &[3, 0, 5, 2]]);
    assert!(m.try_solve().is_none());
}

#[test]
fn rank_deficient_duplicate_row_rejected() {
    let m = mat(&[&[1, 2, 3], &[1, 2, 3]]);
    assert!(m.try_solve().is_none());
}

#[test]
fn zero_pivot_recovered_by_interchange() {
    // y = 3; x = 2: the first diagonal entry is zero, so elimination must
    // swap a lower row into place instead of dividing by zero.
    let m = mat(&[&[0, 1, 3], &[1, 0, 2]]);
    let x = m.try_solve().expect("solvable after row interchange");
    assert_eq!(vals(&x), vec![2, 3]);
}

#[test]
fn zero_column_is_singular() {
    let m = mat(&[&[0, 1, 2], &[0, 1, 3]]);
    assert!(m.try_solve().is_none());
}

#[test]
fn too_few_rows_rejected() {
    let m = mat(&[&[1, 2, 3]]);
    assert!(m.try_solve().is_none());
}

#[test]
fn surplus_zero_row_is_cropped() {
    let m = mat(&[&[1, 0, 2], &[0, 1, 3], &[0, 0, 0]]);
    let x = m.try_solve().expect("consistent system with a redundant row");
    assert_eq!(vals(&x), vec![2, 3]);
}

#[test]
fn validator_inspects_only_the_first_square_rows() {
    // The validator crops to the first (width - 1) rows without re-checking
    // the surplus; an inconsistent surplus row is silently discarded.
    let m = mat(&[&[1, 0, 2], &[0, 1, 3], &[0, 0, 5]]);
    let x = m.try_solve().expect("surplus rows are not inspected");
    assert_eq!(vals(&x), vec![2, 3]);
}

#[test]
fn max_magnitude_strategy_solves_the_same_system() {
    let m = mat(solvable_rows());
    let mut obs = CountingObserver::default();
    let x = m
        .try_solve_with(PivotStrategy::MaxMagnitude, &mut obs)
        .expect("full-rank system must solve under partial pivoting");
    assert_eq!(vals(&x), vec![2, 3, 10]);
    assert_eq!(obs.pivots.len(), 3);
    assert!(obs.singular.is_empty());
}

#[derive(Default)]
struct CountingObserver {
    pivots: Vec<(usize, usize)>,
    singular: Vec<usize>,
}

impl ElimObserver for CountingObserver {
    fn pivot_chosen(&mut self, column: usize, pivot_row: usize) {
        self.pivots.push((column, pivot_row));
    }

    fn singular_column(&mut self, column: usize) {
        self.singular.push(column);
    }
}

#[test]
fn observer_sees_pivots_and_singularity() {
    let m = mat(&[&[0, 1, 2], &[0, 1, 3]]);
    let mut obs = CountingObserver::default();
    assert!(m.try_solve_with(PivotStrategy::FirstNonZero, &mut obs).is_none());
    assert_eq!(obs.singular, vec![0]);
}

#[test]
fn staged_pipeline_matches_try_solve() {
    let m = mat(solvable_rows());
    let re = RowEcholon::from(m);
    assert!(re.is_solvable());
    let sq = SquareMatrix::try_from_row_echolon(re).expect("full rank");
    let red = ReducedRowEcholon::from(sq);
    let x = red.solve();
    assert_eq!(vals(&x), vec![2, 3, 10]);
}

#[test]
fn is_solvable_false_for_rank_deficient_system() {
    let m = mat(&[&[1, 3, 1, 9], &[1, 1, 10, 1], &[3, 0, 5, 2]]);
    let re = RowEcholon::from(m);
    assert!(!re.is_solvable());
    assert!(SquareMatrix::try_from_row_echolon(re).is_none());
}
