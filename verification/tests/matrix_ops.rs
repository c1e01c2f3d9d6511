//! Tests of matrix construction and the elementary row operations.

use gauss_jordan::aug_matrix::{Matrix, MatrixRead, MatrixRowOps, MatrixToSquare};
use gauss_jordan::gf11::Gf11;
use gauss_jordan::scalar::Scalar;

fn mat(rows: &[&[u64]]) -> Matrix<Gf11> {
    let raw: Vec<Vec<Gf11>> = rows
        .iter()
        .map(|r| r.iter().map(|&v| Gf11::new(v)).collect())
        .collect();
    Matrix::try_from_raw(raw).expect("rectangular input")
}

fn grid(m: &Matrix<Gf11>) -> Vec<Vec<u64>> {
    m.inner()
        .iter()
        .map(|r| r.iter().map(|v| v.val()).collect())
        .collect()
}

#[test]
fn construct_accepts_rectangular_rows() {
    let m = mat(&[&[1, 2, 3], &[4, 5, 6]]);
    assert_eq!(m.row_count(), 2);
    assert_eq!(m.column_count(), 3);
    assert_eq!(grid(&m), vec![vec![1, 2, 3], vec![4, 5, 6]]);
}

#[test]
fn construct_rejects_empty_input() {
    let raw: Vec<Vec<Gf11>> = Vec::new();
    assert!(Matrix::try_from_raw(raw).is_none());
}

#[test]
fn construct_rejects_ragged_rows() {
    let raw = vec![
        vec![Gf11::new(1), Gf11::new(2)],
        vec![Gf11::new(1), Gf11::new(2), Gf11::new(3)],
    ];
    assert!(Matrix::try_from_raw(raw).is_none());
}

#[test]
fn swap_rows_exchanges_two_rows() {
    let mut m = mat(&[&[1, 2, 3], &[4, 5, 6], &[7, 8, 9]]);
    m.swap_rows(0, 2);
    assert_eq!(grid(&m), vec![vec![7, 8, 9], vec![4, 5, 6], vec![1, 2, 3]]);
}

#[test]
fn swap_rows_twice_is_identity() {
    let mut m = mat(&[&[1, 2, 3], &[4, 5, 6], &[7, 8, 9]]);
    let before = grid(&m);
    m.swap_rows(0, 2);
    m.swap_rows(0, 2);
    assert_eq!(grid(&m), before);
}

#[test]
fn scale_row_multiplies_each_entry() {
    let mut m = mat(&[&[1, 2, 3], &[4, 5, 6]]);
    m.scale_row(1, &Gf11::new(3));
    // 4*3 = 12 = 1, 5*3 = 15 = 4, 6*3 = 18 = 7 (mod 11)
    assert_eq!(grid(&m), vec![vec![1, 2, 3], vec![1, 4, 7]]);
}

#[test]
fn scale_row_then_inverse_restores_the_row() {
    let mut m = mat(&[&[1, 2, 3], &[4, 5, 6]]);
    let before = grid(&m);
    let s = Gf11::new(3);
    m.scale_row(1, &s);
    m.scale_row(1, &s.inv());
    assert_eq!(grid(&m), before);
}

#[test]
fn add_scaled_row_accumulates() {
    let mut m = mat(&[&[1, 2, 3], &[4, 5, 6]]);
    m.add_scaled_row(0, 1, &Gf11::new(2));
    // 1 + 2*4 = 9, 2 + 2*5 = 12 = 1, 3 + 2*6 = 15 = 4 (mod 11)
    assert_eq!(grid(&m), vec![vec![9, 1, 4], vec![4, 5, 6]]);
}

#[test]
fn crop_truncates_to_the_coefficient_square() {
    let mut m = mat(&[&[1, 2, 3], &[4, 5, 6], &[7, 8, 9], &[1, 1, 1]]);
    m.crop_matrix();
    assert_eq!(grid(&m), vec![vec![1, 2, 3], vec![4, 5, 6]]);
}
