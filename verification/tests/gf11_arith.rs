//! Tests of the mod-11 field and of the minimal matrix wrapper.

use gauss_jordan::gf11::Gf11;
use gauss_jordan::matrix::Matrix;
use gauss_jordan::scalar::Scalar;

#[test]
fn new_reduces_modulo_eleven() {
    assert_eq!(Gf11::new(25).val(), 3);
    assert_eq!(Gf11::new(11).val(), 0);
    assert_eq!(Gf11::new(10).val(), 10);
}

#[test]
fn addition_wraps() {
    assert_eq!(Gf11::new(7).add(Gf11::new(8)).val(), 4);
    assert_eq!(Gf11::new(5).add(Gf11::new(0)).val(), 5);
}

#[test]
fn multiplication_wraps() {
    assert_eq!(Gf11::new(7).mul(Gf11::new(8)).val(), 1);
    assert_eq!(Gf11::new(3).mul(Gf11::new(4)).val(), 1);
    assert_eq!(Gf11::new(6).mul(Gf11::new(0)).val(), 0);
}

#[test]
fn negation_is_additive_inverse() {
    assert_eq!(Gf11::new(0).neg().val(), 0);
    for v in 0..11u64 {
        let a = Gf11::new(v);
        assert_eq!(a.add(a.neg()).val(), 0);
    }
}

#[test]
fn inverse_is_multiplicative_inverse() {
    for v in 1..11u64 {
        let a = Gf11::new(v);
        assert_eq!(a.mul(a.inv()).val(), 1);
    }
}

#[test]
fn zero_test() {
    assert!(Gf11::new(0).is_zero());
    assert!(Gf11::new(22).is_zero());
    assert!(!Gf11::new(1).is_zero());
}

#[test]
fn magnitude_comparison_is_total() {
    for a in 0..11u64 {
        for b in 0..11u64 {
            let x = Gf11::new(a);
            let y = Gf11::new(b);
            assert!(x.abs_ge(y) || y.abs_ge(x));
        }
    }
}

#[test]
fn from_raw_accepts_rectangular_rows() {
    let m = Matrix::from_raw(vec![vec![1u64, 2, 3], vec![4, 5, 6]]).ok().expect("rectangular");
    assert_eq!(m.rows().len(), 2);
    assert_eq!(m.rows()[0], vec![1, 2, 3]);
    assert_eq!(m.rows()[1], vec![4, 5, 6]);
}

#[test]
fn from_raw_rejects_empty_input() {
    let raw: Vec<Vec<u64>> = Vec::new();
    assert!(Matrix::from_raw(raw).is_err());
}

#[test]
fn from_raw_rejects_ragged_rows() {
    assert!(Matrix::from_raw(vec![vec![1u64, 2], vec![1, 2, 3]]).is_err());
}
