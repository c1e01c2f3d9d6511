//! An exact field supplied with the solver: the integers modulo 11.
//!
//! Elimination divides by pivots, so the element type must be a genuine
//! field.  A prime residue field gives exact arithmetic with total, panic-free
//! operations, and its small modulus keeps every law provable by direct case
//! analysis where needed.

use vstd::prelude::*;
use vstd::arithmetic::div_mod::{lemma_add_mod_noop, lemma_mul_mod_noop_general, lemma_small_mod};
use vstd::arithmetic::mul::{
    lemma_mul_is_associative, lemma_mul_is_commutative, lemma_mul_is_distributive_add_other_way,
};
use crate::scalar::Scalar;

verus! {

/// The prime modulus of this field.
pub const MODULUS: u64 = 11;

/// A residue modulo 11; well-formed values keep the representative below the
/// modulus.
#[derive(Clone, Copy, PartialEq, Eq, Debug)]
pub struct Gf11 {
    v: u64,
}

impl Gf11 {
    /// The canonical representative of this residue.
    pub closed spec fn spec_val(self) -> u64 {
        self.v
    }

    /// Builds the residue of `n`.
    pub fn new(n: u64) -> (r: Self)
        ensures
            r.wf(),
            r.spec_val() == n % 11,
    {
        Gf11 { v: n % MODULUS }
    }

    /// Reads the canonical representative, a value below the modulus.
    pub fn val(self) -> (r: u64)
        ensures
            r == self.spec_val(),
    {
        self.v
    }
}

impl Scalar for Gf11 {
    closed spec fn wf(self) -> bool {
        self.v < 11
    }

    closed spec fn sp_zero() -> Self {
        Gf11 { v: 0 }
    }

    closed spec fn sp_one() -> Self {
        Gf11 { v: 1 }
    }

    closed spec fn sp_add(self, rhs: Self) -> Self {
        Gf11 { v: ((self.v + rhs.v) % 11) as u64 }
    }

    closed spec fn sp_neg(self) -> Self {
        Gf11 { v: ((11 - self.v) % 11) as u64 }
    }

    closed spec fn sp_mul(self, rhs: Self) -> Self {
        Gf11 { v: ((self.v * rhs.v) % 11) as u64 }
    }

    closed spec fn sp_inv(self) -> Self {
        Gf11 {
            v: if self.v == 1 {
                1
            } else if self.v == 2 {
                6
            } else if self.v == 3 {
                4
            } else if self.v == 4 {
                3
            } else if self.v == 5 {
                9
            } else if self.v == 6 {
                2
            } else if self.v == 7 {
                8
            } else if self.v == 8 {
                7
            } else if self.v == 9 {
                5
            } else if self.v == 10 {
                10
            } else {
                0
            },
        }
    }

    closed spec fn sp_abs_ge(self, rhs: Self) -> bool {
        self.v >= rhs.v
    }

    fn is_zero(&self) -> (r: bool) {
        self.v == 0
    }

    fn add(self, rhs: Self) -> (r: Self) {
        Gf11 { v: (self.v + rhs.v) % MODULUS }
    }

    fn neg(self) -> (r: Self) {
        Gf11 { v: (MODULUS - self.v) % MODULUS }
    }

    fn mul(self, rhs: Self) -> (r: Self) {
        proof {
            assert(self.v * rhs.v <= 100) by (nonlinear_arith)
                requires
                    self.v < 11,
                    rhs.v < 11,
            ;
        }
        Gf11 { v: (self.v * rhs.v) % MODULUS }
    }

    fn inv(self) -> (r: Self) {
        let w: u64 = if self.v == 1 {
            1
        } else if self.v == 2 {
            6
        } else if self.v == 3 {
            4
        } else if self.v == 4 {
            3
        } else if self.v == 5 {
            9
        } else if self.v == 6 {
            2
        } else if self.v == 7 {
            8
        } else if self.v == 8 {
            7
        } else if self.v == 9 {
            5
        } else if self.v == 10 {
            10
        } else {
            0
        };
        Gf11 { v: w }
    }

    fn abs_ge(self, rhs: Self) -> (r: bool) {
        self.v >= rhs.v
    }

    proof fn lemma_consts_wf() {
    }

    proof fn lemma_ops_wf(a: Self, b: Self) {
    }

    proof fn lemma_add_comm(a: Self, b: Self) {
    }

    proof fn lemma_add_assoc(a: Self, b: Self, c: Self) {
        let x = a.v as int;
        let y = b.v as int;
        let z = c.v as int;
        lemma_small_mod(c.v as nat, 11);
        lemma_small_mod(a.v as nat, 11);
        lemma_add_mod_noop(x + y, z, 11);
        lemma_add_mod_noop(x, y + z, 11);
    }

    proof fn lemma_add_zero(a: Self) {
        lemma_small_mod(a.v as nat, 11);
    }

    proof fn lemma_add_neg(a: Self) {
        if a.v == 0 {
        } else {
            lemma_small_mod((11 - a.v) as nat, 11);
        }
    }

    proof fn lemma_mul_comm(a: Self, b: Self) {
        lemma_mul_is_commutative(a.v as int, b.v as int);
    }

    proof fn lemma_mul_assoc(a: Self, b: Self, c: Self) {
        let x = a.v as int;
        let y = b.v as int;
        let z = c.v as int;
        lemma_mul_mod_noop_general(x * y, z, 11);
        lemma_mul_mod_noop_general(x, y * z, 11);
        lemma_mul_is_associative(x, y, z);
    }

    proof fn lemma_mul_one(a: Self) {
        lemma_small_mod(a.v as nat, 11);
    }

    proof fn lemma_mul_zero(a: Self) {
    }

    proof fn lemma_mul_dist(a: Self, b: Self, c: Self) {
        let x = a.v as int;
        let y = b.v as int;
        let z = c.v as int;
        lemma_mul_mod_noop_general(x + y, z, 11);
        lemma_mul_is_distributive_add_other_way(z, x, y);
        lemma_add_mod_noop(x * z, y * z, 11);
    }

    proof fn lemma_mul_inv(a: Self) {
        if a.v == 1 {
            assert(a.sp_mul(a.sp_inv()) == Self::sp_one());
        } else if a.v == 2 {
            assert(a.sp_mul(a.sp_inv()) == Self::sp_one());
        } else if a.v == 3 {
            assert(a.sp_mul(a.sp_inv()) == Self::sp_one());
        } else if a.v == 4 {
            assert(a.sp_mul(a.sp_inv()) == Self::sp_one());
        } else if a.v == 5 {
            assert(a.sp_mul(a.sp_inv()) == Self::sp_one());
        } else if a.v == 6 {
            assert(a.sp_mul(a.sp_inv()) == Self::sp_one());
        } else if a.v == 7 {
            assert(a.sp_mul(a.sp_inv()) == Self::sp_one());
        } else if a.v == 8 {
            assert(a.sp_mul(a.sp_inv()) == Self::sp_one());
        } else if a.v == 9 {
            assert(a.sp_mul(a.sp_inv()) == Self::sp_one());
        } else {
            assert(a.v == 10);
            assert(a.sp_mul(a.sp_inv()) == Self::sp_one());
        }
    }

    proof fn lemma_abs_ge_total(a: Self, b: Self) {
    }

    proof fn lemma_abs_ge_trans(a: Self, b: Self, c: Self) {
    }

    proof fn lemma_abs_ge_zero(a: Self, b: Self) {
    }
}

} // verus!
