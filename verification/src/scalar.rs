//! The abstract scalar interface of the solver.
//!
//! Elimination needs exactly the field-like capabilities listed here: a zero
//! test, addition, negation, multiplication, multiplicative inversion, and a
//! magnitude comparison for the partial-pivoting strategy.  Spec-level
//! operations (`sp_*`) model the executable ones, and the `lemma_*` proof
//! obligations state the algebraic laws every implementation must establish.

use vstd::prelude::*;

verus! {

/// A field-like scalar: the element type of an augmented matrix.
///
/// `wf` carves out the well-formed values; all operations keep it and all
/// laws are stated over it.  An implementation proves every `lemma_*`
/// obligation, so generic code can rely on genuine field reasoning.
pub trait Scalar: Sized + Copy {
    /// Well-formed values, over which the laws below hold.
    spec fn wf(self) -> bool;

    /// The additive identity.
    spec fn sp_zero() -> Self;

    /// The multiplicative identity.
    spec fn sp_one() -> Self;

    /// Model of `add`.
    spec fn sp_add(self, rhs: Self) -> Self;

    /// Model of `neg`.
    spec fn sp_neg(self) -> Self;

    /// Model of `mul`.
    spec fn sp_mul(self, rhs: Self) -> Self;

    /// Model of `inv`; meaningful only away from zero.
    spec fn sp_inv(self) -> Self;

    /// Model of `abs_ge`: magnitude comparison used for pivot selection.
    spec fn sp_abs_ge(self, rhs: Self) -> bool;

    /// Additive-identity test.
    fn is_zero(&self) -> (r: bool)
        requires
            self.wf(),
        ensures
            r == (*self == Self::sp_zero()),
    ;

    fn add(self, rhs: Self) -> (r: Self)
        requires
            self.wf(),
            rhs.wf(),
        ensures
            r == self.sp_add(rhs),
    ;

    fn neg(self) -> (r: Self)
        requires
            self.wf(),
        ensures
            r == self.sp_neg(),
    ;

    fn mul(self, rhs: Self) -> (r: Self)
        requires
            self.wf(),
            rhs.wf(),
        ensures
            r == self.sp_mul(rhs),
    ;

    /// Multiplicative inverse of a non-zero value.
    fn inv(self) -> (r: Self)
        requires
            self.wf(),
            self != Self::sp_zero(),
        ensures
            r == self.sp_inv(),
    ;

    /// True when `self` has magnitude at least that of `rhs`.
    fn abs_ge(self, rhs: Self) -> (r: bool)
        requires
            self.wf(),
            rhs.wf(),
        ensures
            r == self.sp_abs_ge(rhs),
    ;

    proof fn lemma_consts_wf()
        ensures
            Self::sp_zero().wf(),
            Self::sp_one().wf(),
            Self::sp_one() != Self::sp_zero(),
    ;

    proof fn lemma_ops_wf(a: Self, b: Self)
        requires
            a.wf(),
            b.wf(),
        ensures
            a.sp_add(b).wf(),
            a.sp_neg().wf(),
            a.sp_mul(b).wf(),
    ;

    proof fn lemma_add_comm(a: Self, b: Self)
        requires
            a.wf(),
            b.wf(),
        ensures
            a.sp_add(b) == b.sp_add(a),
    ;

    proof fn lemma_add_assoc(a: Self, b: Self, c: Self)
        requires
            a.wf(),
            b.wf(),
            c.wf(),
        ensures
            a.sp_add(b).sp_add(c) == a.sp_add(b.sp_add(c)),
    ;

    proof fn lemma_add_zero(a: Self)
        requires
            a.wf(),
        ensures
            a.sp_add(Self::sp_zero()) == a,
    ;

    proof fn lemma_add_neg(a: Self)
        requires
            a.wf(),
        ensures
            a.sp_add(a.sp_neg()) == Self::sp_zero(),
    ;

    proof fn lemma_mul_comm(a: Self, b: Self)
        requires
            a.wf(),
            b.wf(),
        ensures
            a.sp_mul(b) == b.sp_mul(a),
    ;

    proof fn lemma_mul_assoc(a: Self, b: Self, c: Self)
        requires
            a.wf(),
            b.wf(),
            c.wf(),
        ensures
            a.sp_mul(b).sp_mul(c) == a.sp_mul(b.sp_mul(c)),
    ;

    proof fn lemma_mul_one(a: Self)
        requires
            a.wf(),
        ensures
            a.sp_mul(Self::sp_one()) == a,
    ;

    proof fn lemma_mul_zero(a: Self)
        requires
            a.wf(),
        ensures
            a.sp_mul(Self::sp_zero()) == Self::sp_zero(),
    ;

    /// Right distributivity: `(a + b) * c == a*c + b*c`.
    proof fn lemma_mul_dist(a: Self, b: Self, c: Self)
        requires
            a.wf(),
            b.wf(),
            c.wf(),
        ensures
            a.sp_add(b).sp_mul(c) == a.sp_mul(c).sp_add(b.sp_mul(c)),
    ;

    proof fn lemma_mul_inv(a: Self)
        requires
            a.wf(),
            a != Self::sp_zero(),
        ensures
            a.sp_mul(a.sp_inv()) == Self::sp_one(),
            a.sp_inv() != Self::sp_zero(),
            a.sp_inv().wf(),
    ;

    /// Magnitude comparison is total.
    proof fn lemma_abs_ge_total(a: Self, b: Self)
        requires
            a.wf(),
            b.wf(),
        ensures
            a.sp_abs_ge(b) || b.sp_abs_ge(a),
    ;

    /// Magnitude comparison is transitive.
    proof fn lemma_abs_ge_trans(a: Self, b: Self, c: Self)
        requires
            a.wf(),
            b.wf(),
            c.wf(),
            a.sp_abs_ge(b),
            b.sp_abs_ge(c),
        ensures
            a.sp_abs_ge(c),
    ;

    /// Zero has minimal magnitude: nothing below it is non-zero.
    proof fn lemma_abs_ge_zero(a: Self, b: Self)
        requires
            a.wf(),
            b.wf(),
            a == Self::sp_zero(),
            a.sp_abs_ge(b),
        ensures
            b == Self::sp_zero(),
    ;
}

/// `0 * a == 0`, from commutativity and `a * 0 == 0`.
pub proof fn lemma_zero_mul<T: Scalar>(a: T)
    requires
        a.wf(),
    ensures
        T::sp_zero().sp_mul(a) == T::sp_zero(),
{
    T::lemma_consts_wf();
    T::lemma_mul_comm(T::sp_zero(), a);
    T::lemma_mul_zero(a);
}

/// `a + 0 == 0 + a == a`.
pub proof fn lemma_zero_add<T: Scalar>(a: T)
    requires
        a.wf(),
    ensures
        T::sp_zero().sp_add(a) == a,
        a.sp_add(T::sp_zero()) == a,
{
    T::lemma_consts_wf();
    T::lemma_add_comm(T::sp_zero(), a);
    T::lemma_add_zero(a);
}

/// Left distributivity: `s * (a + b) == s*a + s*b`.
pub proof fn lemma_mul_dist_left<T: Scalar>(s: T, a: T, b: T)
    requires
        s.wf(),
        a.wf(),
        b.wf(),
    ensures
        s.sp_mul(a.sp_add(b)) == s.sp_mul(a).sp_add(s.sp_mul(b)),
{
    T::lemma_ops_wf(a, b);
    T::lemma_mul_comm(s, a.sp_add(b));
    T::lemma_mul_dist(a, b, s);
    T::lemma_mul_comm(a, s);
    T::lemma_mul_comm(b, s);
}

/// Cancellation by a non-zero factor: `a*s == b*s` implies `a == b`.
pub proof fn lemma_mul_cancel<T: Scalar>(a: T, b: T, s: T)
    requires
        a.wf(),
        b.wf(),
        s.wf(),
        s != T::sp_zero(),
        a.sp_mul(s) == b.sp_mul(s),
    ensures
        a == b,
{
    T::lemma_mul_inv(s);
    T::lemma_mul_assoc(a, s, s.sp_inv());
    T::lemma_mul_assoc(b, s, s.sp_inv());
    T::lemma_mul_one(a);
    T::lemma_mul_one(b);
}

/// Cancellation of a common addend: `a + c == b + c` implies `a == b`.
pub proof fn lemma_add_cancel<T: Scalar>(a: T, b: T, c: T)
    requires
        a.wf(),
        b.wf(),
        c.wf(),
        a.sp_add(c) == b.sp_add(c),
    ensures
        a == b,
{
    T::lemma_ops_wf(c, c);
    T::lemma_add_assoc(a, c, c.sp_neg());
    T::lemma_add_assoc(b, c, c.sp_neg());
    T::lemma_add_neg(c);
    T::lemma_add_zero(a);
    T::lemma_add_zero(b);
}

/// Regrouping of a double sum: `(a + b) + (c + d) == (a + c) + (b + d)`.
pub proof fn lemma_add_rearrange<T: Scalar>(a: T, b: T, c: T, d: T)
    requires
        a.wf(),
        b.wf(),
        c.wf(),
        d.wf(),
    ensures
        a.sp_add(b).sp_add(c.sp_add(d)) == a.sp_add(c).sp_add(b.sp_add(d)),
{
    T::lemma_ops_wf(a, b);
    T::lemma_ops_wf(c, d);
    T::lemma_ops_wf(b, c);
    T::lemma_ops_wf(a, c);
    T::lemma_ops_wf(b, d);
    // (a + b) + (c + d) == a + (b + (c + d)) == a + ((b + c) + d)
    T::lemma_add_assoc(a, b, c.sp_add(d));
    T::lemma_add_assoc(b, c, d);
    // b + c == c + b
    T::lemma_add_comm(b, c);
    // a + ((c + b) + d) == a + (c + (b + d)) == (a + c) + (b + d)
    T::lemma_add_assoc(c, b, d);
    T::lemma_add_assoc(a, c, b.sp_add(d));
}

} // verus!
