//! The mathematical model of augmented matrices.
//!
//! A matrix is modelled as a sequence of rows, each a sequence of scalars;
//! the last column is the augmented target vector.  The spec functions here
//! describe the elementary row operations, zero rows, the dot product against
//! a candidate solution, and satisfaction of the whole system; the lemmas
//! relate the row operations to the solution set, which is what elimination
//! must preserve.

use vstd::prelude::*;
use crate::scalar::{
    Scalar, lemma_add_cancel, lemma_add_rearrange, lemma_mul_cancel, lemma_mul_dist_left,
    lemma_zero_add, lemma_zero_mul,
};

verus! {

/// Every entry of the row is well-formed.
pub open spec fn row_wf<T: Scalar>(r: Seq<T>) -> bool {
    forall|k: int| 0 <= k < r.len() ==> (#[trigger] r[k]).wf()
}

/// Every entry of the grid is well-formed.
pub open spec fn grid_wf<T: Scalar>(m: Seq<Seq<T>>) -> bool {
    forall|i: int| 0 <= i < m.len() ==> row_wf(#[trigger] m[i])
}

/// Every row has the length of the first one.
pub open spec fn rectangular<T>(m: Seq<Seq<T>>) -> bool {
    forall|i: int| 0 <= i < m.len() ==> (#[trigger] m[i]).len() == m[0].len()
}

/// The common row length: coefficient columns plus the target column.
pub open spec fn width<T>(m: Seq<Seq<T>>) -> int {
    m[0].len() as int
}

/// The number of coefficient columns (the width without the target column).
pub open spec fn coeff_count<T>(m: Seq<Seq<T>>) -> int {
    width(m) - 1
}

/// A non-empty rectangular grid of well-formed scalars.
pub open spec fn mat_wf<T: Scalar>(m: Seq<Seq<T>>) -> bool {
    &&& m.len() > 0
    &&& rectangular(m)
    &&& grid_wf(m)
}

/// The grid seen through the views of its rows.
pub open spec fn grid_of<T>(raw: Seq<Vec<T>>) -> Seq<Seq<T>> {
    raw.map(|_i: int, r: Vec<T>| r@)
}

/// The matrix with rows `i` and `j` exchanged.
pub open spec fn rows_swapped<T>(m: Seq<Seq<T>>, i: int, j: int) -> Seq<Seq<T>> {
    m.update(i, m[j]).update(j, m[i])
}

/// The row with every entry multiplied by `s`.
pub open spec fn row_scaled<T: Scalar>(r: Seq<T>, s: T) -> Seq<T> {
    r.map(|_k: int, v: T| v.sp_mul(s))
}

/// The row `dst + s * src`, formed entry by entry.
pub open spec fn row_add_scaled<T: Scalar>(dst: Seq<T>, src: Seq<T>, s: T) -> Seq<T> {
    dst.map(|k: int, v: T| v.sp_add(s.sp_mul(src[k])))
}

/// Every entry of the row is zero.
pub open spec fn is_zero_row<T: Scalar>(r: Seq<T>) -> bool {
    forall|k: int| 0 <= k < r.len() ==> #[trigger] r[k] == T::sp_zero()
}

/// How many rows are not entirely zero.
pub open spec fn nonzero_row_count<T: Scalar>(m: Seq<Seq<T>>) -> int
    decreases m.len(),
{
    if m.len() == 0 {
        0
    } else {
        nonzero_row_count(m.drop_last()) + if is_zero_row(m.last()) {
            0int
        } else {
            1int
        }
    }
}

/// The sum of `c[k] * x[k]` over the coefficients `c`.
pub open spec fn dot<T: Scalar>(c: Seq<T>, x: Seq<T>) -> T
    decreases c.len(),
{
    if c.len() == 0 {
        T::sp_zero()
    } else {
        c[0].sp_mul(x[0]).sp_add(dot(c.skip(1), x.skip(1)))
    }
}

/// The equation stored in `r` holds of the candidate solution `x`: the
/// weighted sum of the coefficients equals the target entry.
pub open spec fn row_satisfied<T: Scalar>(r: Seq<T>, x: Seq<T>) -> bool {
    dot(r.take(r.len() - 1), x) == r[r.len() - 1]
}

/// Every equation of the system holds of `x`.
pub open spec fn system_satisfied<T: Scalar>(m: Seq<Seq<T>>, x: Seq<T>) -> bool {
    forall|i: int| 0 <= i < m.len() ==> row_satisfied(#[trigger] m[i], x)
}

/// Column `j` has a unit pivot on the diagonal and zeros below it.
pub open spec fn pivot_column_done<T: Scalar>(m: Seq<Seq<T>>, j: int) -> bool {
    &&& m[j][j] == T::sp_one()
    &&& forall|i: int| j < i < m.len() ==> #[trigger] m[i][j] == T::sp_zero()
}

/// The first `c` coefficient columns are fully eliminated downwards.
pub open spec fn pivots_done_upto<T: Scalar>(m: Seq<Seq<T>>, c: int) -> bool {
    forall|j: int| 0 <= j < c ==> #[trigger] pivot_column_done(m, j)
}

/// Column `c` is zero from its diagonal entry down: forward elimination can
/// find no pivot there.
pub open spec fn no_pivot_column<T: Scalar>(m: Seq<Seq<T>>, c: int) -> bool {
    forall|t: int| c <= t < m.len() ==> #[trigger] m[t][c] == T::sp_zero()
}

/// The first `n` columns of the first `n` rows form an identity block.
pub open spec fn identity_block<T: Scalar>(m: Seq<Seq<T>>, n: int) -> bool {
    forall|i: int, j: int|
        0 <= i < n && 0 <= j < n ==> #[trigger] m[i][j] == (if i == j {
            T::sp_one()
        } else {
            T::sp_zero()
        })
}

/// Step law for counting non-zero rows over a growing prefix.
pub proof fn lemma_nonzero_count_step<T: Scalar>(m: Seq<Seq<T>>, i: int)
    requires
        0 <= i < m.len(),
    ensures
        nonzero_row_count(m.take(i + 1)) == nonzero_row_count(m.take(i)) + if is_zero_row(m[i]) {
            0int
        } else {
            1int
        },
{
    assert(m.take(i + 1).drop_last() =~= m.take(i));
    assert(m.take(i + 1).last() == m[i]);
}

/// The dot product of well-formed rows is well-formed.
pub proof fn lemma_dot_wf<T: Scalar>(c: Seq<T>, x: Seq<T>)
    requires
        row_wf(c),
        row_wf(x),
        c.len() <= x.len(),
    ensures
        dot(c, x).wf(),
    decreases c.len(),
{
    T::lemma_consts_wf();
    if c.len() > 0 {
        lemma_dot_wf(c.skip(1), x.skip(1));
        T::lemma_ops_wf(c[0], x[0]);
        T::lemma_ops_wf(c[0].sp_mul(x[0]), dot(c.skip(1), x.skip(1)));
    }
}

/// A row of zeros has a zero dot product.
pub proof fn lemma_dot_zero<T: Scalar>(c: Seq<T>, x: Seq<T>)
    requires
        is_zero_row(c),
        row_wf(x),
        c.len() <= x.len(),
    ensures
        dot(c, x) == T::sp_zero(),
    decreases c.len(),
{
    T::lemma_consts_wf();
    if c.len() > 0 {
        lemma_dot_zero(c.skip(1), x.skip(1));
        lemma_zero_mul(x[0]);
        lemma_zero_add(T::sp_zero());
    }
}

/// A unit row picks out one coordinate: if `c` is one at `k` and zero
/// elsewhere, its dot product with `x` is `x[k]`.
pub proof fn lemma_dot_unit<T: Scalar>(c: Seq<T>, x: Seq<T>, k: int)
    requires
        0 <= k < c.len(),
        c.len() <= x.len(),
        row_wf(x),
        forall|j: int| 0 <= j < c.len() ==> #[trigger] c[j] == (if j == k {
            T::sp_one()
        } else {
            T::sp_zero()
        }),
    ensures
        dot(c, x) == x[k],
    decreases c.len(),
{
    T::lemma_consts_wf();
    if k == 0 {
        T::lemma_mul_comm(T::sp_one(), x[0]);
        T::lemma_mul_one(x[0]);
        assert(is_zero_row(c.skip(1)));
        lemma_dot_zero(c.skip(1), x.skip(1));
        T::lemma_add_zero(x[0]);
    } else {
        lemma_zero_mul(x[0]);
        lemma_dot_unit(c.skip(1), x.skip(1), k - 1);
        lemma_zero_add(x[k]);
    }
}

/// Scaling the coefficients scales the dot product.
pub proof fn lemma_dot_scaled<T: Scalar>(c: Seq<T>, x: Seq<T>, s: T)
    requires
        row_wf(c),
        row_wf(x),
        s.wf(),
        c.len() <= x.len(),
    ensures
        dot(row_scaled(c, s), x) == dot(c, x).sp_mul(s),
    decreases c.len(),
{
    T::lemma_consts_wf();
    if c.len() == 0 {
        lemma_zero_mul(s);
    } else {
        assert(row_scaled(c, s).skip(1) =~= row_scaled(c.skip(1), s));
        lemma_dot_scaled(c.skip(1), x.skip(1), s);
        lemma_dot_wf(c.skip(1), x.skip(1));
        let h = c[0].sp_mul(x[0]);
        let t = dot(c.skip(1), x.skip(1));
        T::lemma_ops_wf(c[0], x[0]);
        // (c0*s)*x0 == (c0*x0)*s
        T::lemma_mul_comm(c[0], s);
        T::lemma_mul_assoc(s, c[0], x[0]);
        T::lemma_ops_wf(c[0], x[0]);
        T::lemma_mul_comm(s, c[0].sp_mul(x[0]));
        // h*s + t*s == (h + t)*s
        T::lemma_mul_dist(h, t, s);
    }
}

/// Adding a scaled row adds the scaled dot product.
pub proof fn lemma_dot_add_scaled<T: Scalar>(d: Seq<T>, e: Seq<T>, x: Seq<T>, s: T)
    requires
        row_wf(d),
        row_wf(e),
        row_wf(x),
        s.wf(),
        d.len() == e.len(),
        d.len() <= x.len(),
    ensures
        dot(row_add_scaled(d, e, s), x) == dot(d, x).sp_add(s.sp_mul(dot(e, x))),
    decreases d.len(),
{
    T::lemma_consts_wf();
    if d.len() == 0 {
        T::lemma_mul_zero(s);
        T::lemma_add_zero(T::sp_zero());
    } else {
        assert(row_add_scaled(d, e, s).skip(1) =~= row_add_scaled(d.skip(1), e.skip(1), s));
        lemma_dot_add_scaled(d.skip(1), e.skip(1), x.skip(1), s);
        let dh = d[0].sp_mul(x[0]);
        let eh = e[0].sp_mul(x[0]);
        let dt = dot(d.skip(1), x.skip(1));
        let et = dot(e.skip(1), x.skip(1));
        lemma_dot_wf(d.skip(1), x.skip(1));
        lemma_dot_wf(e.skip(1), x.skip(1));
        T::lemma_ops_wf(d[0], x[0]);
        T::lemma_ops_wf(e[0], x[0]);
        T::lemma_ops_wf(s, e[0]);
        // head: (d0 + s*e0)*x0 == d0*x0 + s*(e0*x0)
        T::lemma_mul_dist(d[0], s.sp_mul(e[0]), x[0]);
        T::lemma_mul_assoc(s, e[0], x[0]);
        // sum: (dh + s*eh) + (dt + s*et) == (dh + dt) + (s*eh + s*et)
        T::lemma_ops_wf(s, eh);
        T::lemma_ops_wf(s, et);
        lemma_add_rearrange(dh, s.sp_mul(eh), dt, s.sp_mul(et));
        // s*eh + s*et == s*(eh + et)
        lemma_mul_dist_left(s, eh, et);
    }
}

/// Scaling a whole row by a non-zero factor neither gains nor loses
/// solutions of that equation.
pub proof fn lemma_row_satisfied_scaled<T: Scalar>(r: Seq<T>, x: Seq<T>, s: T)
    requires
        r.len() >= 1,
        x.len() >= r.len() - 1,
        row_wf(r),
        row_wf(x),
        s.wf(),
        s != T::sp_zero(),
    ensures
        row_satisfied(row_scaled(r, s), x) == row_satisfied(r, x),
{
    let n = r.len() - 1;
    let c = r.take(n);
    assert(row_scaled(r, s).take(n) =~= row_scaled(c, s));
    assert(row_wf(c));
    lemma_dot_scaled(c, x, s);
    lemma_dot_wf(c, x);
    if row_satisfied(r, x) {
        // dot == target, hence dot*s == target*s
    } else {
        // contrapositive: dot*s == target*s would cancel back
        if row_satisfied(row_scaled(r, s), x) {
            lemma_mul_cancel(dot(c, x), r[n], s);
        }
    }
}

/// Adding a multiple of a satisfied equation to another equation neither
/// gains nor loses solutions of the latter.
pub proof fn lemma_row_satisfied_add_scaled<T: Scalar>(d: Seq<T>, e: Seq<T>, x: Seq<T>, s: T)
    requires
        d.len() == e.len(),
        d.len() >= 1,
        x.len() >= d.len() - 1,
        row_wf(d),
        row_wf(e),
        row_wf(x),
        s.wf(),
        row_satisfied(e, x),
    ensures
        row_satisfied(row_add_scaled(d, e, s), x) == row_satisfied(d, x),
{
    let n = d.len() - 1;
    let dc = d.take(n);
    let ec = e.take(n);
    assert(row_add_scaled(d, e, s).take(n) =~= row_add_scaled(dc, ec, s));
    assert(row_wf(dc));
    assert(row_wf(ec));
    lemma_dot_add_scaled(dc, ec, x, s);
    lemma_dot_wf(dc, x);
    lemma_dot_wf(ec, x);
    // dot(ec, x) == e[n], so both sides gain the same addend s*e[n]
    if !row_satisfied(d, x) && row_satisfied(row_add_scaled(d, e, s), x) {
        T::lemma_ops_wf(s, dot(ec, x));
        lemma_add_cancel(dot(dc, x), d[n], s.sp_mul(dot(ec, x)));
    }
}

/// Exchanging two rows neither gains nor loses solutions of the system.
pub proof fn lemma_system_swap<T: Scalar>(m: Seq<Seq<T>>, i: int, j: int, x: Seq<T>)
    requires
        0 <= i < m.len(),
        0 <= j < m.len(),
    ensures
        system_satisfied(m, x) == system_satisfied(rows_swapped(m, i, j), x),
{
    let w = rows_swapped(m, i, j);
    if system_satisfied(m, x) {
        assert forall|k: int| 0 <= k < w.len() implies row_satisfied(#[trigger] w[k], x) by {
            if k == j {
                assert(w[k] == m[i]);
            } else if k == i {
                assert(w[k] == m[j]);
            } else {
                assert(w[k] == m[k]);
            }
        }
    }
    if system_satisfied(w, x) {
        assert forall|k: int| 0 <= k < m.len() implies row_satisfied(#[trigger] m[k], x) by {
            if k == i {
                assert(w[j] == m[i]);
            } else if k == j {
                assert(w[i] == m[j]);
            } else {
                assert(w[k] == m[k]);
            }
        }
    }
}

/// Scaling one row by a non-zero factor neither gains nor loses solutions
/// of the system.
pub proof fn lemma_system_scale<T: Scalar>(m: Seq<Seq<T>>, i: int, s: T, x: Seq<T>)
    requires
        0 <= i < m.len(),
        m[i].len() >= 1,
        x.len() >= m[i].len() - 1,
        row_wf(m[i]),
        row_wf(x),
        s.wf(),
        s != T::sp_zero(),
    ensures
        system_satisfied(m, x) == system_satisfied(m.update(i, row_scaled(m[i], s)), x),
{
    let w = m.update(i, row_scaled(m[i], s));
    lemma_row_satisfied_scaled(m[i], x, s);
    if system_satisfied(m, x) {
        assert forall|k: int| 0 <= k < w.len() implies row_satisfied(#[trigger] w[k], x) by {
            if k != i {
                assert(w[k] == m[k]);
            }
        }
    }
    if system_satisfied(w, x) {
        assert forall|k: int| 0 <= k < m.len() implies row_satisfied(#[trigger] m[k], x) by {
            if k != i {
                assert(w[k] == m[k]);
            } else {
                assert(row_satisfied(w[i], x));
            }
        }
    }
}

/// Adding a multiple of one row to a different row neither gains nor loses
/// solutions of the system.
pub proof fn lemma_system_add_scaled<T: Scalar>(m: Seq<Seq<T>>, r1: int, r2: int, s: T, x: Seq<T>)
    requires
        0 <= r1 < m.len(),
        0 <= r2 < m.len(),
        r1 != r2,
        m[r1].len() == m[r2].len(),
        m[r1].len() >= 1,
        x.len() >= m[r1].len() - 1,
        row_wf(m[r1]),
        row_wf(m[r2]),
        row_wf(x),
        s.wf(),
    ensures
        system_satisfied(m, x) == system_satisfied(
            m.update(r1, row_add_scaled(m[r1], m[r2], s)),
            x,
        ),
{
    let w = m.update(r1, row_add_scaled(m[r1], m[r2], s));
    if system_satisfied(m, x) {
        lemma_row_satisfied_add_scaled(m[r1], m[r2], x, s);
        assert forall|k: int| 0 <= k < w.len() implies row_satisfied(#[trigger] w[k], x) by {
            if k != r1 {
                assert(w[k] == m[k]);
            }
        }
    }
    if system_satisfied(w, x) {
        assert(w[r2] == m[r2]);
        assert(row_satisfied(m[r2], x));
        lemma_row_satisfied_add_scaled(m[r1], m[r2], x, s);
        assert forall|k: int| 0 <= k < m.len() implies row_satisfied(#[trigger] m[k], x) by {
            if k != r1 {
                assert(w[k] == m[k]);
            } else {
                assert(row_satisfied(w[r1], x));
            }
        }
    }
}

/// A system whose coefficient block is the identity is satisfied by the
/// vector read off its target column.
pub proof fn lemma_identity_solution<T: Scalar>(m: Seq<Seq<T>>, x: Seq<T>)
    requires
        m.len() >= 1,
        rectangular(m),
        width(m) == m.len() + 1,
        grid_wf(m),
        identity_block(m, m.len() as int),
        x.len() == m.len(),
        row_wf(x),
        forall|k: int| 0 <= k < m.len() ==> #[trigger] x[k] == m[k][m.len() as int],
    ensures
        system_satisfied(m, x),
{
    let n = m.len() as int;
    assert forall|i: int| 0 <= i < m.len() implies row_satisfied(#[trigger] m[i], x) by {
        let c = m[i].take(m[i].len() - 1);
        assert(c.len() == n);
        assert(forall|j: int| 0 <= j < n ==> #[trigger] c[j] == m[i][j]);
        lemma_dot_unit(c, x, i);
    }
}

/// `x` solves the system: one well-formed entry per coefficient column,
/// satisfying every equation.
pub open spec fn is_solution<T: Scalar>(m: Seq<Seq<T>>, x: Seq<T>) -> bool {
    &&& x.len() == coeff_count(m)
    &&& row_wf(x)
    &&& system_satisfied(m, x)
}

/// The system has exactly one solution.
pub open spec fn unique_solution<T: Scalar>(m: Seq<Seq<T>>) -> bool {
    exists|x: Seq<T>|
        #[trigger] is_solution(m, x) && (forall|y: Seq<T>| #[trigger] is_solution(m, y) ==> y == x)
}

/// The entrywise sum of two vectors.
pub open spec fn pointwise_add<T: Scalar>(x: Seq<T>, y: Seq<T>) -> Seq<T> {
    Seq::new(x.len(), |k: int| x[k].sp_add(y[k]))
}

/// Changing one coordinate of `x` changes the dot product by the scaled
/// difference: `dot(q, x[j := v]) + q[j]*x[j] == dot(q, x) + q[j]*v`.
pub proof fn lemma_dot_update<T: Scalar>(q: Seq<T>, x: Seq<T>, j: int, v: T)
    requires
        q.len() <= x.len(),
        0 <= j < q.len(),
        row_wf(q),
        row_wf(x),
        v.wf(),
    ensures
        dot(q, x.update(j, v)).sp_add(q[j].sp_mul(x[j])) == dot(q, x).sp_add(q[j].sp_mul(v)),
    decreases q.len(),
{
    let t0 = dot(q.skip(1), x.skip(1));
    lemma_dot_wf(q.skip(1), x.skip(1));
    T::lemma_ops_wf(q[0], x[0]);
    T::lemma_ops_wf(q[0], v);
    if j == 0 {
        assert(x.update(0, v).skip(1) =~= x.skip(1));
        // both sides are q[0]*v + q[0]*x[0] + t0, regrouped
        let a = q[0].sp_mul(v);
        let b = q[0].sp_mul(x[0]);
        T::lemma_add_assoc(a, t0, b);
        T::lemma_add_comm(t0, b);
        T::lemma_add_assoc(a, b, t0);
        T::lemma_add_comm(a, b);
        T::lemma_add_assoc(b, a, t0);
        T::lemma_add_comm(a, t0);
        T::lemma_add_assoc(b, t0, a);
    } else {
        assert(x.update(j, v).skip(1) =~= x.skip(1).update(j - 1, v));
        lemma_dot_update(q.skip(1), x.skip(1), j - 1, v);
        let h = q[0].sp_mul(x[0]);
        let tu = dot(q.skip(1), x.skip(1).update(j - 1, v));
        lemma_dot_wf(q.skip(1), x.skip(1).update(j - 1, v));
        T::lemma_ops_wf(q[j], x[j]);
        T::lemma_ops_wf(q[j], v);
        // (h + tu) + q[j]*x[j] == h + (tu + q[j]*x[j]) == h + (t0 + q[j]*v)
        //   == (h + t0) + q[j]*v
        T::lemma_add_assoc(h, tu, q[j].sp_mul(x[j]));
        T::lemma_add_assoc(h, t0, q[j].sp_mul(v));
    }
}

/// Where the supports of two vectors never overlap, the dot product is zero.
pub proof fn lemma_dot_disjoint<T: Scalar>(q: Seq<T>, x: Seq<T>)
    requires
        q.len() <= x.len(),
        row_wf(q),
        row_wf(x),
        forall|k: int| 0 <= k < q.len() ==> q[k] == T::sp_zero() || #[trigger] x[k] == T::sp_zero(),
    ensures
        dot(q, x) == T::sp_zero(),
    decreases q.len(),
{
    T::lemma_consts_wf();
    if q.len() > 0 {
        lemma_dot_disjoint(q.skip(1), x.skip(1));
        if q[0] == T::sp_zero() {
            lemma_zero_mul(x[0]);
        } else {
            T::lemma_mul_zero(q[0]);
        }
        T::lemma_add_zero(T::sp_zero());
    }
}

/// The dot product is linear in its vector argument.
pub proof fn lemma_dot_linear<T: Scalar>(q: Seq<T>, x: Seq<T>, y: Seq<T>)
    requires
        q.len() <= x.len(),
        x.len() == y.len(),
        row_wf(q),
        row_wf(x),
        row_wf(y),
    ensures
        dot(q, pointwise_add(x, y)) == dot(q, x).sp_add(dot(q, y)),
    decreases q.len(),
{
    T::lemma_consts_wf();
    if q.len() == 0 {
        T::lemma_add_zero(T::sp_zero());
    } else {
        assert(pointwise_add(x, y).skip(1) =~= pointwise_add(x.skip(1), y.skip(1)));
        lemma_dot_linear(q.skip(1), x.skip(1), y.skip(1));
        lemma_dot_wf(q.skip(1), x.skip(1));
        lemma_dot_wf(q.skip(1), y.skip(1));
        T::lemma_ops_wf(q[0], x[0]);
        T::lemma_ops_wf(q[0], y[0]);
        lemma_mul_dist_left(q[0], x[0], y[0]);
        lemma_add_rearrange(
            q[0].sp_mul(x[0]),
            q[0].sp_mul(y[0]),
            dot(q.skip(1), x.skip(1)),
            dot(q.skip(1), y.skip(1)),
        );
    }
}

/// A system whose coefficient block is the identity pins every solution to
/// the target column.
pub proof fn lemma_identity_unique<T: Scalar>(m: Seq<Seq<T>>, y: Seq<T>)
    requires
        m.len() >= 1,
        rectangular(m),
        width(m) == m.len() + 1,
        grid_wf(m),
        identity_block(m, m.len() as int),
        y.len() == m.len(),
        row_wf(y),
        system_satisfied(m, y),
    ensures
        forall|k: int| 0 <= k < m.len() ==> #[trigger] y[k] == m[k][m.len() as int],
{
    let n = m.len() as int;
    assert forall|k: int| 0 <= k < m.len() implies #[trigger] y[k] == m[k][n] by {
        assert(row_satisfied(m[k], y));
        let c = m[k].take(m[k].len() - 1);
        assert(c.len() == n);
        assert(forall|j: int| 0 <= j < n ==> #[trigger] c[j] == m[k][j]);
        lemma_dot_unit(c, y, k);
    }
}

/// Back-substitution through the unit-upper-triangular block: builds a
/// vector that is one at the pivotless column `c`, zero right of it and
/// below `j`, and whose dot product with rows `j..c` is zero.
proof fn lemma_build_null<T: Scalar>(m: Seq<Seq<T>>, c: int, j: int) -> (d: Seq<T>)
    requires
        mat_wf(m),
        width(m) >= 2,
        0 <= j <= c,
        c < coeff_count(m),
        c <= m.len(),
        pivots_done_upto(m, c),
    ensures
        d.len() == coeff_count(m),
        row_wf(d),
        d[c] == T::sp_one(),
        forall|t: int| 0 <= t < j ==> #[trigger] d[t] == T::sp_zero(),
        forall|t: int| c < t < d.len() ==> #[trigger] d[t] == T::sp_zero(),
        forall|r: int|
            j <= r < c ==> dot(#[trigger] m[r].take(coeff_count(m)), d) == T::sp_zero(),
    decreases c - j,
{
    let n = coeff_count(m);
    T::lemma_consts_wf();
    if j == c {
        let d = Seq::new(n as nat, |t: int| if t == c { T::sp_one() } else { T::sp_zero() });
        d
    } else {
        let rest = lemma_build_null(m, c, j + 1);
        let q = m[j].take(n);
        assert(row_wf(m[j]));
        assert forall|k: int| 0 <= k < q.len() implies (#[trigger] q[k]).wf() by {
            assert(q[k] == m[j][k]);
        }
        let s = dot(q, rest);
        lemma_dot_wf(q, rest);
        T::lemma_ops_wf(s, s);
        let d = rest.update(j, s.sp_neg());
        // row j: the update turns its dot product into
        //   s + q[j] * (-s) == s + (-s) == 0, since the pivot q[j] is one
        lemma_dot_update(q, rest, j, s.sp_neg());
        assert(pivot_column_done(m, j));
        assert(q[j] == T::sp_one());
        T::lemma_mul_comm(T::sp_one(), rest[j]);
        T::lemma_mul_one(rest[j]);
        T::lemma_mul_comm(T::sp_one(), s.sp_neg());
        T::lemma_mul_one(s.sp_neg());
        // rest[j] == 0, so: dot(q, d) + 0 == s + (-s) == 0
        T::lemma_mul_zero(T::sp_one());
        lemma_dot_wf(q, d);
        T::lemma_add_zero(dot(q, d));
        T::lemma_add_neg(s);
        lemma_zero_add(dot(q, d));
        assert(dot(q, d).sp_add(T::sp_zero()) == s.sp_add(s.sp_neg()));
        assert(dot(q, d) == T::sp_zero());
        // rows below j: their entry in column j is zero, so the update is
        // invisible to them
        assert forall|r: int|
            j + 1 <= r < c implies dot(#[trigger] m[r].take(n), d) == T::sp_zero() by {
            let qr = m[r].take(n);
            assert(row_wf(m[r]));
            assert forall|k: int| 0 <= k < qr.len() implies (#[trigger] qr[k]).wf() by {
                assert(qr[k] == m[r][k]);
            }
            lemma_dot_update(qr, rest, j, s.sp_neg());
            assert(pivot_column_done(m, j));
            assert(qr[j] == m[r][j]);
            assert(qr[j] == T::sp_zero());
            lemma_zero_mul(rest[j]);
            lemma_zero_mul(s.sp_neg());
            lemma_dot_wf(qr, d);
            lemma_dot_wf(qr, rest);
            T::lemma_add_zero(dot(qr, d));
            T::lemma_add_zero(dot(qr, rest));
        }
        d
    }
}

/// A coefficient column with no pivot available makes the solution not
/// unique: elimination reached column `c` with unit pivots before it and
/// only zeros from the diagonal down, so the first `c + 1` columns are
/// linearly dependent and any solution can be shifted along a null vector.
pub proof fn lemma_pivotless_not_unique<T: Scalar>(m: Seq<Seq<T>>, c: int)
    requires
        mat_wf(m),
        width(m) >= 2,
        0 <= c < coeff_count(m),
        c <= m.len(),
        pivots_done_upto(m, c),
        no_pivot_column(m, c),
    ensures
        !unique_solution(m),
{
    let n = coeff_count(m);
    T::lemma_consts_wf();
    if unique_solution(m) {
        let x = choose|x: Seq<T>|
            #[trigger] is_solution(m, x) && (forall|y: Seq<T>|
                #[trigger] is_solution(m, y) ==> y == x);
        let d = lemma_build_null(m, c, 0);
        let x2 = pointwise_add(x, d);
        assert(x2.len() == n);
        assert forall|k: int| 0 <= k < x2.len() implies (#[trigger] x2[k]).wf() by {
            T::lemma_ops_wf(x[k], d[k]);
        }
        // every equation tolerates the shift: the null vector's dot product
        // with each coefficient row is zero
        assert forall|r: int| 0 <= r < m.len() implies row_satisfied(#[trigger] m[r], x2) by {
            let qr = m[r].take(m[r].len() - 1);
            assert(qr.len() == n);
            assert(row_wf(m[r]));
            assert forall|k: int| 0 <= k < qr.len() implies (#[trigger] qr[k]).wf() by {
                assert(qr[k] == m[r][k]);
            }
            lemma_dot_linear(qr, x, d);
            if r < c {
                assert(dot(m[r].take(n), d) == T::sp_zero());
                assert(qr =~= m[r].take(n));
            } else {
                // rows at or below c are zero on the support of d
                assert forall|k: int|
                    0 <= k < qr.len() implies qr[k] == T::sp_zero() || #[trigger] d[k]
                    == T::sp_zero() by {
                    if k < c {
                        assert(pivot_column_done(m, k));
                        assert(qr[k] == m[r][k]);
                    } else if k == c {
                        assert(qr[k] == m[r][c]);
                    }
                }
                lemma_dot_disjoint(qr, d);
            }
            assert(row_satisfied(m[r], x));
            lemma_dot_wf(qr, x);
            T::lemma_add_zero(dot(qr, x));
        }
        assert(is_solution(m, x2));
        assert(x2 == x);
        // but the shift moved coordinate c by one
        assert(x2[c] == x[c].sp_add(T::sp_one()));
        T::lemma_add_zero(x[c]);
        T::lemma_add_comm(x[c], T::sp_one());
        T::lemma_add_comm(x[c], T::sp_zero());
        lemma_add_cancel(T::sp_one(), T::sp_zero(), x[c]);
        assert(false);
    }
}

} // verus!
