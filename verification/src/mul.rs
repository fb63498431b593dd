use vstd::prelude::*;

use crate::matrix::Mat;

verus! {

/// The sum of the first `t` terms of the dot product of row `i` of `a` and
/// column `k` of `b`, accumulated left to right over the exact integers.
pub open spec fn dot_prefix(a: Mat, b: Mat, i: int, k: int, t: int) -> int
    decreases t,
{
    if t <= 0 {
        0
    } else {
        dot_prefix(a, b, i, k, t - 1) + a.num(i, t - 1) * b.num(t - 1, k)
    }
}

/// The numerator of entry (`i`, `k`) of the product `a * b`: the full dot
/// product of row `i` of `a` and column `k` of `b`.
pub open spec fn mat_mul_entry(a: Mat, b: Mat, i: int, k: int) -> int {
    dot_prefix(a, b, i, k, a.spec_columns())
}

/// Every term of every dot product of `a * b`, and every left-to-right
/// partial sum, fits in an `i64`.
pub open spec fn mul_fits(a: Mat, b: Mat) -> bool {
    forall|i: int, k: int, l: int|
        0 <= i < a.spec_rows() && 0 <= k < b.spec_columns() && 0 < l <= a.spec_columns()
            ==> i64::MIN <= #[trigger] dot_prefix(a, b, i, k, l) <= i64::MAX
                && i64::MIN <= a.num(i, l - 1) * b.num(l - 1, k) <= i64::MAX
}

/// The product of the two denominators fits in a `u64`.
pub open spec fn scale_fits(a: Mat, b: Mat) -> bool {
    a.spec_scale() * b.spec_scale() <= u64::MAX
}

/// Reshapes `b` into its transpose: entry (`k`, `t`) of the result is entry
/// (`t`, `k`) of `b`, over the same denominator. The multiplication routines
/// build this first so that both operands of each dot product are then read
/// along contiguous rows.
pub fn transpose(b: &Mat) -> (bt: Mat)
    requires
        b.wf(),
    ensures
        bt.wf(),
        bt.spec_rows() == b.spec_columns(),
        bt.spec_columns() == b.spec_rows(),
        bt.spec_scale() == b.spec_scale(),
        forall|k: int, t: int|
            0 <= k < b.spec_columns() && 0 <= t < b.spec_rows()
                ==> #[trigger] bt.num(k, t) == b.num(t, k),
{
    let n: usize = b.rows();
    let p: usize = b.columns();
    proof {
        b.lemma_wf_grid_bound();
        assert((p as int) * (n as int) == (n as int) * (p as int)) by (nonlinear_arith);
    }
    let mut bt = Mat::new(p, n, b.scale());
    let mut i: usize = 0;
    while i < n
        invariant
            b.wf(),
            bt.wf(),
            n == b.spec_rows(),
            p == b.spec_columns(),
            bt.spec_rows() == p,
            bt.spec_columns() == n,
            bt.spec_scale() == b.spec_scale(),
            i <= n,
            forall|i2: int, j2: int|
                0 <= i2 < i && 0 <= j2 < p ==> bt.num(j2, i2) == b.num(i2, j2),
        decreases n - i,
    {
        let mut j: usize = 0;
        while j < p
            invariant
                b.wf(),
                bt.wf(),
                n == b.spec_rows(),
                p == b.spec_columns(),
                bt.spec_rows() == p,
                bt.spec_columns() == n,
                bt.spec_scale() == b.spec_scale(),
                i < n,
                j <= p,
                forall|i2: int, j2: int|
                    0 <= i2 < i && 0 <= j2 < p ==> bt.num(j2, i2) == b.num(i2, j2),
                forall|j2: int| 0 <= j2 < j ==> bt.num(j2, i as int) == b.num(i as int, j2),
            decreases p - j,
        {
            let v: i64 = b.get(i, j);
            bt.set(j, i, v);
            j = j + 1;
        }
        i = i + 1;
    }
    bt
}

/// Multiplies `a` (m*n) by `b` (n*p) into a freshly allocated m*p matrix:
/// entry (`i`, `k`) of the result is the exact dot product of row `i` of `a`
/// and column `k` of `b`, and the result's denominator is the product of the
/// two denominators. Matching inner dimensions are a precondition; `b` is
/// transposed internally for contiguous access, and neither input is changed.
pub fn matmul(a: &Mat, b: &Mat) -> (c: Mat)
    requires
        a.wf(),
        b.wf(),
        a.spec_columns() == b.spec_rows(),
        a.spec_rows() * b.spec_columns() <= usize::MAX,
        scale_fits(*a, *b),
        mul_fits(*a, *b),
    ensures
        c.wf(),
        c.spec_rows() == a.spec_rows(),
        c.spec_columns() == b.spec_columns(),
        c.spec_scale() == a.spec_scale() * b.spec_scale(),
        forall|i: int, k: int|
            0 <= i < a.spec_rows() && 0 <= k < b.spec_columns()
                ==> #[trigger] c.num(i, k) == mat_mul_entry(*a, *b, i, k),
{
    let m: usize = a.rows();
    let n: usize = a.columns();
    let p: usize = b.columns();
    let scale: u64 = a.scale() * b.scale();
    let bt = transpose(b);
    let mut c = Mat::new(m, p, scale);
    let mut i: usize = 0;
    while i < m
        invariant
            a.wf(),
            b.wf(),
            bt.wf(),
            mul_fits(*a, *b),
            m == a.spec_rows(),
            n == a.spec_columns(),
            n == b.spec_rows(),
            p == b.spec_columns(),
            bt.spec_rows() == p,
            bt.spec_columns() == n,
            forall|k2: int, t2: int|
                0 <= k2 < p && 0 <= t2 < n ==> bt.num(k2, t2) == b.num(t2, k2),
            c.wf(),
            c.spec_rows() == m,
            c.spec_columns() == p,
            c.spec_scale() == a.spec_scale() * b.spec_scale(),
            i <= m,
            forall|i2: int, k2: int|
                0 <= i2 < i && 0 <= k2 < p ==> c.num(i2, k2) == mat_mul_entry(*a, *b, i2, k2),
        decreases m - i,
    {
        let mut k: usize = 0;
        while k < p
            invariant
                a.wf(),
                b.wf(),
                bt.wf(),
                mul_fits(*a, *b),
                m == a.spec_rows(),
                n == a.spec_columns(),
                n == b.spec_rows(),
                p == b.spec_columns(),
                bt.spec_rows() == p,
                bt.spec_columns() == n,
                forall|k2: int, t2: int|
                    0 <= k2 < p && 0 <= t2 < n ==> bt.num(k2, t2) == b.num(t2, k2),
                c.wf(),
                c.spec_rows() == m,
                c.spec_columns() == p,
                c.spec_scale() == a.spec_scale() * b.spec_scale(),
                i < m,
                k <= p,
                forall|i2: int, k2: int|
                    0 <= i2 < i && 0 <= k2 < p ==> c.num(i2, k2) == mat_mul_entry(*a, *b, i2, k2),
                forall|k2: int| 0 <= k2 < k ==> c.num(i as int, k2) == mat_mul_entry(*a, *b, i as int, k2),
            decreases p - k,
        {
            let mut acc: i64 = 0;
            let mut t: usize = 0;
            while t < n
                invariant
                    a.wf(),
                    b.wf(),
                    bt.wf(),
                    mul_fits(*a, *b),
                    m == a.spec_rows(),
                    n == a.spec_columns(),
                    n == b.spec_rows(),
                    p == b.spec_columns(),
                    bt.spec_rows() == p,
                    bt.spec_columns() == n,
                    forall|k2: int, t2: int|
                        0 <= k2 < p && 0 <= t2 < n ==> bt.num(k2, t2) == b.num(t2, k2),
                    i < m,
                    k < p,
                    t <= n,
                    acc == dot_prefix(*a, *b, i as int, k as int, t as int),
                decreases n - t,
            {
                proof {
                    assert(i64::MIN <= dot_prefix(*a, *b, i as int, k as int, t as int + 1)
                        <= i64::MAX);
                }
                let x: i64 = a.get(i, t);
                let y: i64 = bt.get(k, t);
                acc = acc + x * y;
                t = t + 1;
            }
            c.set(i, k, acc);
            k = k + 1;
        }
        i = i + 1;
    }
    c
}

/// Like [`matmul`], with the preconditions checked at run time instead:
/// returns `None` exactly when the inner dimensions differ, when the product
/// of the two denominators overflows a `u64`, or when a term or a
/// left-to-right partial sum of some dot product overflows an `i64`;
/// otherwise returns the product matrix, described as for [`matmul`].
pub fn matmul_checked(a: &Mat, b: &Mat) -> (r: Option<Mat>)
    requires
        a.wf(),
        b.wf(),
        a.spec_rows() * b.spec_columns() <= usize::MAX,
    ensures
        match r {
            Some(c) => a.spec_columns() == b.spec_rows()
                && c.wf()
                && c.spec_rows() == a.spec_rows()
                && c.spec_columns() == b.spec_columns()
                && c.spec_scale() == a.spec_scale() * b.spec_scale()
                && (forall|i: int, k: int|
                    0 <= i < a.spec_rows() && 0 <= k < b.spec_columns()
                        ==> #[trigger] c.num(i, k) == mat_mul_entry(*a, *b, i, k)),
            None => !(a.spec_columns() == b.spec_rows() && scale_fits(*a, *b)
                && mul_fits(*a, *b)),
        },
{
    if a.columns() != b.rows() {
        return None;
    }
    let sa: u64 = a.scale();
    let sb: u64 = b.scale();
    proof {
        assert((sa as int) * (sb as int) <= u128::MAX) by (nonlinear_arith)
            requires
                sa <= u64::MAX,
                sb <= u64::MAX,
        ;
    }
    let sprod: u128 = (sa as u128) * (sb as u128);
    if sprod > (u64::MAX as u128) {
        return None;
    }
    let scale: u64 = sprod as u64;
    let m: usize = a.rows();
    let n: usize = a.columns();
    let p: usize = b.columns();
    let bt = transpose(b);
    let mut c = Mat::new(m, p, scale);
    let mut i: usize = 0;
    while i < m
        invariant
            a.wf(),
            b.wf(),
            bt.wf(),
            m == a.spec_rows(),
            n == a.spec_columns(),
            n == b.spec_rows(),
            p == b.spec_columns(),
            bt.spec_rows() == p,
            bt.spec_columns() == n,
            forall|k2: int, t2: int|
                0 <= k2 < p && 0 <= t2 < n ==> bt.num(k2, t2) == b.num(t2, k2),
            c.wf(),
            c.spec_rows() == m,
            c.spec_columns() == p,
            c.spec_scale() == a.spec_scale() * b.spec_scale(),
            i <= m,
            forall|i2: int, k2: int|
                0 <= i2 < i && 0 <= k2 < p ==> c.num(i2, k2) == mat_mul_entry(*a, *b, i2, k2),
        decreases m - i,
    {
        let mut k: usize = 0;
        while k < p
            invariant
                a.wf(),
                b.wf(),
                bt.wf(),
                m == a.spec_rows(),
                n == a.spec_columns(),
                n == b.spec_rows(),
                p == b.spec_columns(),
                bt.spec_rows() == p,
                bt.spec_columns() == n,
                forall|k2: int, t2: int|
                    0 <= k2 < p && 0 <= t2 < n ==> bt.num(k2, t2) == b.num(t2, k2),
                c.wf(),
                c.spec_rows() == m,
                c.spec_columns() == p,
                c.spec_scale() == a.spec_scale() * b.spec_scale(),
                i < m,
                k <= p,
                forall|i2: int, k2: int|
                    0 <= i2 < i && 0 <= k2 < p ==> c.num(i2, k2) == mat_mul_entry(*a, *b, i2, k2),
                forall|k2: int|
                    0 <= k2 < k ==> c.num(i as int, k2) == mat_mul_entry(*a, *b, i as int, k2),
            decreases p - k,
        {
            let mut acc: i128 = 0;
            let mut t: usize = 0;
            while t < n
                invariant
                    a.wf(),
                    b.wf(),
                    bt.wf(),
                    m == a.spec_rows(),
                    n == a.spec_columns(),
                    n == b.spec_rows(),
                    p == b.spec_columns(),
                    bt.spec_rows() == p,
                    bt.spec_columns() == n,
                    forall|k2: int, t2: int|
                        0 <= k2 < p && 0 <= t2 < n ==> bt.num(k2, t2) == b.num(t2, k2),
                    i < m,
                    k < p,
                    t <= n,
                    acc == dot_prefix(*a, *b, i as int, k as int, t as int),
                    i64::MIN <= acc <= i64::MAX,
                decreases n - t,
            {
                let x: i64 = a.get(i, t);
                let y: i64 = bt.get(k, t);
                proof {
                    assert(i128::MIN <= (x as int) * (y as int) <= i128::MAX)
                        by (nonlinear_arith)
                        requires
                            i64::MIN <= x <= i64::MAX,
                            i64::MIN <= y <= i64::MAX,
                    ;
                }
                let prod: i128 = (x as i128) * (y as i128);
                if prod > (i64::MAX as i128) || prod < (i64::MIN as i128) {
                    proof {
                        if mul_fits(*a, *b) {
                            assert(i64::MIN
                                <= dot_prefix(*a, *b, i as int, k as int, t as int + 1)
                                <= i64::MAX);
                            assert(false);
                        }
                    }
                    return None;
                }
                let sum: i128 = acc + prod;
                if sum > (i64::MAX as i128) || sum < (i64::MIN as i128) {
                    proof {
                        if mul_fits(*a, *b) {
                            assert(i64::MIN
                                <= dot_prefix(*a, *b, i as int, k as int, t as int + 1)
                                <= i64::MAX);
                            assert(false);
                        }
                    }
                    return None;
                }
                acc = sum;
                t = t + 1;
            }
            c.set(i, k, acc as i64);
            k = k + 1;
        }
        i = i + 1;
    }
    Some(c)
}

/// An identity matrix over some denominator `s`: square, with the numerator
/// `s` (the value 1) on the diagonal and 0 elsewhere.
pub open spec fn is_identity(m: Mat) -> bool {
    m.spec_rows() == m.spec_columns() && forall|i: int, j: int|
        0 <= i < m.spec_rows() && 0 <= j < m.spec_columns()
            ==> m.num(i, j) == (if i == j {
                m.spec_scale()
            } else {
                0
            })
}

/// An all-zero matrix: every numerator is 0, whatever the denominator.
pub open spec fn is_zero(m: Mat) -> bool {
    forall|i: int, j: int|
        0 <= i < m.spec_rows() && 0 <= j < m.spec_columns() ==> m.num(i, j) == 0
}

/// Builds the `n * n` identity matrix over the denominator `s`.
pub fn identity(n: usize, s: i64) -> (m: Mat)
    requires
        n * n <= usize::MAX,
        1 <= s,
    ensures
        m.wf(),
        m.spec_rows() == n,
        m.spec_columns() == n,
        m.spec_scale() == s,
        is_identity(m),
{
    let mut m = Mat::new(n, n, s as u64);
    let mut d: usize = 0;
    while d < n
        invariant
            m.wf(),
            m.spec_rows() == n,
            m.spec_columns() == n,
            m.spec_scale() == s,
            d <= n,
            forall|i2: int, j2: int|
                0 <= i2 < n && 0 <= j2 < n ==> m.num(i2, j2) == (if i2 == j2 && i2 < d {
                    s as int
                } else {
                    0
                }),
        decreases n - d,
    {
        m.set(d, d, s);
        d = d + 1;
    }
    m
}

/// The first `t` terms of a dot product against an identity matrix sum to
/// the single scaled entry `a.num(i, k) * idm.spec_scale()` once the prefix
/// has passed column `k`, and to 0 before that.
proof fn lemma_identity_dot_prefix(a: Mat, idm: Mat, i: int, k: int, t: int)
    requires
        is_identity(idm),
        a.spec_columns() == idm.spec_rows(),
        0 <= k < idm.spec_columns(),
        0 <= t <= a.spec_columns(),
    ensures
        dot_prefix(a, idm, i, k, t) == (if t > k {
            a.num(i, k) * idm.spec_scale()
        } else {
            0
        }),
    decreases t,
{
    if t > 0 {
        lemma_identity_dot_prefix(a, idm, i, k, t - 1);
        if t - 1 == k {
            assert(idm.num(t - 1, k) == idm.spec_scale());
        } else {
            assert(idm.num(t - 1, k) == 0);
        }
    }
}

/// Law: multiplying on the right by an identity matrix returns the matrix
/// unchanged. Each product numerator is the matching numerator of `a` scaled
/// by the identity's denominator, so over the combined denominator
/// `a.spec_scale() * idm.spec_scale()` it has exactly the value of `a`'s
/// entry over `a.spec_scale()`.
pub proof fn lemma_mul_identity(a: Mat, idm: Mat, i: int, k: int)
    requires
        is_identity(idm),
        a.spec_columns() == idm.spec_rows(),
        0 <= i < a.spec_rows(),
        0 <= k < idm.spec_columns(),
    ensures
        mat_mul_entry(a, idm, i, k) == a.num(i, k) * idm.spec_scale(),
        mat_mul_entry(a, idm, i, k) * a.spec_scale()
            == a.num(i, k) * (a.spec_scale() * idm.spec_scale()),
{
    lemma_identity_dot_prefix(a, idm, i, k, a.spec_columns());
    assert((a.num(i, k) * idm.spec_scale()) * a.spec_scale()
        == a.num(i, k) * (a.spec_scale() * idm.spec_scale())) by (nonlinear_arith);
}

/// Every prefix of a dot product against an all-zero operand sums to 0.
proof fn lemma_zero_dot_prefix(a: Mat, b: Mat, i: int, k: int, t: int)
    requires
        a.spec_columns() == b.spec_rows(),
        0 <= i < a.spec_rows(),
        0 <= k < b.spec_columns(),
        0 <= t <= a.spec_columns(),
        is_zero(a) || is_zero(b),
    ensures
        dot_prefix(a, b, i, k, t) == 0,
    decreases t,
{
    if t > 0 {
        lemma_zero_dot_prefix(a, b, i, k, t - 1);
        if is_zero(a) {
            assert(a.num(i, t - 1) == 0);
        } else {
            assert(b.num(t - 1, k) == 0);
        }
    }
}

/// Every numerator of `m` has magnitude at most `c`.
pub open spec fn entries_bounded(m: Mat, c: int) -> bool {
    forall|i: int, j: int|
        0 <= i < m.spec_rows() && 0 <= j < m.spec_columns()
            ==> -c <= #[trigger] m.num(i, j) <= c
}

/// A dot-product prefix of `t` terms, each of magnitude at most `c1 * c2`,
/// has magnitude at most `t * c1 * c2`.
proof fn lemma_dot_prefix_bounded(a: Mat, b: Mat, c1: int, c2: int, i: int, k: int, t: int)
    requires
        0 <= c1,
        0 <= c2,
        entries_bounded(a, c1),
        entries_bounded(b, c2),
        a.spec_columns() == b.spec_rows(),
        0 <= i < a.spec_rows(),
        0 <= k < b.spec_columns(),
        0 <= t <= a.spec_columns(),
    ensures
        -(t * c1 * c2) <= dot_prefix(a, b, i, k, t) <= t * c1 * c2,
    decreases t,
{
    if t <= 0 {
        assert(t * c1 * c2 == 0) by (nonlinear_arith)
            requires
                t == 0,
        ;
    } else {
        lemma_dot_prefix_bounded(a, b, c1, c2, i, k, t - 1);
        assert(-(c1 * c2) <= a.num(i, t - 1) * b.num(t - 1, k) <= c1 * c2)
            by (nonlinear_arith)
            requires
                -c1 <= a.num(i, t - 1) <= c1,
                -c2 <= b.num(t - 1, k) <= c2,
                0 <= c1,
                0 <= c2,
        ;
        assert((t - 1) * c1 * c2 + c1 * c2 == t * c1 * c2) by (nonlinear_arith);
    }
}

/// Law-support: when the numerators of `a` and `b` are bounded by `c1` and
/// `c2` and the worst-case sum `columns * c1 * c2` fits in an `i64`, every
/// term and every partial sum of the multiplication fits, so [`matmul`]'s
/// overflow precondition holds.
pub proof fn lemma_entries_bounded_mul_fits(a: Mat, b: Mat, c1: int, c2: int)
    requires
        0 <= c1,
        0 <= c2,
        entries_bounded(a, c1),
        entries_bounded(b, c2),
        a.spec_columns() == b.spec_rows(),
        a.spec_columns() * c1 * c2 <= i64::MAX,
    ensures
        mul_fits(a, b),
{
    assert forall|i: int, k: int, l: int|
        0 <= i < a.spec_rows() && 0 <= k < b.spec_columns() && 0 < l <= a.spec_columns()
            implies i64::MIN <= #[trigger] dot_prefix(a, b, i, k, l) <= i64::MAX
                && i64::MIN <= a.num(i, l - 1) * b.num(l - 1, k) <= i64::MAX by {
        lemma_dot_prefix_bounded(a, b, c1, c2, i, k, l);
        assert(l * c1 * c2 <= a.spec_columns() * c1 * c2) by (nonlinear_arith)
            requires
                l <= a.spec_columns(),
                0 <= c1,
                0 <= c2,
        ;
        assert(-(c1 * c2) <= a.num(i, l - 1) * b.num(l - 1, k) <= c1 * c2)
            by (nonlinear_arith)
            requires
                -c1 <= a.num(i, l - 1) <= c1,
                -c2 <= b.num(l - 1, k) <= c2,
                0 <= c1,
                0 <= c2,
        ;
        assert(c1 * c2 <= l * c1 * c2) by (nonlinear_arith)
            requires
                1 <= l,
                0 <= c1,
                0 <= c2,
        ;
    }
}

/// Law: multiplying any matrix by an all-zero matrix of compatible shape,
/// on either side, yields an all-zero result.
pub proof fn lemma_mul_zero(a: Mat, b: Mat, i: int, k: int)
    requires
        a.spec_columns() == b.spec_rows(),
        0 <= i < a.spec_rows(),
        0 <= k < b.spec_columns(),
        is_zero(a) || is_zero(b),
    ensures
        mat_mul_entry(a, b, i, k) == 0,
{
    a.lemma_dims_nonneg();
    lemma_zero_dot_prefix(a, b, i, k, a.spec_columns());
}

} // verus!
