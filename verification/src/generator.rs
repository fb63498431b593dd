use vstd::prelude::*;

use crate::matrix::Mat;
use crate::mul::dot_prefix;
use crate::mul::entries_bounded;
use crate::mul::lemma_entries_bounded_mul_fits;
use crate::mul::matmul_checked;
use crate::mul::mul_fits;
use crate::mul::scale_fits;

verus! {

/// The numerator of the generated entry at row `i`, column `j`: the entry's
/// value is `(i - j) * (i + j) / (n * n)`, i.e. `1/(n*n) * (i - j) * (i + j)`.
pub open spec fn gen_num(i: int, j: int) -> int {
    (i - j) * (i + j)
}

/// A matrix filled by the generator for size `n`: square, with the
/// denominator `n * n` and the numerator `gen_num` at every position.
pub open spec fn is_generated(m: Mat, n: int) -> bool {
    m.spec_rows() == n && m.spec_columns() == n && m.spec_scale() == n * n
        && forall|i: int, j: int|
            0 <= i < n && 0 <= j < n ==> #[trigger] m.num(i, j) == gen_num(i, j)
}

/// The first `t` terms of the dot product of row `i` and column `k` of two
/// generated matrices of a common size, written without naming the matrices.
pub open spec fn gen_dot(i: int, k: int, t: int) -> int
    decreases t,
{
    if t <= 0 {
        0
    } else {
        gen_dot(i, k, t - 1) + gen_num(i, t - 1) * gen_num(t - 1, k)
    }
}

/// For indices below `n`, the generated numerator has magnitude below
/// `n * n`.
pub proof fn lemma_gen_num_bound(n: int, i: int, j: int)
    by (nonlinear_arith)
    requires
        0 <= i < n,
        0 <= j < n,
    ensures
        -(n * n) <= gen_num(i, j) <= n * n,
{
}

/// Fills an `n * n` matrix from the closed-form benchmark formula: the entry
/// at row `i`, column `j` is `tmp * (i - j) * (i + j)` with `tmp = 1/(n*n)`,
/// stored exactly as the numerator `(i - j) * (i + j)` over the common
/// denominator `n * n`. The same `n` always yields the same matrix.
pub fn matgen(n: usize) -> (m: Mat)
    requires
        n * n <= usize::MAX,
        n <= 0x7fff_ffff,
    ensures
        m.wf(),
        is_generated(m, n as int),
{
    proof {
        assert((n as int) * (n as int) <= 0x7fff_ffff * 0x7fff_ffff)
            by (nonlinear_arith)
            requires
                n <= 0x7fff_ffff,
        ;
    }
    let scale: u64 = (n as u64) * (n as u64);
    let mut m = Mat::new(n, n, scale);
    let mut i: usize = 0;
    while i < n
        invariant
            m.wf(),
            m.spec_rows() == n,
            m.spec_columns() == n,
            m.spec_scale() == n * n,
            i <= n,
            n <= 0x7fff_ffff,
            forall|i2: int, j2: int|
                0 <= i2 < i && 0 <= j2 < n ==> #[trigger] m.num(i2, j2) == gen_num(i2, j2),
        decreases n - i,
    {
        let mut j: usize = 0;
        while j < n
            invariant
                m.wf(),
                m.spec_rows() == n,
                m.spec_columns() == n,
                m.spec_scale() == n * n,
                i < n,
                j <= n,
                n <= 0x7fff_ffff,
                forall|i2: int, j2: int|
                    0 <= i2 < i && 0 <= j2 < n ==> #[trigger] m.num(i2, j2) == gen_num(i2, j2),
                forall|j2: int|
                    0 <= j2 < j ==> #[trigger] m.num(i as int, j2) == gen_num(i as int, j2),
            decreases n - j,
        {
            proof {
                lemma_gen_num_bound(n as int, i as int, j as int);
                assert((n as int) * (n as int) <= 0x7fff_ffff * 0x7fff_ffff)
                    by (nonlinear_arith)
                    requires
                        n <= 0x7fff_ffff,
                ;
            }
            let d: i64 = (i as i64) - (j as i64);
            let s: i64 = (i as i64) + (j as i64);
            let v: i64 = d * s;
            m.set(i, j, v);
            j = j + 1;
        }
        i = i + 1;
    }
    m
}

/// Every prefix of a dot product of two generated matrices of size `n`
/// equals the closed-form [`gen_dot`].
proof fn lemma_generated_dot(a: Mat, b: Mat, n: int, i: int, k: int, t: int)
    requires
        is_generated(a, n),
        is_generated(b, n),
        0 <= i < n,
        0 <= k < n,
        0 <= t <= n,
    ensures
        dot_prefix(a, b, i, k, t) == gen_dot(i, k, t),
    decreases t,
{
    if t > 0 {
        lemma_generated_dot(a, b, n, i, k, t - 1);
    }
}

/// The benchmark pipeline with the driver's I/O stripped away: generates the
/// two size-`n` operands and multiplies them. Up to size 6208 the worst-case
/// dot-product sum `n * (n*n) * (n*n)` fits in an `i64` and the product is
/// guaranteed; past that bound the run-time overflow checks of
/// [`matmul_checked`] decide.
pub fn benchmark_product(n: usize) -> (r: Option<Mat>)
    requires
        n * n <= usize::MAX,
        n <= 0x7fff_ffff,
    ensures
        n <= 6208 ==> r is Some,
        match r {
            Some(c) => c.wf()
                && c.spec_rows() == n
                && c.spec_columns() == n
                && c.spec_scale() == (n * n) * (n * n)
                && (forall|i: int, k: int|
                    0 <= i < n && 0 <= k < n
                        ==> #[trigger] c.num(i, k) == gen_dot(i, k, n as int)),
            None => n > 6208,
        },
{
    let a = matgen(n);
    let b = matgen(n);
    proof {
        let nn = (n as int) * (n as int);
        if n <= 6208 {
            assert forall|i: int, j: int|
                0 <= i < a.spec_rows() && 0 <= j < a.spec_columns()
                    implies -nn <= #[trigger] a.num(i, j) <= nn by {
                lemma_gen_num_bound(n as int, i, j);
            }
            assert forall|i: int, j: int|
                0 <= i < b.spec_rows() && 0 <= j < b.spec_columns()
                    implies -nn <= #[trigger] b.num(i, j) <= nn by {
                lemma_gen_num_bound(n as int, i, j);
            }
            assert(entries_bounded(a, nn));
            assert(entries_bounded(b, nn));
            assert((n as int) * nn * nn <= i64::MAX) by (nonlinear_arith)
                requires
                    n <= 6208,
                    nn == (n as int) * (n as int),
            ;
            lemma_entries_bounded_mul_fits(a, b, nn, nn);
            assert(nn * nn <= u64::MAX) by (nonlinear_arith)
                requires
                    n <= 6208,
                    nn == (n as int) * (n as int),
            ;
            assert(scale_fits(a, b));
            assert(mul_fits(a, b));
        }
    }
    match matmul_checked(&a, &b) {
        Some(c) => {
            proof {
                assert forall|i: int, k: int|
                    0 <= i < n && 0 <= k < n
                        implies #[trigger] c.num(i, k) == gen_dot(i, k, n as int) by {
                    lemma_generated_dot(a, b, n as int, i, k, n as int);
                }
            }
            Some(c)
        },
        None => None,
    }
}

} // verus!
