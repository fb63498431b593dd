use matmul::{
    benchmark_product, effective_n, identity, matgen, matmul, matmul_checked, transpose, Mat,
};

/// Independent reference for the generator formula, computed the plain way.
fn expected_gen_num(i: i64, j: i64) -> i64 {
    (i - j) * (i + j)
}

#[test]
fn matgen_matches_formula() {
    let n: usize = 5;
    let m = matgen(n);
    assert_eq!(m.rows(), n);
    assert_eq!(m.columns(), n);
    assert_eq!(m.scale(), (n * n) as u64);
    for i in 0..n {
        for j in 0..n {
            assert_eq!(m.get(i, j), expected_gen_num(i as i64, j as i64));
        }
    }
}

#[test]
fn matgen_values_as_floats() {
    // n = 2: tmp = 1/4, so the values are exactly representable doubles.
    let m = matgen(2);
    assert_eq!(m.scale(), 4);
    let tmp = 1.0f64 / 2.0 / 2.0;
    for i in 0..2usize {
        for j in 0..2usize {
            let value = m.get(i, j) as f64 / m.scale() as f64;
            let reference = tmp * (i as f64 - j as f64) * (i as f64 + j as f64);
            assert_eq!(value, reference);
        }
    }
    assert_eq!(m.get(0, 0), 0);
    assert_eq!(m.get(0, 1), -1);
    assert_eq!(m.get(1, 0), 1);
    assert_eq!(m.get(1, 1), 0);
}

#[test]
fn end_to_end_smallest_even_size() {
    // The full pipeline at n = 2: generate both operands, multiply, and hold
    // the middle entry against a hand-computed dot product.
    let a = matgen(2);
    let b = matgen(2);
    let c = matmul(&a, &b);
    assert_eq!(c.rows(), 2);
    assert_eq!(c.columns(), 2);
    assert_eq!(c.scale(), 16);
    // Row 1 of A is [1, 0] and column 1 of B is [-1, 0] (numerators), so the
    // entry (1, 1) of the product is -1 over 16.
    assert_eq!(c.get(1, 1), -1);
    let value = c.get(1, 1) as f64 / c.scale() as f64;
    // Hand-computed in doubles: A[1][0] * Bt[1][0] + A[1][1] * Bt[1][1].
    let bt = transpose(&b);
    let a10 = a.get(1, 0) as f64 / a.scale() as f64;
    let a11 = a.get(1, 1) as f64 / a.scale() as f64;
    let bt10 = bt.get(1, 0) as f64 / bt.scale() as f64;
    let bt11 = bt.get(1, 1) as f64 / bt.scale() as f64;
    assert_eq!(value, a10 * bt10 + a11 * bt11);
    assert_eq!(value, -0.0625);
}

#[test]
fn matmul_matches_reference_dot_product() {
    // A is 2x3, B is 3x2, with handpicked numerators over denominator 1.
    let mut a = Mat::new(2, 3, 1);
    let mut b = Mat::new(3, 2, 1);
    let a_vals = [[2i64, -3, 5], [7, 11, -13]];
    let b_vals = [[1i64, 4], [-6, 8], [9, -2]];
    for i in 0..2 {
        for t in 0..3 {
            a.set(i, t, a_vals[i][t]);
        }
    }
    for t in 0..3 {
        for k in 0..2 {
            b.set(t, k, b_vals[t][k]);
        }
    }
    let c = matmul(&a, &b);
    assert_eq!(c.rows(), 2);
    assert_eq!(c.columns(), 2);
    assert_eq!(c.scale(), 1);
    for i in 0..2 {
        for k in 0..2 {
            let mut dot: i64 = 0;
            for t in 0..3 {
                dot += a_vals[i][t] * b_vals[t][k];
            }
            assert_eq!(c.get(i, k), dot);
            // The same comparison in doubles, within a relative tolerance.
            let got = c.get(i, k) as f64 / c.scale() as f64;
            let want = dot as f64;
            let scale_ref = want.abs().max(1.0);
            assert!((got - want).abs() <= 1e-9 * scale_ref);
        }
    }
}

#[test]
fn multiplying_by_identity_preserves_values() {
    let a = matgen(4);
    let idm = identity(4, 3);
    let c = matmul(&a, &idm);
    assert_eq!(c.rows(), 4);
    assert_eq!(c.columns(), 4);
    assert_eq!(c.scale(), a.scale() * idm.scale());
    for i in 0..4 {
        for k in 0..4 {
            // Numerators are scaled by the identity's denominator ...
            assert_eq!(c.get(i, k), a.get(i, k) * 3);
            // ... so the represented values are unchanged (cross-multiplied).
            let lhs = c.get(i, k) as i128 * a.scale() as i128;
            let rhs = a.get(i, k) as i128 * c.scale() as i128;
            assert_eq!(lhs, rhs);
        }
    }
}

#[test]
fn multiplying_by_zero_gives_zero() {
    let a = matgen(3);
    let z = Mat::new(3, 3, 1);
    let right = matmul(&a, &z);
    let left = matmul(&z, &a);
    for i in 0..3 {
        for k in 0..3 {
            assert_eq!(right.get(i, k), 0);
            assert_eq!(left.get(i, k), 0);
        }
    }
}

#[test]
fn effective_size_rounds_down_to_even() {
    assert_eq!(effective_n(7), 6);
    assert_eq!(effective_n(100), 100);
    assert_eq!(effective_n(1), 0);
    assert_eq!(effective_n(0), 0);
}

#[test]
fn mismatched_dimensions_are_caught() {
    // A 2x3 times a 2x2: the inner dimensions differ, so the checked
    // multiplication refuses the pair instead of reading out of bounds.
    let a = Mat::new(2, 3, 1);
    let b = Mat::new(2, 2, 1);
    assert!(matmul_checked(&a, &b).is_none());
    // Matching shapes go through.
    let b_ok = Mat::new(3, 2, 1);
    assert!(matmul_checked(&a, &b_ok).is_some());
}

#[test]
fn checked_multiplication_detects_overflow() {
    // A term of the dot product overflows an i64.
    let mut a = Mat::new(1, 1, 1);
    let mut b = Mat::new(1, 1, 1);
    a.set(0, 0, i64::MAX);
    b.set(0, 0, 2);
    assert!(matmul_checked(&a, &b).is_none());
    // A partial sum overflows even though every term fits.
    let mut a2 = Mat::new(1, 2, 1);
    let mut b2 = Mat::new(2, 1, 1);
    a2.set(0, 0, i64::MAX);
    a2.set(0, 1, i64::MAX);
    b2.set(0, 0, 1);
    b2.set(1, 0, 1);
    assert!(matmul_checked(&a2, &b2).is_none());
    // The product of the denominators overflows a u64.
    let a3 = Mat::new(1, 1, u64::MAX);
    let b3 = Mat::new(1, 1, 2);
    assert!(matmul_checked(&a3, &b3).is_none());
    // Within bounds, the checked and the plain multiplication agree.
    let a4 = matgen(2);
    let c4 = matmul_checked(&a4, &a4).expect("small product fits");
    let c4_plain = matmul(&a4, &a4);
    for i in 0..2 {
        for k in 0..2 {
            assert_eq!(c4.get(i, k), c4_plain.get(i, k));
        }
    }
    assert_eq!(c4.scale(), c4_plain.scale());
}

#[test]
fn benchmark_product_matches_direct_multiplication() {
    let n: usize = 6;
    let c = benchmark_product(n).expect("small sizes always fit");
    let a = matgen(n);
    let direct = matmul(&a, &a);
    assert_eq!(c.rows(), n);
    assert_eq!(c.columns(), n);
    assert_eq!(c.scale(), direct.scale());
    for i in 0..n {
        for k in 0..n {
            assert_eq!(c.get(i, k), direct.get(i, k));
        }
    }
}

#[test]
fn benchmark_product_default_size_middle_element() {
    // The driver's default size. The middle element is
    // sum over t of gen(50, t) * gen(t, 50) = -sum over t of (2500 - t*t)^2,
    // computed here independently.
    let n: usize = 100;
    let c = benchmark_product(n).expect("the default size fits");
    let mut expected: i64 = 0;
    for t in 0..n as i64 {
        let g = 2500 - t * t;
        expected -= g * g;
    }
    assert_eq!(c.get(n / 2, n / 2), expected);
    assert_eq!(c.scale(), (n * n * n * n) as u64);
}

#[test]
fn transpose_swaps_rows_and_columns() {
    let mut b = Mat::new(2, 3, 7);
    let mut next: i64 = 1;
    for i in 0..2 {
        for j in 0..3 {
            b.set(i, j, next);
            next += 1;
        }
    }
    let bt = transpose(&b);
    assert_eq!(bt.rows(), 3);
    assert_eq!(bt.columns(), 2);
    assert_eq!(bt.scale(), 7);
    for i in 0..2 {
        for j in 0..3 {
            assert_eq!(bt.get(j, i), b.get(i, j));
        }
    }
}

#[test]
fn rows_are_contiguous_slices() {
    let m = matgen(3);
    for i in 0..3 {
        let row = m.row(i);
        assert_eq!(row.len(), 3);
        for j in 0..3 {
            assert_eq!(row[j], m.get(i, j));
        }
    }
}

#[test]
fn new_matrix_is_zero_filled() {
    let m = Mat::new(3, 2, 5);
    assert_eq!(m.rows(), 3);
    assert_eq!(m.columns(), 2);
    assert_eq!(m.scale(), 5);
    for i in 0..3 {
        for j in 0..2 {
            assert_eq!(m.get(i, j), 0);
        }
    }
}

#[test]
fn set_updates_one_entry_only() {
    let mut m = Mat::new(2, 2, 1);
    m.set(0, 1, 42);
    assert_eq!(m.get(0, 1), 42);
    assert_eq!(m.get(0, 0), 0);
    assert_eq!(m.get(1, 0), 0);
    assert_eq!(m.get(1, 1), 0);
}
