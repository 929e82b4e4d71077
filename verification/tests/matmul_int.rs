use numr_kernels::matmul_int::{matmul_i32_fits_i64, matmul_i32_avx2, max_abs};

fn reference(a: &[i32], b: &[i32], m: usize, n: usize, k: usize) -> Vec<i32> {
    let mut c = vec![0i32; m * n];
    for i in 0..m {
        for j in 0..n {
            let mut s: i128 = 0;
            for kk in 0..k {
                s += a[i * k + kk] as i128 * b[kk * n + j] as i128;
            }
            c[i * n + j] = s.clamp(i32::MIN as i128, i32::MAX as i128) as i32;
        }
    }
    c
}

#[test]
fn max_abs_of_strided_matrix() {
    // 2 x 2 matrix inside a row stride of 3: the third column is ignored.
    let a = [1, -7, 100, 3, 4, -100];
    assert_eq!(max_abs(&a, 2, 2, 3), 7);
    assert_eq!(max_abs(&[i32::MIN], 1, 1, 1), 2147483648);
    assert_eq!(max_abs(&[], 0, 5, 5), 0);
}

#[test]
fn fits_bound() {
    let a = [i32::MAX; 4];
    let b = [i32::MAX; 4];
    // (2^31 - 1)^2 * 2 is below 2^63 - 1.
    assert!(matmul_i32_fits_i64(&a, &b, 2, 2, 2, 2, 2));
    let a4 = [i32::MIN; 4];
    let b4 = [i32::MIN; 4];
    // 2^31 * 2^31 * 2 = 2^63 does not fit.
    assert!(!matmul_i32_fits_i64(&a4, &b4, 2, 2, 2, 2, 2));
    assert!(matmul_i32_fits_i64(&a4, &b4, 2, 2, 0, 2, 2));
}

#[test]
fn wide_matmul_matches_reference_and_clamps() {
    let (m, n, k) = (3, 5, 4);
    let a: Vec<i32> = (0..m * k).map(|i| (i as i32 - 6) * 1_000_000).collect();
    let b: Vec<i32> = (0..k * n).map(|i| (i as i32 % 7 - 3) * 900).collect();
    assert!(matmul_i32_fits_i64(&a, &b, m, n, k, k, n));
    let mut out = vec![0i32; m * n];
    matmul_i32_avx2(&a, &b, &mut out, m, n, k, k, n, n);
    assert_eq!(out, reference(&a, &b, m, n, k));

    let big = vec![i32::MAX; 4];
    let mut out2 = vec![0i32; 4];
    matmul_i32_avx2(&big, &big, &mut out2, 2, 2, 2, 2, 2, 2);
    assert_eq!(out2, vec![i32::MAX; 4]);
}

#[test]
fn wide_matmul_leaves_padding_untouched() {
    let a = [1, 2, 3, 4];
    let b = [5, 6, 7, 8];
    let mut out = vec![-1i32; 6];
    matmul_i32_avx2(&a, &b, &mut out, 2, 2, 2, 2, 2, 3);
    assert_eq!(out, vec![19, 22, -1, 43, 50, -1]);
}
