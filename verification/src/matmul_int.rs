//! `i32` matrix multiply with a 64-bit accumulator, guarded by a magnitude
//! prescan.
//!
//! `i32 * i32` reaches `2^62`, so two products can already overflow `i64`.
//! [`matmul_i32_fits_i64`] measures the operands first: the bound
//! `max|a| * max|b| * k <= i64::MAX` covers every partial sum, and only then
//! may [`matmul_i32_avx2`] run. Within that range the result is the exact
//! integer product, clamped once to `i32` on write-out.
use vstd::prelude::*;
use crate::dot::{clamp_i32, saturate_i64_to_i32};

verus! {

/// Absolute value of an `i32` as an integer.
pub open spec fn abs_int(v: i32) -> int {
    if v < 0 {
        -(v as int)
    } else {
        v as int
    }
}

/// Element `(r, c)` of a strided matrix.
pub open spec fn strided_at(a: Seq<i32>, stride: int, r: int, c: int) -> i32 {
    a[r * stride + c]
}

/// Largest `|a[r * stride + c]|` over the first `t` positions in row-major
/// order of a matrix with `cols` columns (0 for none).
pub open spec fn max_abs_upto(a: Seq<i32>, stride: int, cols: int, t: nat) -> int
    decreases t,
{
    if t == 0 {
        0
    } else {
        let prev = max_abs_upto(a, stride, cols, (t - 1) as nat);
        let v = abs_int(strided_at(a, stride, (t - 1) / cols, (t - 1) % cols));
        if v > prev {
            v
        } else {
            prev
        }
    }
}

/// Largest magnitude in the `rows x cols` matrix.
pub open spec fn max_abs_spec(a: Seq<i32>, rows: int, cols: int, stride: int) -> int {
    max_abs_upto(a, stride, cols, (rows * cols) as nat)
}

/// The matrix lies inside `a`.
pub open spec fn matrix_in_bounds(len: int, rows: int, cols: int, stride: int) -> bool {
    rows == 0 || cols == 0 || (rows - 1) * stride + cols <= len
}

/// The magnitude bound under which every partial sum of `A @ B` fits `i64`.
pub open spec fn fits_i64_spec(a: Seq<i32>, b: Seq<i32>, m: int, n: int, k: int, lda: int, ldb: int) -> bool {
    k == 0 || m == 0 || n == 0 || max_abs_spec(a, m, k, lda) * max_abs_spec(b, k, n, ldb) * k
        <= i64::MAX
}

/// Position of output `(i, j)` in a buffer with row stride `ldc`.
pub open spec fn out_pos(i: int, j: int, ldc: int) -> int {
    i * ldc + j
}

/// `t` is the position of an output `(i, j)` with `i < rows`, `j < n`.
pub open spec fn is_output_pos(t: int, rows: int, n: int, ldc: int) -> bool {
    n > 0 && t / ldc < rows && t % ldc < n
}

/// `sum(a[i, kk] * b[kk, j])` over `kk < q`.
pub open spec fn partial_dot(a: Seq<i32>, b: Seq<i32>, lda: int, ldb: int, i: int, j: int, q: nat) -> int
    decreases q,
{
    if q == 0 {
        0
    } else {
        partial_dot(a, b, lda, ldb, i, j, (q - 1) as nat) + (strided_at(a, lda, i, q - 1) as int) * (
        strided_at(b, ldb, q - 1, j) as int)
    }
}

proof fn lemma_abs_i32(v: i32)
    ensures
        0 <= abs_int(v) <= 0x8000_0000,
{
}

proof fn lemma_max_abs_upto_bounds(a: Seq<i32>, stride: int, cols: int, t: nat)
    ensures
        0 <= max_abs_upto(a, stride, cols, t) <= 0x8000_0000,
        forall|u: int|
            0 <= u < t ==> abs_int(#[trigger] strided_at(a, stride, u / cols, u % cols))
                <= max_abs_upto(a, stride, cols, t),
        max_abs_upto(a, stride, cols, t) == 0 || exists|u: int|
            0 <= u < t && abs_int(#[trigger] strided_at(a, stride, u / cols, u % cols))
                == max_abs_upto(a, stride, cols, t),
    decreases t,
{
    if t > 0 {
        lemma_max_abs_upto_bounds(a, stride, cols, (t - 1) as nat);
        lemma_abs_i32(strided_at(a, stride, (t - 1) / cols, (t - 1) % cols));
    }
}

/// Position `(r, c)` of a `rows x cols` matrix is row-major position `r * cols + c`.
proof fn lemma_row_major_position(r: int, c: int, cols: int)
    requires
        0 <= c < cols,
        0 <= r,
    ensures
        (r * cols + c) / cols == r,
        (r * cols + c) % cols == c,
{
    vstd::arithmetic::div_mod::lemma_fundamental_div_mod_converse(r * cols + c, cols, r, c);
}

/// Every element of the matrix is within its largest magnitude, and that
/// magnitude is attained (or 0 for an empty matrix).
pub proof fn lemma_max_abs_is_max(a: Seq<i32>, rows: int, cols: int, stride: int)
    requires
        rows >= 0,
        cols >= 0,
    ensures
        0 <= max_abs_spec(a, rows, cols, stride) <= 0x8000_0000,
        forall|r: int, c: int|
            0 <= r < rows && 0 <= c < cols ==> abs_int(#[trigger] strided_at(a, stride, r, c))
                <= max_abs_spec(a, rows, cols, stride),
        max_abs_spec(a, rows, cols, stride) == 0 || exists|r: int, c: int|
            0 <= r < rows && 0 <= c < cols && abs_int(#[trigger] strided_at(a, stride, r, c))
                == max_abs_spec(a, rows, cols, stride),
{
    let t = rows * cols;
    assert(t >= 0) by (nonlinear_arith)
        requires
            rows >= 0,
            cols >= 0,
            t == rows * cols,
    ;
    lemma_max_abs_upto_bounds(a, stride, cols, t as nat);
    assert forall|r: int, c: int| 0 <= r < rows && 0 <= c < cols implies abs_int(
        #[trigger] strided_at(a, stride, r, c),
    ) <= max_abs_spec(a, rows, cols, stride) by {
        lemma_row_major_position(r, c, cols);
        assert(0 <= r * cols + c < t) by (nonlinear_arith)
            requires
                0 <= r < rows,
                0 <= c < cols,
                t == rows * cols,
        ;
        assert(strided_at(a, stride, (r * cols + c) / cols, (r * cols + c) % cols) == strided_at(
            a,
            stride,
            r,
            c,
        ));
    }
    if max_abs_spec(a, rows, cols, stride) != 0 {
        let u = choose|u: int|
            0 <= u < t && abs_int(#[trigger] strided_at(a, stride, u / cols, u % cols))
                == max_abs_upto(a, stride, cols, t as nat);
        assert(cols > 0);
        vstd::arithmetic::div_mod::lemma_fundamental_div_mod(u, cols);
        vstd::arithmetic::div_mod::lemma_mod_bound(u, cols);
        assert(0 <= u / cols < rows) by (nonlinear_arith)
            requires
                u == cols * (u / cols) + u % cols,
                0 <= u % cols < cols,
                0 <= u < t,
                t == rows * cols,
        ;
        assert(abs_int(strided_at(a, stride, u / cols, u % cols)) == max_abs_spec(a, rows, cols, stride));
    }
}

/// Largest magnitude in a strided `i32` matrix, as `i64` (`-i32::MIN` does not
/// fit `i32`).
pub fn max_abs(a: &[i32], rows: usize, cols: usize, stride: usize) -> (r: i64)
    requires
        matrix_in_bounds(a@.len() as int, rows as int, cols as int, stride as int),
    ensures
        r == max_abs_spec(a@, rows as int, cols as int, stride as int),
{
    let mut m: i64 = 0;
    let mut r: usize = 0;
    while r < rows
        invariant
            r <= rows,
            matrix_in_bounds(a@.len() as int, rows as int, cols as int, stride as int),
            m == max_abs_upto(a@, stride as int, cols as int, (r * cols) as nat),
        decreases rows - r,
    {
        let mut c: usize = 0;
        while c < cols
            invariant
                r < rows,
                c <= cols,
                matrix_in_bounds(a@.len() as int, rows as int, cols as int, stride as int),
                m == max_abs_upto(a@, stride as int, cols as int, (r * cols + c) as nat),
            decreases cols - c,
        {
            proof {
                lemma_row_major_position(r as int, c as int, cols as int);
                assert(r * stride <= (rows - 1) * stride) by (nonlinear_arith)
                    requires
                        r <= rows - 1,
                ;
                lemma_max_abs_upto_bounds(a@, stride as int, cols as int, (r * cols + c) as nat);
            }
            let alen = a.len();
            assert(r * stride + c < alen);
            let x: i64 = a[r * stride + c] as i64;
            let v: i64 = if x < 0 { -x } else { x };
            if v > m {
                m = v;
            }
            c = c + 1;
        }
        proof {
            assert(r * cols + cols == (r + 1) * cols) by (nonlinear_arith);
        }
        r = r + 1;
    }
    m
}

/// Whether every partial sum of `A @ B` fits `i64`.
///
/// `max|a| * max|b| * k` bounds the largest partial dot product in absolute
/// value; it is computed in `i128` so the test itself cannot overflow.
pub fn matmul_i32_fits_i64(
    a: &[i32],
    b: &[i32],
    m: usize,
    n: usize,
    k: usize,
    lda: usize,
    ldb: usize,
) -> (r: bool)
    requires
        matrix_in_bounds(a@.len() as int, m as int, k as int, lda as int),
        matrix_in_bounds(b@.len() as int, k as int, n as int, ldb as int),
    ensures
        r == fits_i64_spec(a@, b@, m as int, n as int, k as int, lda as int, ldb as int),
{
    if k == 0 || m == 0 || n == 0 {
        return true;
    }
    let ma = max_abs(a, m, k, lda);
    let mb = max_abs(b, k, n, ldb);
    proof {
        lemma_max_abs_is_max(a@, m as int, k as int, lda as int);
        lemma_max_abs_is_max(b@, k as int, n as int, ldb as int);
        assert(ma * mb <= 0x4000_0000_0000_0000) by (nonlinear_arith)
            requires
                0 <= ma <= 0x8000_0000,
                0 <= mb <= 0x8000_0000,
        ;
        assert(ma * mb * k <= 0x4000_0000_0000_0000 * 0x1_0000_0000_0000_0000) by (nonlinear_arith)
            requires
                0 <= ma * mb <= 0x4000_0000_0000_0000,
                0 <= k <= 0xffff_ffff_ffff_ffff,
        ;
        assert(0 <= ma * mb * k) by (nonlinear_arith)
            requires
                0 <= ma * mb,
                0 <= k,
        ;
    }
    let bound: i128 = (ma as i128) * (mb as i128) * (k as i128);
    bound <= i64::MAX as i128
}

/// Every partial sum is bounded by `q * max|a| * max|b|`.
pub proof fn lemma_partial_dot_bound(
    a: Seq<i32>,
    b: Seq<i32>,
    m: int,
    n: int,
    k: int,
    lda: int,
    ldb: int,
    i: int,
    j: int,
    q: nat,
)
    requires
        0 <= i < m,
        0 <= j < n,
        q <= k,
    ensures
        -(q * max_abs_spec(a, m, k, lda) * max_abs_spec(b, k, n, ldb)) <= partial_dot(
            a,
            b,
            lda,
            ldb,
            i,
            j,
            q,
        ) <= q * max_abs_spec(a, m, k, lda) * max_abs_spec(b, k, n, ldb),
    decreases q,
{
    let ma = max_abs_spec(a, m, k, lda);
    let mb = max_abs_spec(b, k, n, ldb);
    if q > 0 {
        lemma_partial_dot_bound(a, b, m, n, k, lda, ldb, i, j, (q - 1) as nat);
        lemma_max_abs_is_max(a, m, k, lda);
        lemma_max_abs_is_max(b, k, n, ldb);
        let x = strided_at(a, lda, i, q - 1);
        let y = strided_at(b, ldb, q - 1, j);
        assert(abs_int(x) <= ma);
        assert(abs_int(y) <= mb);
        assert(-(ma * mb) <= (x as int) * (y as int) <= ma * mb) by (nonlinear_arith)
            requires
                abs_int(x) <= ma,
                abs_int(y) <= mb,
                abs_int(x) == (if x < 0 { -(x as int) } else { x as int }),
                abs_int(y) == (if y < 0 { -(y as int) } else { y as int }),
        ;
        assert(q * ma * mb == (q - 1) * ma * mb + ma * mb) by (nonlinear_arith);
    }
}

/// When the prescan passes, every partial sum of every output fits `i64`.
pub proof fn lemma_fits_covers_partial_sums(
    a: Seq<i32>,
    b: Seq<i32>,
    m: int,
    n: int,
    k: int,
    lda: int,
    ldb: int,
    i: int,
    j: int,
    q: nat,
)
    requires
        fits_i64_spec(a, b, m, n, k, lda, ldb),
        0 <= i < m,
        0 <= j < n,
        q <= k,
    ensures
        i64::MIN <= partial_dot(a, b, lda, ldb, i, j, q) <= i64::MAX,
{
    lemma_partial_dot_bound(a, b, m, n, k, lda, ldb, i, j, q);
    lemma_max_abs_is_max(a, m, k, lda);
    lemma_max_abs_is_max(b, k, n, ldb);
    let ma = max_abs_spec(a, m, k, lda);
    let mb = max_abs_spec(b, k, n, ldb);
    assert(q * ma * mb <= ma * mb * k) by (nonlinear_arith)
        requires
            q <= k,
            ma >= 0,
            mb >= 0,
    ;
}

/// `C = A @ B` for `i32`, accumulating each output row in `i64` and clamping
/// to `i32` on write-out: the accumulation order of the AVX2 kernel (four
/// `i64` lanes per step there), written with plain integer arithmetic.
///
/// The caller has checked [`matmul_i32_fits_i64`]. One row of `i64`
/// accumulators is held across the `k` loop (`ikj` order), so B is walked
/// contiguously, and a zero element of `A` skips its row of `B`.
pub fn matmul_i32_avx2(
    a: &[i32],
    b: &[i32],
    out: &mut Vec<i32>,
    m: usize,
    n: usize,
    k: usize,
    lda: usize,
    ldb: usize,
    ldc: usize,
)
    requires
        matrix_in_bounds(a@.len() as int, m as int, k as int, lda as int),
        matrix_in_bounds(b@.len() as int, k as int, n as int, ldb as int),
        matrix_in_bounds(old(out)@.len() as int, m as int, n as int, ldc as int),
        n <= ldc,
        fits_i64_spec(a@, b@, m as int, n as int, k as int, lda as int, ldb as int),
    ensures
        final(out)@.len() == old(out)@.len(),
        forall|i: int, j: int|
            0 <= i < m && 0 <= j < n ==> #[trigger] final(out)@[out_pos(i, j, ldc as int)] == clamp_i32(
                partial_dot(a@, b@, lda as int, ldb as int, i, j, k as nat),
            ),
        forall|t: int|
            0 <= t < old(out)@.len() && !is_output_pos(t, m as int, n as int, ldc as int) ==> #[trigger] final(
            out)@[t] == old(out)@[t],
{
    let ghost orig = out@;
    let mut row_acc: Vec<i64> = Vec::new();
    while row_acc.len() < n
        invariant
            row_acc@.len() <= n,
        decreases n - row_acc@.len(),
    {
        row_acc.push(0);
    }
    let mut i: usize = 0;
    while i < m
        invariant
            i <= m,
            row_acc@.len() == n,
            matrix_in_bounds(a@.len() as int, m as int, k as int, lda as int),
            matrix_in_bounds(b@.len() as int, k as int, n as int, ldb as int),
            matrix_in_bounds(orig.len() as int, m as int, n as int, ldc as int),
            n <= ldc,
            fits_i64_spec(a@, b@, m as int, n as int, k as int, lda as int, ldb as int),
            out@.len() == orig.len(),
            forall|ii: int, j: int|
                0 <= ii < i && 0 <= j < n ==> #[trigger] out@[out_pos(ii, j, ldc as int)] == clamp_i32(
                    partial_dot(a@, b@, lda as int, ldb as int, ii, j, k as nat),
                ),
            forall|t: int|
                0 <= t < orig.len() && !is_output_pos(t, i as int, n as int, ldc as int) ==> #[trigger] out@[t]
                    == orig[t],
        decreases m - i,
    {
        let mut z: usize = 0;
        while z < n
            invariant
                z <= n,
                row_acc@.len() == n,
                forall|j: int| 0 <= j < z ==> #[trigger] row_acc@[j] == 0,
            decreases n - z,
        {
            row_acc.set(z, 0);
            z = z + 1;
        }
        let mut kk: usize = 0;
        while kk < k
            invariant
                i < m,
                kk <= k,
                row_acc@.len() == n,
                matrix_in_bounds(a@.len() as int, m as int, k as int, lda as int),
                matrix_in_bounds(b@.len() as int, k as int, n as int, ldb as int),
                fits_i64_spec(a@, b@, m as int, n as int, k as int, lda as int, ldb as int),
                forall|j: int|
                    0 <= j < n ==> #[trigger] row_acc@[j] == partial_dot(
                        a@,
                        b@,
                        lda as int,
                        ldb as int,
                        i as int,
                        j,
                        kk as nat,
                    ),
            decreases k - kk,
        {
            proof {
                assert(i * lda <= (m - 1) * lda) by (nonlinear_arith)
                    requires
                        i <= m - 1,
                ;
            }
            let alen = a.len();
            assert(i * lda + kk < alen);
            let a_val: i32 = a[i * lda + kk];
            if a_val == 0 {
                proof {
                    assert forall|j: int| 0 <= j < n implies #[trigger] row_acc@[j] == partial_dot(
                        a@,
                        b@,
                        lda as int,
                        ldb as int,
                        i as int,
                        j,
                        (kk + 1) as nat,
                    ) by {
                        let y = strided_at(b@, ldb as int, kk as int, j) as int;
                        assert((a_val as int) * y == 0) by (nonlinear_arith)
                            requires
                                a_val == 0,
                        ;
                    }
                }
                kk = kk + 1;
                continue;
            }
            let mut j: usize = 0;
            while j < n
                invariant
                    i < m,
                    kk < k,
                    j <= n,
                    row_acc@.len() == n,
                    a_val == a@[i * lda + kk],
                    matrix_in_bounds(a@.len() as int, m as int, k as int, lda as int),
                    matrix_in_bounds(b@.len() as int, k as int, n as int, ldb as int),
                    fits_i64_spec(a@, b@, m as int, n as int, k as int, lda as int, ldb as int),
                    forall|jj: int|
                        0 <= jj < j ==> #[trigger] row_acc@[jj] == partial_dot(
                            a@,
                            b@,
                            lda as int,
                            ldb as int,
                            i as int,
                            jj,
                            (kk + 1) as nat,
                        ),
                    forall|jj: int|
                        j <= jj < n ==> #[trigger] row_acc@[jj] == partial_dot(
                            a@,
                            b@,
                            lda as int,
                            ldb as int,
                            i as int,
                            jj,
                            kk as nat,
                        ),
                decreases n - j,
            {
                proof {
                    assert(kk * ldb <= (k - 1) * ldb) by (nonlinear_arith)
                        requires
                            kk <= k - 1,
                    ;
                    lemma_fits_covers_partial_sums(
                        a@,
                        b@,
                        m as int,
                        n as int,
                        k as int,
                        lda as int,
                        ldb as int,
                        i as int,
                        j as int,
                        (kk + 1) as nat,
                    );
                }
                let blen = b.len();
                assert(kk * ldb + j < blen);
                let bv: i32 = b[kk * ldb + j];
                proof {
                    assert(-0x4000_0000_0000_0000 <= (a_val as int) * (bv as int) <= 0x4000_0000_0000_0000)
                        by (nonlinear_arith)
                        requires
                            -0x8000_0000 <= a_val <= 0x7fff_ffff,
                            -0x8000_0000 <= bv <= 0x7fff_ffff,
                    ;
                }
                let cur = row_acc[j];
                row_acc.set(j, cur + (a_val as i64) * (bv as i64));
                j = j + 1;
            }
            kk = kk + 1;
        }
        let mut j: usize = 0;
        while j < n
            invariant
                i < m,
                j <= n,
                row_acc@.len() == n,
                matrix_in_bounds(orig.len() as int, m as int, n as int, ldc as int),
                n <= ldc,
                out@.len() == orig.len(),
                forall|jj: int|
                    0 <= jj < n ==> #[trigger] row_acc@[jj] == partial_dot(
                        a@,
                        b@,
                        lda as int,
                        ldb as int,
                        i as int,
                        jj,
                        k as nat,
                    ),
                forall|ii: int, jj: int|
                    0 <= ii < i && 0 <= jj < n ==> #[trigger] out@[out_pos(ii, jj, ldc as int)] == clamp_i32(
                        partial_dot(a@, b@, lda as int, ldb as int, ii, jj, k as nat),
                    ),
                forall|jj: int|
                    0 <= jj < j ==> #[trigger] out@[out_pos(i as int, jj, ldc as int)] == clamp_i32(
                        partial_dot(a@, b@, lda as int, ldb as int, i as int, jj, k as nat),
                    ),
                forall|t: int|
                    0 <= t < orig.len() && !is_output_pos(t, i as int, n as int, ldc as int) && !(n > 0
                        && t / (ldc as int) == i && t % (ldc as int) < j) ==> #[trigger] out@[t] == orig[t],
            decreases n - j,
        {
            proof {
                assert(i * ldc <= (m - 1) * ldc) by (nonlinear_arith)
                    requires
                        i <= m - 1,
                ;
            }
            let olen = out.len();
            assert(i * ldc + j < olen);
            let v = saturate_i64_to_i32(row_acc[j]);
            let pos = i * ldc + j;
            proof {
                lemma_row_major_position(i as int, j as int, ldc as int);
                // Writing row i never touches an earlier row's outputs.
                assert forall|ii: int, jj: int| 0 <= ii < i && 0 <= jj < n implies 0 <= #[trigger] out_pos(
                    ii,
                    jj,
                    ldc as int,
                ) < pos by {
                    assert(ii * ldc + jj < i * ldc) by (nonlinear_arith)
                        requires
                            ii < i,
                            jj < n,
                            n <= ldc,
                    ;
                    assert(0 <= ii * ldc + jj) by (nonlinear_arith)
                        requires
                            0 <= ii,
                            0 <= jj,
                            0 <= ldc,
                    ;
                }
            }
            out.set(pos, v);
            j = j + 1;
        }
        i = i + 1;
    }
}

} // verus!
