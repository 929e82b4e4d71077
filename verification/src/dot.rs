//! Integer dot products of signed bytes, accumulated exactly and clamped to `i32`.
use vstd::prelude::*;
use crate::dispatch::SimdLevel;

verus! {

/// Below this many elements the lane kernels are not used.
pub const DOT_SIMD_THRESHOLD: usize = 32;

/// Lane-kernel iterations between spills of the `i32` lanes into the `i64` total.
///
/// Each iteration adds at most `4 * 128 * 128 = 2^16` to one lane, so a lane
/// holds at most `2^16 * 2^14 = 2^30` between spills.
pub const DOT_SPILL_ITERS: usize = 16384;

/// Longest input the `i64` accumulator is proved to hold: `2^48` terms of
/// magnitude at most `2^14` stay far inside `i64`.
pub const DOT_MAX_LEN: u64 = 0x1_0000_0000_0000;

/// Clamp an integer into the `i32` range.
pub open spec fn clamp_i32(x: int) -> int {
    if x < i32::MIN {
        i32::MIN as int
    } else if x > i32::MAX {
        i32::MAX as int
    } else {
        x
    }
}

/// `sum(a[i] * b[i])` over the first `n` positions.
pub open spec fn dot_prefix(a: Seq<i8>, b: Seq<i8>, n: nat) -> int
    decreases n,
{
    if n == 0 {
        0
    } else {
        dot_prefix(a, b, (n - 1) as nat) + (a[n - 1] as int) * (b[n - 1] as int)
    }
}

/// The value every dot-product path returns: the exact sum, clamped to `i32`.
pub open spec fn dot_i32_spec(a: Seq<i8>, b: Seq<i8>, len: nat) -> int {
    clamp_i32(dot_prefix(a, b, len))
}

/// Sum of the first `n` lanes, taken exactly.
pub open spec fn lanes_sum(s: Seq<i32>, n: nat) -> int
    decreases n,
{
    if n == 0 {
        0
    } else {
        lanes_sum(s, (n - 1) as nat) + s[n - 1] as int
    }
}

proof fn lemma_byte_product_bound(x: i8, y: i8)
    ensures
        -16384 <= (x as int) * (y as int) <= 16384,
{
    assert(-16384 <= (x as int) * (y as int) <= 16384) by (nonlinear_arith)
        requires
            -128 <= x <= 127,
            -128 <= y <= 127,
    ;
}

proof fn lemma_dot_prefix_bound(a: Seq<i8>, b: Seq<i8>, n: nat)
    requires
        n <= a.len(),
        n <= b.len(),
    ensures
        -16384 * n <= dot_prefix(a, b, n) <= 16384 * n,
    decreases n,
{
    if n > 0 {
        lemma_dot_prefix_bound(a, b, (n - 1) as nat);
        lemma_byte_product_bound(a[n - 1], b[n - 1]);
    }
}

proof fn lemma_lanes_sum_update(s: Seq<i32>, n: nat, j: int, v: i32)
    requires
        n <= s.len(),
        0 <= j < s.len(),
    ensures
        lanes_sum(s.update(j, v), n) == lanes_sum(s, n) + (if j < n { v - s[j] } else { 0 }),
    decreases n,
{
    if n > 0 {
        lemma_lanes_sum_update(s, (n - 1) as nat, j, v);
    }
}

proof fn lemma_lanes_sum_bound(s: Seq<i32>, n: nat, bound: int)
    requires
        n <= s.len(),
        forall|j: int| 0 <= j < n ==> -bound <= #[trigger] s[j] <= bound,
    ensures
        -bound * n <= lanes_sum(s, n) <= bound * n,
    decreases n,
{
    if n > 0 {
        lemma_lanes_sum_bound(s, (n - 1) as nat, bound);
        assert(-bound * n == -bound * (n - 1) - bound) by (nonlinear_arith);
        assert(bound * n == bound * (n - 1) + bound) by (nonlinear_arith);
    }
}

proof fn lemma_lanes_sum_zero(s: Seq<i32>, n: nat)
    requires
        n <= s.len(),
        forall|j: int| 0 <= j < n ==> #[trigger] s[j] == 0,
    ensures
        lanes_sum(s, n) == 0,
    decreases n,
{
    if n > 0 {
        lemma_lanes_sum_zero(s, (n - 1) as nat);
    }
}

/// Between two spills a lane receives at most `4 * DOT_SPILL_ITERS` byte
/// products of magnitude at most `2^14`, so it stays within `2^30`: inside
/// `i32` with a full bit to spare.
pub proof fn lemma_spill_interval_keeps_lanes_in_i32(x: Seq<i8>, y: Seq<i8>, iters: nat)
    requires
        iters <= DOT_SPILL_ITERS,
        x.len() == 4 * iters,
        y.len() == 4 * iters,
    ensures
        -0x4000_0000 <= dot_prefix(x, y, x.len()) <= 0x4000_0000,
        0x4000_0000 < i32::MAX,
{
    lemma_dot_prefix_bound(x, y, x.len());
    assert(16384 * (4 * iters) <= 0x4000_0000) by (nonlinear_arith)
        requires
            iters <= 16384,
    ;
}

/// Narrow an exact `i64` total to `i32`, clamping on overflow.
pub fn saturate_i64_to_i32(acc: i64) -> (r: i32)
    ensures
        r == clamp_i32(acc as int),
{
    if acc < i32::MIN as i64 {
        i32::MIN
    } else if acc > i32::MAX as i64 {
        i32::MAX
    } else {
        acc as i32
    }
}

/// Scalar dot product: one exact `i64` accumulator, clamped once at the end.
pub fn i8xi8_dot_scalar(a: &[i8], b: &[i8], len: usize) -> (r: i32)
    requires
        len <= a@.len(),
        len <= b@.len(),
        len <= DOT_MAX_LEN,
    ensures
        r == dot_i32_spec(a@, b@, len as nat),
{
    let mut acc: i64 = 0;
    let mut i: usize = 0;
    while i < len
        invariant
            i <= len,
            len <= a@.len(),
            len <= b@.len(),
            len <= DOT_MAX_LEN,
            acc == dot_prefix(a@, b@, i as nat),
        decreases len - i,
    {
        proof {
            lemma_dot_prefix_bound(a@, b@, i as nat);
            lemma_byte_product_bound(a[i as int], b[i as int]);
        }
        acc = acc + (a[i] as i64) * (b[i] as i64);
        i = i + 1;
    }
    saturate_i64_to_i32(acc)
}

/// Sum of `lanes` `i32` lanes, widened to `i64` so it cannot overflow.
fn hsum_lanes_wide(acc: &Vec<i32>) -> (r: i64)
    requires
        acc@.len() <= 16,
    ensures
        r == lanes_sum(acc@, acc@.len() as nat),
{
    let mut total: i64 = 0;
    let mut j: usize = 0;
    while j < acc.len()
        invariant
            j <= acc@.len(),
            acc@.len() <= 16,
            total == lanes_sum(acc@, j as nat),
            -0x8000_0000 * j <= total <= 0x8000_0000 * j,
        decreases acc@.len() - j,
    {
        total = total + acc[j] as i64;
        j = j + 1;
    }
    total
}

/// The lane kernel shared by every vector backend, written without intrinsics.
///
/// `lanes` `i32` accumulators; each iteration consumes `4 * lanes` bytes of each
/// input. Lane `j` receives the pair products at `2j, 2j + 1` of the low half
/// and of the high half, exactly as a widening multiply followed by a pairwise
/// add does. The lanes are spilled into an exact `i64` total every
/// [`DOT_SPILL_ITERS`] iterations, and the tail runs scalar.
pub fn i8xi8_dot_lanes(a: &[i8], b: &[i8], len: usize, lanes: usize) -> (r: i32)
    requires
        len <= a@.len(),
        len <= b@.len(),
        len <= DOT_MAX_LEN,
        1 <= lanes <= 16,
    ensures
        r == dot_i32_spec(a@, b@, len as nat),
{
    let width: usize = 4 * lanes;
    let half: usize = 2 * lanes;
    let chunks: usize = len / width;
    let mut total: i64 = 0;
    let mut acc: Vec<i32> = Vec::new();
    let mut z: usize = 0;
    while z < lanes
        invariant
            z <= lanes,
            acc@.len() == z,
            forall|j: int| 0 <= j < z ==> #[trigger] acc@[j] == 0,
        decreases lanes - z,
    {
        acc.push(0);
        z = z + 1;
    }
    proof {
        lemma_lanes_sum_zero(acc@, lanes as nat);
        assert(chunks * width <= len) by (nonlinear_arith)
            requires
                chunks == len / width,
                width > 0,
        ;
    }
    let mut i: usize = 0;
    while i < chunks
        invariant
            1 <= lanes <= 16,
            width == 4 * lanes,
            half == 2 * lanes,
            chunks * width <= len,
            i <= chunks,
            len <= a@.len(),
            len <= b@.len(),
            len <= DOT_MAX_LEN,
            acc@.len() == lanes,
            total + lanes_sum(acc@, lanes as nat) == dot_prefix(a@, b@, (i * width) as nat),
            forall|j: int|
                0 <= j < lanes ==> -65536 * (i % DOT_SPILL_ITERS) <= #[trigger] acc@[j] <= 65536 * (
                i % DOT_SPILL_ITERS),
        decreases chunks - i,
    {
        proof {
            assert((i + 1) * width <= chunks * width) by (nonlinear_arith)
                requires
                    i < chunks,
                    width > 0,
            ;
            assert((i + 1) * width == i * width + width) by (nonlinear_arith);
        }
        let offset: usize = i * width;
        let ghost c: int = (i % DOT_SPILL_ITERS) as int;
        let ghost start = acc@;
        let ghost base_total = total;
        // Low half: lane j takes the pair (2j, 2j + 1).
        let mut j: usize = 0;
        while j < lanes
            invariant
                1 <= lanes <= 16,
                half == 2 * lanes,
                offset + 2 * half <= len,
                len <= a@.len(),
                len <= b@.len(),
                j <= lanes,
                acc@.len() == lanes,
                0 <= c < DOT_SPILL_ITERS,
                base_total + lanes_sum(acc@, lanes as nat) == dot_prefix(
                    a@,
                    b@,
                    (offset + 2 * j) as nat,
                ),
                forall|t: int| 0 <= t < j ==> -65536 * c - 32768 <= #[trigger] acc@[t] <= 65536 * c + 32768,
                forall|t: int| j <= t < lanes ==> -65536 * c <= #[trigger] acc@[t] <= 65536 * c,
            decreases lanes - j,
        {
            let o: usize = offset + 2 * j;
            proof {
                lemma_byte_product_bound(a[o as int], b[o as int]);
                lemma_byte_product_bound(a[o + 1], b[o + 1]);
                assert(dot_prefix(a@, b@, (o + 1) as nat) == dot_prefix(a@, b@, o as nat) + (
                a[o as int] as int) * (b[o as int] as int));
                assert(dot_prefix(a@, b@, (o + 2) as nat) == dot_prefix(a@, b@, (o + 1) as nat) + (
                a[o + 1] as int) * (b[o + 1] as int));
            }
            let pair: i32 = (a[o] as i32) * (b[o] as i32) + (a[o + 1] as i32) * (b[o + 1] as i32);
            let old_lane = acc[j];
            proof {
                lemma_lanes_sum_update(acc@, lanes as nat, j as int, (old_lane + pair) as i32);
                assert(-65536 * c - 32768 <= old_lane + pair <= 65536 * c + 32768);
                assert(65536 * c + 32768 < 0x7fff_ffff) by (nonlinear_arith)
                    requires
                        0 <= c < 16384,
                ;
            }
            acc.set(j, old_lane + pair);
            j = j + 1;
        }
        // High half: lane j takes the pair (half + 2j, half + 2j + 1).
        let mut j: usize = 0;
        while j < lanes
            invariant
                1 <= lanes <= 16,
                half == 2 * lanes,
                offset + 2 * half <= len,
                len <= a@.len(),
                len <= b@.len(),
                j <= lanes,
                acc@.len() == lanes,
                0 <= c < DOT_SPILL_ITERS,
                base_total + lanes_sum(acc@, lanes as nat) == dot_prefix(
                    a@,
                    b@,
                    (offset + half + 2 * j) as nat,
                ),
                forall|t: int| 0 <= t < j ==> -65536 * c - 65536 <= #[trigger] acc@[t] <= 65536 * c + 65536,
                forall|t: int| j <= t < lanes ==> -65536 * c - 32768 <= #[trigger] acc@[t] <= 65536 * c + 32768,
            decreases lanes - j,
        {
            let o: usize = offset + half + 2 * j;
            proof {
                lemma_byte_product_bound(a[o as int], b[o as int]);
                lemma_byte_product_bound(a[o + 1], b[o + 1]);
                assert(dot_prefix(a@, b@, (o + 1) as nat) == dot_prefix(a@, b@, o as nat) + (
                a[o as int] as int) * (b[o as int] as int));
                assert(dot_prefix(a@, b@, (o + 2) as nat) == dot_prefix(a@, b@, (o + 1) as nat) + (
                a[o + 1] as int) * (b[o + 1] as int));
            }
            let pair: i32 = (a[o] as i32) * (b[o] as i32) + (a[o + 1] as i32) * (b[o + 1] as i32);
            let old_lane = acc[j];
            proof {
                lemma_lanes_sum_update(acc@, lanes as nat, j as int, (old_lane + pair) as i32);
                assert(65536 * c + 65536 <= 0x4000_0000) by (nonlinear_arith)
                    requires
                        0 <= c < 16384,
                ;
            }
            acc.set(j, old_lane + pair);
            j = j + 1;
        }
        assert(offset + half + 2 * lanes == (i + 1) * width);
        if (i + 1) % DOT_SPILL_ITERS == 0 {
            proof {
                lemma_lanes_sum_bound(acc@, lanes as nat, 0x8000_0000);
                lemma_dot_prefix_bound(a@, b@, ((i + 1) * width) as nat);
            }
            let s = hsum_lanes_wide(&acc);
            total = total + s;
            let mut z: usize = 0;
            while z < lanes
                invariant
                    z <= lanes,
                    acc@.len() == lanes,
                    forall|t: int| 0 <= t < z ==> #[trigger] acc@[t] == 0,
                decreases lanes - z,
            {
                acc.set(z, 0);
                z = z + 1;
            }
            proof {
                lemma_lanes_sum_zero(acc@, lanes as nat);
            }
        } else {
            proof {
                assert((i + 1) % (DOT_SPILL_ITERS as int) == c + 1);
            }
        }
        i = i + 1;
    }
    proof {
        lemma_lanes_sum_bound(acc@, lanes as nat, 0x8000_0000);
        lemma_dot_prefix_bound(a@, b@, (chunks * width) as nat);
        assert(forall|j: int|
            0 <= j < lanes ==> -0x8000_0000 <= #[trigger] acc@[j] <= 0x8000_0000) by {
            assert forall|j: int| 0 <= j < lanes implies -0x8000_0000 <= #[trigger] acc@[j]
                <= 0x8000_0000 by {
                assert(65536 * (i % DOT_SPILL_ITERS) <= 0x4000_0000) by (nonlinear_arith)
                    requires
                        0 <= i % DOT_SPILL_ITERS < 16384,
                ;
            }
        }
    }
    let s = hsum_lanes_wide(&acc);
    total = total + s;
    // Scalar tail.
    let mut t: usize = chunks * width;
    while t < len
        invariant
            chunks * width <= t <= len,
            len <= a@.len(),
            len <= b@.len(),
            len <= DOT_MAX_LEN,
            total == dot_prefix(a@, b@, t as nat),
        decreases len - t,
    {
        proof {
            lemma_dot_prefix_bound(a@, b@, t as nat);
            lemma_byte_product_bound(a[t as int], b[t as int]);
        }
        total = total + (a[t] as i64) * (b[t] as i64);
        t = t + 1;
    }
    saturate_i64_to_i32(total)
}

/// Dot product of signed bytes, accumulated exactly and clamped to `i32`.
///
/// Short inputs and CPUs without a vector unit take the scalar path; AVX-512
/// runs the lane kernel with 16 lanes, AVX2 with 8 and NEON with 4. Every path
/// returns the same value.
pub fn i8xi8_dot_i32(a: &[i8], b: &[i8], len: usize, level: SimdLevel) -> (r: i32)
    requires
        len <= a@.len(),
        len <= b@.len(),
        len <= DOT_MAX_LEN,
    ensures
        r == dot_i32_spec(a@, b@, len as nat),
{
    if len < DOT_SIMD_THRESHOLD || level == SimdLevel::Scalar {
        return i8xi8_dot_scalar(a, b, len);
    }
    match level {
        SimdLevel::Avx512 => i8xi8_dot_lanes(a, b, len, 16),
        SimdLevel::Avx2Fma => i8xi8_dot_lanes(a, b, len, 8),
        SimdLevel::Neon | SimdLevel::NeonFp16 => i8xi8_dot_lanes(a, b, len, 4),
        SimdLevel::Scalar => i8xi8_dot_scalar(a, b, len),
    }
}

} // verus!
