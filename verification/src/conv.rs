//! Index arithmetic of the vectorised 1-D convolutions.
//!
//! `conv1d` vectorises over output positions and splits them into an interior
//! window, where every tap is in bounds and no per-tap check is needed, and
//! boundary positions that keep the check. `conv_transpose1d` re-orders the
//! gather into phases: output `ot` belongs to phase `ot % stride`, and within
//! one phase tap `k` reads a contiguous run of input positions into a
//! contiguous run of phase slots. The floating-point accumulation itself lives
//! outside this library; the index sets it walks are computed and proved here.
use vstd::prelude::*;
use vstd::arithmetic::div_mod::{
    lemma_fundamental_div_mod,
    lemma_fundamental_div_mod_converse,
    lemma_mod_bound,
};

verus! {

/// Shape parameters of a 1-D convolution.
#[derive(Clone, Copy, Debug, PartialEq, Eq, Structural)]
pub struct Conv1dParams {
    pub batch: usize,
    pub c_in: usize,
    pub length: usize,
    pub c_out: usize,
    pub kernel_size: usize,
    pub stride: usize,
    pub dilation: usize,
    pub groups: usize,
    pub pad_left: usize,
    pub output_length: usize,
}

/// Shape parameters of a transposed 1-D convolution.
#[derive(Clone, Copy, Debug, PartialEq, Eq, Structural)]
pub struct ConvTranspose1dParams {
    pub batch: usize,
    pub c_in: usize,
    pub length: usize,
    pub c_out: usize,
    pub kernel_size: usize,
    pub stride: usize,
    pub dilation: usize,
    pub groups: usize,
    pub pad_left: usize,
    pub output_length: usize,
}

/// `ceil(x / d)` for `d > 0`.
pub open spec fn ceil_div(x: int, d: int) -> int {
    (x + d - 1) / d
}

fn div_ceil_usize(x: usize, d: usize) -> (r: usize)
    requires
        d > 0,
    ensures
        r == ceil_div(x as int, d as int),
        r * d >= x,
        r == 0 || (r - 1) * d < x,
{
    let q = x / d;
    proof {
        lemma_fundamental_div_mod(x as int, d as int);
        lemma_mod_bound(x as int, d as int);
        if x % d != 0 {
            assert(q < x) by (nonlinear_arith)
                requires
                    x == d * q + x % d,
                    0 < x % d < d,
                    q >= 0,
            ;
        }
    }
    let r = if x % d != 0 { q + 1 } else { q };
    proof {
        lemma_fundamental_div_mod(x as int, d as int);
        lemma_mod_bound(x as int, d as int);
        lemma_fundamental_div_mod(x + d - 1, d as int);
        lemma_mod_bound(x + d - 1, d as int);
        assert(r == (x + d - 1) / (d as int) && r * d >= x && (r == 0 || (r - 1) * d < x))
            by (nonlinear_arith)
            requires
                x == d * q + x % d,
                0 <= x % d < d,
                x + d - 1 == d * ((x + d - 1) / (d as int)) + (x + d - 1) % (d as int),
                0 <= (x + d - 1) % (d as int) < d,
                r == (if x % d != 0 { q + 1 } else { q as int }),
                d > 0,
        ;
    }
    r
}

/// `ceil_div(x, d) * d >= x`, and it is the least such multiple.
pub proof fn lemma_ceil_div(x: int, d: int)
    requires
        d > 0,
        x >= 0,
    ensures
        ceil_div(x, d) >= 0,
        ceil_div(x, d) * d >= x,
        ceil_div(x, d) == 0 || (ceil_div(x, d) - 1) * d < x,
{
    lemma_fundamental_div_mod(x + d - 1, d);
    lemma_mod_bound(x + d - 1, d);
    assert(ceil_div(x, d) >= 0 && ceil_div(x, d) * d >= x && (ceil_div(x, d) == 0 || (ceil_div(x, d)
        - 1) * d < x)) by (nonlinear_arith)
        requires
            x + d - 1 == d * ceil_div(x, d) + (x + d - 1) % d,
            0 <= (x + d - 1) % d < d,
            x >= 0,
            d > 0,
    ;
}

/// Reach of the kernel past the first tap: `(kernel_size - 1) * dilation`,
/// or 0 for an empty kernel.
pub open spec fn kernel_span(p: Conv1dParams) -> int {
    if p.kernel_size == 0 {
        0
    } else {
        (p.kernel_size - 1) * p.dilation
    }
}

/// Input position read by output `ox` through tap `kx`.
pub open spec fn conv1d_tap(p: Conv1dParams, ox: int, kx: int) -> int {
    ox * p.stride + kx * p.dilation - p.pad_left
}

/// Output `ox` is fully interior: its first and last tap are in bounds.
pub open spec fn conv1d_is_interior(p: Conv1dParams, ox: int) -> bool {
    &&& ox * p.stride >= p.pad_left
    &&& ox * p.stride + kernel_span(p) < p.length + p.pad_left
}

/// Upper end of the interior window: `ceil((length + pad_left - span) /
/// stride)`, clamped to `output_length`, or 0 when the kernel's span reaches
/// past the padded input.
pub open spec fn interior_hi_spec(p: Conv1dParams) -> int {
    let reach = p.length + p.pad_left - kernel_span(p);
    if reach <= 0 {
        0
    } else {
        let c = ceil_div(reach, p.stride as int);
        if c < p.output_length {
            c
        } else {
            p.output_length as int
        }
    }
}

/// Lower end of the interior window: `ceil(pad_left / stride)`, clamped to the
/// upper end.
pub open spec fn interior_lo_spec(p: Conv1dParams) -> int {
    let c = ceil_div(p.pad_left as int, p.stride as int);
    if c < interior_hi_spec(p) {
        c
    } else {
        interior_hi_spec(p)
    }
}

/// The interior output window `[lo, hi)` of a 1-D convolution.
///
/// Every output in the window is fully interior (so its taps need no bounds
/// check) and every output outside it, below `output_length`, is not. A zero
/// stride is not a valid convolution; it gives the empty window `(0, 0)`.
pub fn conv1d_interior_window(p: Conv1dParams) -> (r: (usize, usize))
    requires
        kernel_span(p) <= isize::MAX,
        p.length + p.pad_left <= isize::MAX,
    ensures
        r.0 <= r.1 <= p.output_length,
        p.stride == 0 ==> r == (0usize, 0usize),
        p.stride > 0 ==> r.0 == interior_lo_spec(p) && r.1 == interior_hi_spec(p),
        p.stride > 0 ==> forall|ox: int|
            0 <= ox < p.output_length ==> ((r.0 <= ox < r.1) <==> #[trigger] conv1d_is_interior(p, ox)),
{
    if p.stride == 0 {
        return (0, 0);
    }
    let span: usize = if p.kernel_size == 0 { 0 } else { (p.kernel_size - 1) * p.dilation };
    let reach: isize = (p.length + p.pad_left) as isize - span as isize;
    let hi: usize = if reach <= 0 {
        0
    } else {
        let c = div_ceil_usize(reach as usize, p.stride);
        if c < p.output_length { c } else { p.output_length }
    };
    let lo_c = div_ceil_usize(p.pad_left, p.stride);
    let lo: usize = if lo_c < hi { lo_c } else { hi };
    proof {
        let s = p.stride as int;
        assert forall|ox: int| 0 <= ox < p.output_length implies ((lo <= ox < hi) <==> #[trigger] conv1d_is_interior(p, ox)) by {
            // ox * s < reach  <==>  ox < ceil(reach / s)
            if reach > 0 {
                let c = ceil_div(reach as int, s);
                lemma_ceil_div(reach as int, s);
                assert(ox < c <==> ox * s < reach) by (nonlinear_arith)
                    requires
                        c * s >= reach,
                        c == 0 || (c - 1) * s < reach,
                        s > 0,
                        ox >= 0,
                        c >= 0,
                ;
            } else {
                assert(ox * s >= 0) by (nonlinear_arith)
                    requires
                        ox >= 0,
                        s > 0,
                ;
            }
            // ox * s >= pad_left  <==>  ox >= ceil(pad_left / s)
            lemma_ceil_div(p.pad_left as int, s);
            let cl = ceil_div(p.pad_left as int, s);
            assert(ox >= cl <==> ox * s >= p.pad_left) by (nonlinear_arith)
                requires
                    cl * s >= p.pad_left,
                    cl == 0 || (cl - 1) * s < p.pad_left,
                    s > 0,
                    ox >= 0,
                    cl >= 0,
            ;
        }
    }
    (lo, hi)
}

/// Inside the interior window every tap of every output reads the input in
/// bounds.
pub proof fn lemma_interior_taps_in_bounds(p: Conv1dParams, ox: int, kx: int)
    requires
        conv1d_is_interior(p, ox),
        0 <= kx < p.kernel_size,
    ensures
        0 <= conv1d_tap(p, ox, kx) < p.length,
{
    assert(kx * p.dilation <= kernel_span(p)) by (nonlinear_arith)
        requires
            0 <= kx <= p.kernel_size - 1,
            kernel_span(p) == (p.kernel_size - 1) * p.dilation,
            p.dilation >= 0,
    ;
    assert(kx * p.dilation >= 0) by (nonlinear_arith)
        requires
            kx >= 0,
            p.dilation >= 0,
    ;
}

/// Outside the interior window some tap of an output falls outside the input.
pub proof fn lemma_boundary_has_outside_tap(p: Conv1dParams, ox: int)
    requires
        !conv1d_is_interior(p, ox),
        p.kernel_size > 0,
    ensures
        conv1d_tap(p, ox, 0) < 0 || conv1d_tap(p, ox, p.kernel_size - 1) >= p.length,
{
}

/// Scratch size of one phase accumulator: `ceil(output_length / stride)`, or
/// `output_length` for a zero stride.
pub fn phase_capacity(params: ConvTranspose1dParams) -> (r: usize)
    ensures
        params.stride == 0 ==> r == params.output_length,
        params.stride > 0 ==> r == ceil_div(params.output_length as int, params.stride as int),
{
    if params.stride == 0 {
        return params.output_length;
    }
    div_ceil_usize(params.output_length, params.stride)
}

/// Number of outputs in phase `r`: those `ot < output_length` with
/// `ot % stride == r`.
pub open spec fn phase_len(p: ConvTranspose1dParams, r: int) -> int {
    ceil_div(p.output_length - r, p.stride as int)
}

/// Every output belongs to exactly one phase, `ot % stride`, at slot
/// `ot / stride`, which is inside that phase and inside the scratch buffer.
pub proof fn lemma_phases_partition_outputs(p: ConvTranspose1dParams, ot: int)
    requires
        p.stride > 0,
        0 <= ot < p.output_length,
    ensures
        ot % (p.stride as int) < p.output_length,
        ot == ot % (p.stride as int) + (ot / (p.stride as int)) * p.stride,
        0 <= ot / (p.stride as int) < phase_len(p, ot % (p.stride as int)),
        phase_len(p, ot % (p.stride as int)) <= ceil_div(p.output_length as int, p.stride as int),
{
    let s = p.stride as int;
    let r = ot % s;
    let q = ot / s;
    lemma_fundamental_div_mod(ot, s);
    lemma_mod_bound(ot, s);
    assert(0 <= q) by (nonlinear_arith)
        requires
            ot == s * q + r,
            0 <= r < s,
            ot >= 0,
            s > 0,
    ;
    lemma_ceil_div(p.output_length - r, s);
    lemma_ceil_div(p.output_length as int, s);
    let c = phase_len(p, r);
    let cap = ceil_div(p.output_length as int, s);
    assert(q < c) by (nonlinear_arith)
        requires
            ot == s * q + r,
            ot < p.output_length,
            c * s >= p.output_length - r,
            c == 0 || (c - 1) * s < p.output_length - r,
            c >= 0,
            s > 0,
    ;
    assert(c <= cap) by (nonlinear_arith)
        requires
            c >= 1,
            (c - 1) * s < p.output_length - r,
            cap * s >= p.output_length,
            r >= 0,
            s > 0,
    ;
}

/// Output position fed by input `l` through tap `k`.
pub open spec fn transpose_tap(p: ConvTranspose1dParams, l: int, k: int) -> int {
    l * p.stride - p.pad_left + k * p.dilation
}

/// Input `l` feeds, through tap `k`, an output of phase `r`.
pub open spec fn feeds_phase(p: ConvTranspose1dParams, r: int, k: int, l: int) -> bool {
    &&& 0 <= l < p.length
    &&& 0 <= transpose_tap(p, l, k) < p.output_length
    &&& transpose_tap(p, l, k) % (p.stride as int) == r
}

/// The run of input positions that tap `k` gathers into phase `r`.
///
/// Returns `None` when tap `k` feeds no output of phase `r`. Otherwise
/// `(l_lo, run, p0)`: exactly the inputs `l_lo..l_lo + run` feed phase `r`
/// through tap `k`, and input `l_lo + j` lands in phase slot `p0 + j`, that is
/// at output `r + (p0 + j) * stride`. So within a phase both the input reads
/// and the slot writes are unit-stride.
pub fn conv_transpose1d_tap_run(p: ConvTranspose1dParams, r: usize, k: usize) -> (res: Option<(usize, usize, usize)>)
    requires
        p.stride > 0,
        r < p.stride,
        r < p.output_length,
        k * p.dilation <= isize::MAX,
        p.output_length + p.pad_left <= isize::MAX,
        p.length <= isize::MAX,
    ensures
        res is None ==> forall|l: int| !#[trigger] feeds_phase(p, r as int, k as int, l),
        res matches Some((l_lo, run, p0)) ==> {
            &&& run >= 1
            &&& forall|l: int| (l_lo <= l < l_lo + run) <==> #[trigger] feeds_phase(p, r as int, k as int, l)
            &&& forall|l: int|
                l_lo <= l < l_lo + run ==> #[trigger] transpose_tap(p, l, k as int) == r + (p0 + (l - l_lo))
                    * p.stride && 0 <= p0 + (l - l_lo) < phase_len(p, r as int)
        },
{
    let s = p.stride;
    let n_r = div_ceil_usize(p.output_length - r, s);
    let kd = k * p.dilation;
    // off_k = kd - pad_left, split by sign to keep the arithmetic unsigned:
    // r_k = off_k mod s (Euclidean), base_k = (off_k - r_k) / s.
    let r_k: usize;
    let base_k: isize;
    if kd >= p.pad_left {
        let t = kd - p.pad_left;
        r_k = t % s;
        base_k = (t / s) as isize;
        proof {
            lemma_fundamental_div_mod(t as int, s as int);
            lemma_mod_bound(t as int, s as int);
        }
    } else {
        let t = p.pad_left - kd;
        let m = t % s;
        r_k = if m == 0 { 0 } else { s - m };
        let q = t / s;
        base_k = if m == 0 { -(q as isize) } else { -(q as isize) - 1 };
        proof {
            lemma_fundamental_div_mod(t as int, s as int);
            lemma_mod_bound(t as int, s as int);
        }
    }
    let ghost off_k: int = kd - p.pad_left;
    proof {
        if kd >= p.pad_left {
            assert(off_k == base_k * s + r_k) by (nonlinear_arith)
                requires
                    off_k == kd - p.pad_left,
                    kd - p.pad_left == s * ((kd - p.pad_left) / (s as int)) + (kd - p.pad_left) % (s as int),
                    base_k == (kd - p.pad_left) / (s as int),
                    r_k == (kd - p.pad_left) % (s as int),
            ;
        } else {
            let t = p.pad_left - kd;
            assert(off_k == base_k * s + r_k) by (nonlinear_arith)
                requires
                    off_k == -t,
                    t == s * (t / (s as int)) + t % (s as int),
                    0 <= t % (s as int) < s,
                    t % (s as int) == 0 ==> (r_k == 0 && base_k == -(t / (s as int))),
                    t % (s as int) != 0 ==> (r_k == s - t % (s as int) && base_k == -(t / (s as int)) - 1),
            ;
        }
        assert forall|l: int| #[trigger] transpose_tap(p, l, k as int) == (l + base_k) * s + r_k by {
            assert(l * s - p.pad_left + k * p.dilation == (l + base_k) * s + r_k) by (nonlinear_arith)
                requires
                    off_k == base_k * s + r_k,
                    off_k == k * p.dilation - p.pad_left,
            ;
        }
        assert forall|l: int| #[trigger] transpose_tap(p, l, k as int) % (s as int) == r_k
            && transpose_tap(p, l, k as int) / (s as int) == l + base_k by {
            lemma_fundamental_div_mod_converse(transpose_tap(p, l, k as int), s as int, l + base_k, r_k as int);
        }
        lemma_ceil_div(p.output_length - r, s as int);
    }
    if r_k != r {
        return None;
    }
    proof {
        // Input l feeds phase r exactly when its slot l + base_k is inside the phase.
        assert forall|l: int| 0 <= l < p.length implies (#[trigger] feeds_phase(p, r as int, k as int, l) <==> (0 <= l + base_k < n_r)) by {
            let j = l + base_k;
            assert((0 <= j * s + r < p.output_length) <==> (0 <= j < n_r)) by (nonlinear_arith)
                requires
                    0 <= r < s,
                    n_r * s >= p.output_length - r,
                    n_r == 0 || (n_r - 1) * s < p.output_length - r,
                    n_r >= 0,
            ;
        }
    }
    let l_lo: usize = if base_k < 0 { (-base_k) as usize } else { 0 };
    proof {
        assert(n_r <= p.output_length) by (nonlinear_arith)
            requires
                n_r == 0 || (n_r - 1) * s < p.output_length - r,
                s >= 1,
                n_r >= 0,
        ;
        if kd < p.pad_left {
            assert(-base_k <= p.pad_left) by (nonlinear_arith)
                requires
                    off_k == base_k * s + r_k,
                    off_k >= -(p.pad_left as int),
                    0 <= r_k < s,
                    s >= 1,
            ;
        }
    }
    let l_hi_i: isize = n_r as isize - base_k;
    if l_hi_i <= l_lo as isize {
        return None;
    }
    let l_hi: usize = if (l_hi_i as usize) < p.length { l_hi_i as usize } else { p.length };
    if l_hi <= l_lo {
        return None;
    }
    let run = l_hi - l_lo;
    let p0 = (base_k + l_lo as isize) as usize;
    Some((l_lo, run, p0))
}

} // verus!
