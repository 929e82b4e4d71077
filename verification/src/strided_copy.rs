//! Strided-to-contiguous copy.
//!
//! A strided view is described by `shape` and `strides` (in elements, possibly
//! negative or zero) over a byte buffer, starting at a byte offset `base`. The
//! copy gathers the view into fresh row-major storage in three tiers: one bulk
//! copy when the whole view is row-major, one bulk copy per outer index when a
//! trailing block of dimensions is contiguous, and one element at a time
//! otherwise. Every tier produces exactly the bytes of the element-by-element
//! gather described by [`gathered`].
use vstd::prelude::*;
use vstd::arithmetic::div_mod::{
    lemma_div_denominator,
    lemma_mod_mod,
    lemma_mod_breakdown,
    lemma_fundamental_div_mod,
    lemma_fundamental_div_mod_converse,
    lemma_mod_bound,
};
use vstd::arithmetic::mul::{lemma_mul_strictly_positive, lemma_mul_inequality};

verus! {

/// Product of `shape[lo..hi]` (1 for an empty range).
pub open spec fn dims_product(shape: Seq<usize>, lo: int, hi: int) -> int
    decreases hi - lo,
{
    if hi <= lo {
        1
    } else {
        dims_product(shape, lo, hi - 1) * shape[hi - 1] as int
    }
}

/// Number of elements of the view.
pub open spec fn numel(shape: Seq<usize>) -> int {
    dims_product(shape, 0, shape.len() as int)
}

/// Source element offset of the row-major index `j` over the dimensions
/// `lo..hi`: the innermost dimension `hi - 1` varies fastest.
pub open spec fn range_offset(shape: Seq<usize>, strides: Seq<isize>, lo: int, hi: int, j: int) -> int
    decreases hi - lo,
{
    if hi <= lo {
        0
    } else {
        (j % shape[hi - 1] as int) * strides[hi - 1] as int + range_offset(
            shape,
            strides,
            lo,
            hi - 1,
            j / shape[hi - 1] as int,
        )
    }
}

/// Source element offset of destination element `i`.
pub open spec fn elem_offset(shape: Seq<usize>, strides: Seq<isize>, i: int) -> int {
    range_offset(shape, strides, 0, shape.len() as int, i)
}

/// Dimension `d` continues a contiguous run: its index is always 0, or its
/// stride is exactly the number of elements inside it.
pub open spec fn dim_contiguous(shape: Seq<usize>, strides: Seq<isize>, d: int) -> bool {
    shape[d] == 1 || strides[d] as int == dims_product(shape, d + 1, shape.len() as int)
}

/// Every dimension has a positive extent.
pub open spec fn all_positive(shape: Seq<usize>) -> bool {
    forall|d: int| 0 <= d < shape.len() ==> #[trigger] shape[d] >= 1
}

/// The destination bytes of the element-by-element gather: byte `t` of
/// destination element `i` is byte `t` of the source element at
/// `base + elem_offset(i) * elem_size`.
pub open spec fn gathered(
    src: Seq<u8>,
    base: int,
    shape: Seq<usize>,
    strides: Seq<isize>,
    elem_size: int,
) -> Seq<u8> {
    Seq::new(
        (numel(shape) * elem_size) as nat,
        |k: int|
            src[base + elem_offset(shape, strides, k / elem_size) * elem_size + k % elem_size],
    )
}

/// Every element of the view lies inside `src`.
pub open spec fn view_in_bounds(
    src_len: int,
    base: int,
    shape: Seq<usize>,
    strides: Seq<isize>,
    elem_size: int,
) -> bool {
    forall|i: int|
        0 <= i < numel(shape) ==> 0 <= base + #[trigger] elem_offset(shape, strides, i) * elem_size
            && base + elem_offset(shape, strides, i) * elem_size + elem_size <= src_len
}

pub proof fn lemma_dims_product_split(shape: Seq<usize>, lo: int, mid: int, hi: int)
    requires
        lo <= mid <= hi,
    ensures
        dims_product(shape, lo, hi) == dims_product(shape, lo, mid) * dims_product(shape, mid, hi),
    decreases hi - mid,
{
    if hi > mid {
        lemma_dims_product_split(shape, lo, mid, hi - 1);
        let a = dims_product(shape, lo, mid);
        let b = dims_product(shape, mid, hi - 1);
        let s = shape[hi - 1] as int;
        assert(a * b * s == a * (b * s)) by (nonlinear_arith);
    }
}

pub proof fn lemma_dims_product_positive(shape: Seq<usize>, lo: int, hi: int)
    requires
        0 <= lo,
        hi <= shape.len(),
        forall|d: int| lo <= d < hi ==> #[trigger] shape[d] >= 1,
    ensures
        dims_product(shape, lo, hi) >= 1,
    decreases hi - lo,
{
    if hi > lo {
        lemma_dims_product_positive(shape, lo, hi - 1);
        lemma_mul_inequality(1, dims_product(shape, lo, hi - 1), shape[hi - 1] as int);
    }
}

/// A range product never exceeds a product of a wider range.
pub proof fn lemma_dims_product_le(shape: Seq<usize>, lo: int, mid: int, hi: int, top: int)
    requires
        0 <= lo <= mid <= hi <= top <= shape.len(),
        forall|d: int| 0 <= d < shape.len() ==> #[trigger] shape[d] >= 1,
    ensures
        dims_product(shape, mid, hi) <= dims_product(shape, lo, top),
{
    lemma_dims_product_split(shape, lo, mid, top);
    lemma_dims_product_split(shape, mid, hi, top);
    lemma_dims_product_positive(shape, lo, mid);
    lemma_dims_product_positive(shape, mid, hi);
    lemma_dims_product_positive(shape, hi, top);
    let a = dims_product(shape, lo, mid);
    let b = dims_product(shape, mid, hi);
    let c = dims_product(shape, hi, top);
    assert(b <= a * (b * c)) by (nonlinear_arith)
        requires
            a >= 1,
            b >= 1,
            c >= 1,
    ;
}

/// Splitting a row-major index into an outer index over `lo..mid` and an inner
/// one over `mid..hi` splits its offset into the two partial offsets.
pub proof fn lemma_range_offset_split(
    shape: Seq<usize>,
    strides: Seq<isize>,
    lo: int,
    mid: int,
    hi: int,
    i: int,
)
    requires
        0 <= lo <= mid <= hi <= shape.len(),
        0 <= i,
        forall|d: int| mid <= d < hi ==> #[trigger] shape[d] >= 1,
    ensures
        range_offset(shape, strides, lo, hi, i) == range_offset(
            shape,
            strides,
            lo,
            mid,
            i / dims_product(shape, mid, hi),
        ) + range_offset(shape, strides, mid, hi, i % dims_product(shape, mid, hi)),
    decreases hi - mid,
{
    if hi == mid {
        assert(i % 1 == 0);
        assert(i / 1 == i);
    } else {
        let s = shape[hi - 1] as int;
        let p = dims_product(shape, mid, hi - 1);
        lemma_dims_product_positive(shape, mid, hi - 1);
        lemma_range_offset_split(shape, strides, lo, mid, hi - 1, i / s);
        assert(i / s >= 0) by {
            lemma_fundamental_div_mod(i, s);
            lemma_mod_bound(i, s);
            assert(i / s >= 0) by (nonlinear_arith)
                requires
                    i == s * (i / s) + i % s,
                    0 <= i % s < s,
                    i >= 0,
            ;
        }
        assert(p * s == s * p) by (nonlinear_arith);
        lemma_div_denominator(i, s, p);
        lemma_mod_mod(i, s, p);
        lemma_mod_breakdown(i, s, p);
        let x = i % (s * p);
        lemma_mod_bound(i / s, p);
        lemma_mod_bound(i, s);
        assert(x == ((i / s) % p) * s + i % s) by (nonlinear_arith)
            requires
                x == s * ((i / s) % p) + i % s,
        ;
        lemma_fundamental_div_mod_converse(x, s, (i / s) % p, i % s);
    }
}

/// The offset of index 0 over any dimension range is 0.
pub proof fn lemma_range_offset_zero(shape: Seq<usize>, strides: Seq<isize>, lo: int, hi: int)
    requires
        0 <= lo <= hi <= shape.len(),
        forall|d: int| lo <= d < hi ==> #[trigger] shape[d] >= 1,
    ensures
        range_offset(shape, strides, lo, hi, 0) == 0,
    decreases hi - lo,
{
    if hi > lo {
        lemma_range_offset_zero(shape, strides, lo, hi - 1);
        let s = shape[hi - 1] as int;
        assert(0int % s == 0);
        assert(0int / s == 0);
    }
}

/// Over a run of contiguous dimensions ending at `hi`, the offset of inner
/// index `j` is `j` times the number of elements inside the run.
pub proof fn lemma_contiguous_run(shape: Seq<usize>, strides: Seq<isize>, lo: int, hi: int, j: int)
    requires
        0 <= lo <= hi <= shape.len(),
        shape.len() == strides.len(),
        all_positive(shape),
        forall|d: int| lo <= d < hi ==> #[trigger] dim_contiguous(shape, strides, d),
        0 <= j < dims_product(shape, lo, hi),
    ensures
        range_offset(shape, strides, lo, hi, j) == j * dims_product(shape, hi, shape.len() as int),
    decreases hi - lo,
{
    let n = shape.len() as int;
    if hi == lo {
        assert(j == 0);
    } else {
        let s = shape[hi - 1] as int;
        let q = dims_product(shape, lo, hi - 1);
        let inner = dims_product(shape, hi, n);
        assert(shape[hi - 1] >= 1);
        lemma_fundamental_div_mod(j, s);
        lemma_mod_bound(j, s);
        assert(0 <= j / s < q) by (nonlinear_arith)
            requires
                j == s * (j / s) + j % s,
                0 <= j % s < s,
                0 <= j < q * s,
        ;
        lemma_contiguous_run(shape, strides, lo, hi - 1, j / s);
        assert(range_offset(shape, strides, lo, hi, j) == (j % s) * strides[hi - 1] as int
            + range_offset(shape, strides, lo, hi - 1, j / s));
        lemma_dims_product_split(shape, hi - 1, hi, n);
        assert(dims_product(shape, hi - 1, hi) == s) by {
            assert(dims_product(shape, hi - 1, hi - 1) == 1);
        }
        assert(dim_contiguous(shape, strides, hi - 1));
        if s == 1 {
            lemma_fundamental_div_mod_converse(j, s, j, 0);
        } else {
            assert(strides[hi - 1] as int == inner);
        }
        assert(dims_product(shape, hi - 1, n) == s * inner);
        assert((j % s) * inner + (j / s) * (s * inner) == j * inner) by (nonlinear_arith)
            requires
                j == s * (j / s) + j % s,
        ;
        if s == 1 {
            let m = j % s;
            let st = strides[hi - 1] as int;
            assert(m * st == m * inner) by (nonlinear_arith)
                requires
                    m == 0,
            ;
        }
    }
}

/// Over a contiguous run of trailing dimensions the offset of inner index `j`
/// is `j` itself.
pub proof fn lemma_contiguous_suffix_offset(shape: Seq<usize>, strides: Seq<isize>, lo: int, j: int)
    requires
        0 <= lo <= shape.len(),
        shape.len() == strides.len(),
        all_positive(shape),
        forall|d: int| lo <= d < shape.len() ==> #[trigger] dim_contiguous(shape, strides, d),
        0 <= j < dims_product(shape, lo, shape.len() as int),
    ensures
        range_offset(shape, strides, lo, shape.len() as int, j) == j,
{
    let n = shape.len() as int;
    lemma_contiguous_run(shape, strides, lo, n, j);
    assert(dims_product(shape, n, n) == 1);
    assert(j * dims_product(shape, n, n) == j) by (nonlinear_arith)
        requires
            dims_product(shape, n, n) == 1,
    ;
}

/// Row-major linear index of the multi-index `idx[lo..hi]`.
pub open spec fn idx_linear(idx: Seq<usize>, shape: Seq<usize>, lo: int, hi: int) -> int
    decreases hi - lo,
{
    if hi <= lo {
        0
    } else {
        idx_linear(idx, shape, lo, hi - 1) * shape[hi - 1] as int + idx[hi - 1] as int
    }
}

/// Source element offset `sum(idx[d] * strides[d])` over `lo..hi`.
pub open spec fn idx_offset(idx: Seq<usize>, strides: Seq<isize>, lo: int, hi: int) -> int
    decreases hi - lo,
{
    if hi <= lo {
        0
    } else {
        idx_offset(idx, strides, lo, hi - 1) + idx[hi - 1] as int * strides[hi - 1] as int
    }
}

/// Every component of `idx[lo..hi]` is inside its dimension.
pub open spec fn idx_valid(idx: Seq<usize>, shape: Seq<usize>, lo: int, hi: int) -> bool {
    forall|e: int| lo <= e < hi ==> #[trigger] idx[e] < shape[e]
}

/// Every row-major index over the dimensions `0..dims` has an offset that an
/// `isize` holds.
pub open spec fn offsets_fit(shape: Seq<usize>, strides: Seq<isize>, dims: int) -> bool {
    forall|i: int|
        0 <= i < dims_product(shape, 0, dims) ==> isize::MIN <= #[trigger] range_offset(
            shape,
            strides,
            0,
            dims,
            i,
        ) <= isize::MAX
}

pub proof fn lemma_idx_frame(
    i1: Seq<usize>,
    i2: Seq<usize>,
    shape: Seq<usize>,
    strides: Seq<isize>,
    lo: int,
    hi: int,
)
    requires
        forall|e: int| lo <= e < hi ==> #[trigger] i1[e] == i2[e],
    ensures
        idx_linear(i1, shape, lo, hi) == idx_linear(i2, shape, lo, hi),
        idx_offset(i1, strides, lo, hi) == idx_offset(i2, strides, lo, hi),
    decreases hi - lo,
{
    if hi > lo {
        lemma_idx_frame(i1, i2, shape, strides, lo, hi - 1);
        assert(i1[hi - 1] == i2[hi - 1]);
    }
}

pub proof fn lemma_idx_split(
    idx: Seq<usize>,
    shape: Seq<usize>,
    strides: Seq<isize>,
    lo: int,
    mid: int,
    hi: int,
)
    requires
        lo <= mid <= hi,
    ensures
        idx_linear(idx, shape, lo, hi) == idx_linear(idx, shape, lo, mid) * dims_product(shape, mid, hi)
            + idx_linear(idx, shape, mid, hi),
        idx_offset(idx, strides, lo, hi) == idx_offset(idx, strides, lo, mid) + idx_offset(
            idx,
            strides,
            mid,
            hi,
        ),
    decreases hi - mid,
{
    if hi > mid {
        lemma_idx_split(idx, shape, strides, lo, mid, hi - 1);
        let a = idx_linear(idx, shape, lo, mid);
        let p = dims_product(shape, mid, hi - 1);
        let b = idx_linear(idx, shape, mid, hi - 1);
        let s = shape[hi - 1] as int;
        let v = idx[hi - 1] as int;
        assert((a * p + b) * s + v == a * (p * s) + (b * s + v)) by (nonlinear_arith);
    }
}

pub proof fn lemma_idx_bounds(idx: Seq<usize>, shape: Seq<usize>, lo: int, hi: int)
    requires
        idx_valid(idx, shape, lo, hi),
    ensures
        0 <= idx_linear(idx, shape, lo, hi) < dims_product(shape, lo, hi),
    decreases hi - lo,
{
    if hi > lo {
        lemma_idx_bounds(idx, shape, lo, hi - 1);
        let l = idx_linear(idx, shape, lo, hi - 1);
        let p = dims_product(shape, lo, hi - 1);
        let s = shape[hi - 1] as int;
        let v = idx[hi - 1] as int;
        assert(v < s);
        assert(0 <= l * s + v < p * s) by (nonlinear_arith)
            requires
                0 <= l < p,
                0 <= v < s,
        ;
    }
}

/// For a valid multi-index, the offset of its linear index is its offset.
pub proof fn lemma_idx_offset_matches(idx: Seq<usize>, shape: Seq<usize>, strides: Seq<isize>, lo: int, hi: int)
    requires
        idx_valid(idx, shape, lo, hi),
    ensures
        range_offset(shape, strides, lo, hi, idx_linear(idx, shape, lo, hi)) == idx_offset(
            idx,
            strides,
            lo,
            hi,
        ),
    decreases hi - lo,
{
    if hi > lo {
        lemma_idx_offset_matches(idx, shape, strides, lo, hi - 1);
        lemma_idx_bounds(idx, shape, lo, hi - 1);
        let l = idx_linear(idx, shape, lo, hi - 1);
        let s = shape[hi - 1] as int;
        let v = idx[hi - 1] as int;
        assert(v < s);
        lemma_fundamental_div_mod_converse(l * s + v, s, l, v);
    }
}

pub proof fn lemma_idx_zeros(idx: Seq<usize>, shape: Seq<usize>, strides: Seq<isize>, lo: int, hi: int)
    requires
        forall|e: int| lo <= e < hi ==> #[trigger] idx[e] == 0,
    ensures
        idx_linear(idx, shape, lo, hi) == 0,
        idx_offset(idx, strides, lo, hi) == 0,
    decreases hi - lo,
{
    if hi > lo {
        lemma_idx_zeros(idx, shape, strides, lo, hi - 1);
        assert(idx[hi - 1] == 0);
    }
}

pub proof fn lemma_idx_maxes(idx: Seq<usize>, shape: Seq<usize>, lo: int, hi: int)
    requires
        forall|e: int| lo <= e < hi ==> #[trigger] idx[e] + 1 == shape[e],
    ensures
        idx_linear(idx, shape, lo, hi) == dims_product(shape, lo, hi) - 1,
    decreases hi - lo,
{
    if hi > lo {
        lemma_idx_maxes(idx, shape, lo, hi - 1);
        let p = dims_product(shape, lo, hi - 1);
        let s = shape[hi - 1] as int;
        assert(idx[hi - 1] + 1 == shape[hi - 1]);
        assert((p - 1) * s + (s - 1) == p * s - 1) by (nonlinear_arith);
    }
}

pub proof fn lemma_idx_single(idx: Seq<usize>, shape: Seq<usize>, strides: Seq<isize>, e: int)
    ensures
        idx_linear(idx, shape, e, e + 1) == idx[e] as int,
        idx_offset(idx, strides, e, e + 1) == idx[e] as int * strides[e] as int,
        dims_product(shape, e, e + 1) == shape[e] as int,
{
    assert(idx_linear(idx, shape, e, e) == 0);
    assert(idx_offset(idx, strides, e, e) == 0);
    assert(dims_product(shape, e, e) == 1);
}

/// The multi-index that is 0 everywhere but `v` at dimension `e`.
pub open spec fn unit_idx(dims: int, e: int, v: usize) -> Seq<usize> {
    Seq::new(dims as nat, |t: int| if t == e { v } else { 0usize })
}

pub proof fn lemma_unit_idx(shape: Seq<usize>, strides: Seq<isize>, dims: int, e: int, v: usize, hi: int)
    requires
        0 <= e < dims,
        0 <= hi <= dims,
    ensures
        idx_offset(unit_idx(dims, e, v), strides, 0, hi) == if e < hi {
            v as int * strides[e] as int
        } else {
            0
        },
    decreases hi,
{
    if hi > 0 {
        lemma_unit_idx(shape, strides, dims, e, v, hi - 1);
    }
}

/// Advance a row-major odometer over `shape[..dims]`, carrying the source
/// element offset incrementally.
///
/// Incrementing dimension `d` adds `strides[d]`; wrapping it back to 0
/// subtracts `strides[d] * (shape[d] - 1)`, undoing exactly what the completed
/// sweep added. After the last index the odometer wraps back to all zeros.
pub fn advance(idx: &mut Vec<usize>, off: &mut isize, shape: &[usize], strides: &[isize], dims: usize)
    requires
        dims <= old(idx)@.len(),
        dims <= shape@.len(),
        shape@.len() == strides@.len(),
        all_positive(shape@),
        dims_product(shape@, 0, dims as int) <= isize::MAX,
        offsets_fit(shape@, strides@, dims as int),
        idx_valid(old(idx)@, shape@, 0, dims as int),
        *old(off) == idx_offset(old(idx)@, strides@, 0, dims as int),
    ensures
        final(idx)@.len() == old(idx)@.len(),
        idx_valid(final(idx)@, shape@, 0, dims as int),
        idx_linear(final(idx)@, shape@, 0, dims as int) == (idx_linear(old(idx)@, shape@, 0, dims as int)
            + 1) % dims_product(shape@, 0, dims as int),
        *final(off) == idx_offset(final(idx)@, strides@, 0, dims as int),
        forall|e: int| dims <= e < old(idx)@.len() ==> #[trigger] final(idx)@[e] == old(idx)@[e],
{
    let ghost o = idx@;
    let ghost n = dims as int;
    let ghost total = dims_product(shape@, 0, n);
    proof {
        lemma_dims_product_positive(shape@, 0, n);
        lemma_idx_bounds(o, shape@, 0, n);
    }
    let mut d: usize = dims;
    while d > 0
        invariant
            d <= dims,
            n == dims,
            o == old(idx)@,
            dims <= o.len(),
            dims <= shape@.len(),
            shape@.len() == strides@.len(),
            idx@.len() == o.len(),
            all_positive(shape@),
            total == dims_product(shape@, 0, n),
            total <= isize::MAX,
            0 <= idx_linear(o, shape@, 0, n) < total,
            offsets_fit(shape@, strides@, n),
            idx_valid(o, shape@, 0, n),
            forall|e: int| 0 <= e < d ==> #[trigger] idx@[e] == o[e],
            forall|e: int| d <= e < n ==> #[trigger] idx@[e] == 0,
            forall|e: int| d <= e < n ==> #[trigger] o[e] + 1 == shape@[e],
            forall|e: int| n <= e < o.len() ==> #[trigger] idx@[e] == o[e],
            *off == idx_offset(idx@, strides@, 0, n),
        decreases d,
    {
        let dd: usize = d - 1;
        let ghost cur = idx@;
        proof {
            lemma_dims_product_le(shape@, 0, dd as int, d as int, n);
            assert(d as int == dd as int + 1);
            lemma_idx_single(cur, shape@, strides@, dd as int);
            lemma_idx_single(o, shape@, strides@, dd as int);
            lemma_idx_split(cur, shape@, strides@, 0, dd as int, n);
            lemma_idx_split(cur, shape@, strides@, dd as int, d as int, n);
            lemma_idx_zeros(cur, shape@, strides@, d as int, n);
            lemma_idx_split(o, shape@, strides@, 0, dd as int, n);
            lemma_idx_split(o, shape@, strides@, dd as int, d as int, n);
            lemma_idx_split(o, shape@, strides@, 0, d as int, n);
            lemma_idx_maxes(o, shape@, d as int, n);
            lemma_idx_frame(cur, o, shape@, strides@, 0, dd as int);
        }
        let v = idx[dd] + 1;
        idx.set(dd, v);
        proof {
            let nw = idx@;
            lemma_idx_frame(nw, cur, shape@, strides@, 0, dd as int);
            lemma_idx_frame(nw, cur, shape@, strides@, d as int, n);
            lemma_idx_split(nw, shape@, strides@, 0, dd as int, n);
            lemma_idx_split(nw, shape@, strides@, dd as int, d as int, n);
            lemma_idx_split(nw, shape@, strides@, 0, d as int, n);
            lemma_idx_single(nw, shape@, strides@, dd as int);
        }
        if v < shape[dd] {
            proof {
                let nw = idx@;
                assert(idx_valid(nw, shape@, 0, n));
                lemma_idx_bounds(nw, shape@, 0, n);
                lemma_idx_offset_matches(nw, shape@, strides@, 0, n);
                let pd = dims_product(shape@, d as int, n);
                let lo_part = idx_linear(o, shape@, 0, dd as int);
                let s = shape@[dd as int] as int;
                assert(idx_linear(o, shape@, 0, d as int) == lo_part * s + o[dd as int]);
                assert(idx_linear(nw, shape@, 0, d as int) == lo_part * s + o[dd as int] + 1);
                assert((lo_part * s + o[dd as int] + 1) * pd == (lo_part * s + o[dd as int]) * pd + (pd - 1) + 1) by (nonlinear_arith);
                assert(idx_linear(nw, shape@, 0, n) == idx_linear(o, shape@, 0, n) + 1);
                let st = strides@[dd as int] as int;
                let cv = cur[dd as int] as int;
                assert((cv + 1) * st == cv * st + st) by (nonlinear_arith);
                assert(idx_offset(nw, strides@, 0, n) == *off + strides@[dd as int]);
                assert(isize::MIN <= range_offset(shape@, strides@, 0, n, idx_linear(nw, shape@, 0, n)) <= isize::MAX);
                vstd::arithmetic::div_mod::lemma_small_mod((idx_linear(o, shape@, 0, n) + 1) as nat, total as nat);
            }
            *off = *off + strides[dd];
            assert(idx@.len() == o.len());
            return;
        }
        proof {
            let s = shape@[dd as int] as int;
            let u = unit_idx(n, dd as int, (s - 1) as usize);
            assert(idx_valid(u, shape@, 0, n));
            lemma_unit_idx(shape@, strides@, n, dd as int, (s - 1) as usize, n);
            lemma_idx_bounds(u, shape@, 0, n);
            lemma_idx_offset_matches(u, shape@, strides@, 0, n);
            assert(isize::MIN <= range_offset(shape@, strides@, 0, n, idx_linear(u, shape@, 0, n)) <= isize::MAX);
        }
        idx.set(dd, 0);
        proof {
            let z = idx@;
            lemma_idx_frame(z, cur, shape@, strides@, 0, dd as int);
            lemma_idx_frame(z, cur, shape@, strides@, d as int, n);
            lemma_idx_split(z, shape@, strides@, 0, dd as int, n);
            lemma_idx_split(z, shape@, strides@, dd as int, d as int, n);
            lemma_idx_single(z, shape@, strides@, dd as int);
            let st = strides@[dd as int] as int;
            let zv = z[dd as int] as int;
            assert(zv * st == 0) by (nonlinear_arith)
                requires
                    zv == 0,
            ;
            let sv = shape@[dd as int] as int;
            assert(st * (sv - 1) == (sv - 1) * st) by (nonlinear_arith);
            assert(idx_offset(z, strides@, dd as int, d as int) == 0);
            assert(idx_offset(cur, strides@, dd as int, d as int) == (sv - 1) * st);
            assert(idx_valid(z, shape@, 0, n));
            lemma_idx_bounds(z, shape@, 0, n);
            lemma_idx_offset_matches(z, shape@, strides@, 0, n);
            assert(isize::MIN <= range_offset(shape@, strides@, 0, n, idx_linear(z, shape@, 0, n)) <= isize::MAX);
            assert(z[dd as int] == 0);
        }
        *off = *off - strides[dd] * (shape[dd] as isize - 1);
        d = dd;
    }
    proof {
        lemma_idx_zeros(idx@, shape@, strides@, 0, n);
        lemma_idx_maxes(o, shape@, 0, n);
        vstd::arithmetic::div_mod::lemma_mod_self_0(total);
    }
}

/// Number of trailing dimensions that form one internally contiguous block.
///
/// Walks from the innermost dimension outward, tracking the stride a row-major
/// layout would have there. An extent-1 dimension is accepted whatever its
/// stride; any other dimension only when its stride is exactly the number of
/// elements inside it, which is at least 1, so a reversed or broadcast
/// dimension never extends the run.
pub fn contiguous_suffix_len(shape: &[usize], strides: &[isize]) -> (r: usize)
    requires
        shape@.len() == strides@.len(),
        all_positive(shape@),
        numel(shape@) <= isize::MAX,
    ensures
        r <= shape@.len(),
        forall|d: int| shape@.len() - r <= d < shape@.len() ==> #[trigger] dim_contiguous(shape@, strides@, d),
        r < shape@.len() ==> !dim_contiguous(shape@, strides@, shape@.len() - 1 - r),
        forall|d: int|
            shape@.len() - r <= d < shape@.len() ==> shape@[d] == 1 || #[trigger] strides@[d] >= 1,
{
    let n = shape.len();
    let mut expected: isize = 1;
    let mut count: usize = 0;
    let mut d: usize = n;
    proof {
        assert(dims_product(shape@, n as int, n as int) == 1);
    }
    while d > 0
        invariant_except_break
            d <= n,
            n == shape@.len(),
            n == strides@.len(),
            count == n - d,
            all_positive(shape@),
            numel(shape@) <= isize::MAX,
            expected == dims_product(shape@, d as int, n as int),
            forall|e: int| d <= e < n ==> #[trigger] dim_contiguous(shape@, strides@, e),
        ensures
            count <= n,
            forall|e: int| n - count <= e < n ==> #[trigger] dim_contiguous(shape@, strides@, e),
            count < n ==> !dim_contiguous(shape@, strides@, n - 1 - count),
        decreases d,
    {
        let dd = d - 1;
        proof {
            let pd = dims_product(shape@, dd as int, d as int);
            let pn = dims_product(shape@, d as int, n as int);
            lemma_dims_product_split(shape@, dd as int, d as int, n as int);
            assert(d as int == dd as int + 1);
            lemma_idx_single(shape@, shape@, strides@, dd as int);
            assert(pd == shape@[dd as int]);
            assert(pd * pn == pn * pd) by (nonlinear_arith);
            assert(pd == 1 ==> pd * pn == pn) by (nonlinear_arith);
            lemma_dims_product_le(shape@, 0, dd as int, n as int, n as int);
            lemma_dims_product_le(shape@, 0, dd as int, d as int, n as int);
        }
        if shape[dd] == 1 {
            count = count + 1;
            d = dd;
            continue;
        }
        if strides[dd] != expected {
            break;
        }
        count = count + 1;
        proof {
            lemma_dims_product_positive(shape@, dd as int, n as int);
            // The new expected stride is the element count of dims dd.., which fits.
            assert(expected * shape@[dd as int] == dims_product(shape@, dd as int, n as int));
        }
        expected = expected * (shape[dd] as isize);
        d = dd;
    }
    proof {
        assert forall|e: int| n - count <= e < n implies shape@[e] == 1 || #[trigger] strides@[e] >= 1 by {
            assert(dim_contiguous(shape@, strides@, e));
            lemma_dims_product_positive(shape@, e + 1, n as int);
        }
    }
    count
}


/// In-bounds views have offsets that fit an `isize`, over any leading block of
/// dimensions.
pub proof fn lemma_view_offsets_fit(
    src_len: int,
    base: int,
    shape: Seq<usize>,
    strides: Seq<isize>,
    elem_size: int,
    dims: int,
)
    requires
        0 <= dims <= shape.len(),
        shape.len() == strides.len(),
        all_positive(shape),
        elem_size >= 1,
        0 <= base <= src_len,
        src_len <= isize::MAX,
        view_in_bounds(src_len, base, shape, strides, elem_size),
    ensures
        offsets_fit(shape, strides, dims),
{
    let n = shape.len() as int;
    let inner = dims_product(shape, dims, n);
    lemma_dims_product_positive(shape, dims, n);
    lemma_dims_product_split(shape, 0, dims, n);
    assert forall|b: int| 0 <= b < dims_product(shape, 0, dims) implies isize::MIN <= #[trigger] range_offset(
        shape,
        strides,
        0,
        dims,
        b,
    ) <= isize::MAX by {
        let i = b * inner;
        let outer = dims_product(shape, 0, dims);
        assert(0 <= i < numel(shape)) by (nonlinear_arith)
            requires
                i == b * inner,
                0 <= b < outer,
                inner >= 1,
                numel(shape) == outer * inner,
        ;
        lemma_range_offset_split(shape, strides, 0, dims, n, i);
        lemma_fundamental_div_mod_converse(i, inner, b, 0);
        lemma_range_offset_zero(shape, strides, dims, n);
        let o = elem_offset(shape, strides, i);
        assert(0 <= base + o * elem_size);
        assert(base + o * elem_size + elem_size <= src_len);
        assert(isize::MIN <= o <= isize::MAX) by (nonlinear_arith)
            requires
                0 <= base + o * elem_size,
                base + o * elem_size + elem_size <= src_len,
                src_len <= isize::MAX,
                elem_size >= 1,
                0 <= base <= src_len,
        ;
    }
}

/// Byte `k` of the gather lies at `base + elem_offset(i) * elem_size + t` for
/// `k = i * elem_size + t`.
pub proof fn lemma_gathered_at(
    src: Seq<u8>,
    base: int,
    shape: Seq<usize>,
    strides: Seq<isize>,
    elem_size: int,
    i: int,
    t: int,
)
    requires
        elem_size >= 1,
        0 <= i < numel(shape),
        0 <= t < elem_size,
    ensures
        0 <= i * elem_size + t < numel(shape) * elem_size,
        gathered(src, base, shape, strides, elem_size)[i * elem_size + t] == src[base + elem_offset(
            shape,
            strides,
            i,
        ) * elem_size + t],
{
    let k = i * elem_size + t;
    lemma_fundamental_div_mod_converse(k, elem_size, i, t);
    assert(0 <= k < numel(shape) * elem_size) by (nonlinear_arith)
        requires
            k == i * elem_size + t,
            0 <= i < numel(shape),
            0 <= t < elem_size,
    ;
}

/// Product of `shape[lo..hi]`.
fn product_range(shape: &[usize], lo: usize, hi: usize) -> (r: usize)
    requires
        lo <= hi <= shape@.len(),
        all_positive(shape@),
        numel(shape@) <= isize::MAX,
    ensures
        r == dims_product(shape@, lo as int, hi as int),
{
    let mut p: usize = 1;
    let mut d: usize = lo;
    assert(dims_product(shape@, lo as int, lo as int) == 1);
    while d < hi
        invariant
            lo <= d <= hi,
            hi <= shape@.len(),
            all_positive(shape@),
            numel(shape@) <= isize::MAX,
            p == dims_product(shape@, lo as int, d as int),
        decreases hi - d,
    {
        proof {
            lemma_dims_product_le(shape@, 0, lo as int, d as int + 1, shape@.len() as int);
        }
        p = p * shape[d];
        d = d + 1;
    }
    p
}

/// Tier 3: one element at a time, walking the source with the odometer.
fn copy_elements_bytes(
    src: &[u8],
    base: usize,
    shape: &[usize],
    strides: &[isize],
    numel_v: usize,
    elem_size: usize,
) -> (dst: Vec<u8>)
    requires
        shape@.len() == strides@.len(),
        all_positive(shape@),
        numel_v == numel(shape@),
        numel(shape@) * elem_size <= isize::MAX,
        elem_size >= 1,
        base <= src@.len() <= isize::MAX,
        view_in_bounds(src@.len() as int, base as int, shape@, strides@, elem_size as int),
    ensures
        dst@ == gathered(src@, base as int, shape@, strides@, elem_size as int),
{
    let ndim = shape.len();
    let ghost g = gathered(src@, base as int, shape@, strides@, elem_size as int);
    let mut idx: Vec<usize> = Vec::new();
    while idx.len() < ndim
        invariant
            idx@.len() <= ndim,
            forall|e: int| 0 <= e < idx@.len() ==> #[trigger] idx@[e] == 0,
        decreases ndim - idx@.len(),
    {
        idx.push(0);
    }
    let mut off: isize = 0;
    let mut dst: Vec<u8> = Vec::new();
    proof {
        lemma_view_offsets_fit(src@.len() as int, base as int, shape@, strides@, elem_size as int, ndim as int);
        lemma_idx_zeros(idx@, shape@, strides@, 0, ndim as int);
        lemma_dims_product_positive(shape@, 0, ndim as int);
        assert(numel_v <= numel(shape@) * elem_size) by (nonlinear_arith)
            requires
                elem_size >= 1,
                numel_v == numel(shape@),
                numel_v >= 1,
        ;
    }
    let mut i: usize = 0;
    while i < numel_v
        invariant
            ndim == shape@.len(),
            shape@.len() == strides@.len(),
            all_positive(shape@),
            numel_v == numel(shape@),
            numel(shape@) * elem_size <= isize::MAX,
            numel(shape@) <= isize::MAX,
            elem_size >= 1,
            base <= src@.len() <= isize::MAX,
            view_in_bounds(src@.len() as int, base as int, shape@, strides@, elem_size as int),
            offsets_fit(shape@, strides@, ndim as int),
            g == gathered(src@, base as int, shape@, strides@, elem_size as int),
            i <= numel_v,
            idx@.len() == ndim,
            idx_valid(idx@, shape@, 0, ndim as int),
            i < numel_v ==> idx_linear(idx@, shape@, 0, ndim as int) == i,
            off == idx_offset(idx@, strides@, 0, ndim as int),
            dst@.len() == i * elem_size,
            forall|k: int| 0 <= k < dst@.len() ==> #[trigger] dst@[k] == g[k],
        decreases numel_v - i,
    {
        let ghost gi = i as int;
        proof {
            lemma_idx_offset_matches(idx@, shape@, strides@, 0, ndim as int);
            let o = elem_offset(shape@, strides@, gi);
            assert(off == o);
            assert(0 <= base + o * elem_size);
            assert(base + o * elem_size + elem_size <= src@.len());
        }
        let start: usize = (base as isize + off * (elem_size as isize)) as usize;
        let mut t: usize = 0;
        while t < elem_size
            invariant
                elem_size >= 1,
                0 <= gi < numel(shape@),
                start as int == base + elem_offset(shape@, strides@, gi) * elem_size,
                start + elem_size <= src@.len(),
                src@.len() <= isize::MAX,
                g == gathered(src@, base as int, shape@, strides@, elem_size as int),
                t <= elem_size,
                dst@.len() == gi * elem_size + t,
                forall|k: int| 0 <= k < dst@.len() ==> #[trigger] dst@[k] == g[k],
            decreases elem_size - t,
        {
            proof {
                lemma_gathered_at(src@, base as int, shape@, strides@, elem_size as int, gi, t as int);
            }
            dst.push(src[start + t]);
            t = t + 1;
        }
        proof {
            assert((gi + 1) * elem_size == gi * elem_size + elem_size) by (nonlinear_arith);
            assert((gi + 1) * elem_size <= numel(shape@) * elem_size) by (nonlinear_arith)
                requires
                    gi + 1 <= numel(shape@),
                    elem_size >= 1,
            ;
        }
        advance(&mut idx, &mut off, shape, strides, ndim);
        proof {
            if i + 1 < numel_v {
                vstd::arithmetic::div_mod::lemma_small_mod((gi + 1) as nat, numel_v as nat);
            }
        }
        i = i + 1;
    }
    proof {
        assert(dst@ =~= g);
    }
    dst
}

/// Tier 2: one bulk copy of `block_elems` elements per outer index.
fn copy_blocks(
    src: &[u8],
    base: usize,
    shape: &[usize],
    strides: &[isize],
    elem_size: usize,
    suffix: usize,
    block_elems: usize,
) -> (dst: Vec<u8>)
    requires
        shape@.len() == strides@.len(),
        all_positive(shape@),
        numel(shape@) * elem_size <= isize::MAX,
        elem_size >= 1,
        base <= src@.len() <= isize::MAX,
        view_in_bounds(src@.len() as int, base as int, shape@, strides@, elem_size as int),
        suffix <= shape@.len(),
        forall|d: int|
            shape@.len() - suffix <= d < shape@.len() ==> #[trigger] dim_contiguous(shape@, strides@, d),
        block_elems == dims_product(shape@, shape@.len() - suffix, shape@.len() as int),
    ensures
        dst@ == gathered(src@, base as int, shape@, strides@, elem_size as int),
{
    let n = shape.len();
    let outer_dims = n - suffix;
    let ghost g = gathered(src@, base as int, shape@, strides@, elem_size as int);
    proof {
        lemma_dims_product_split(shape@, 0, outer_dims as int, n as int);
        lemma_dims_product_positive(shape@, 0, outer_dims as int);
        lemma_dims_product_positive(shape@, outer_dims as int, n as int);
        lemma_dims_product_le(shape@, 0, 0, outer_dims as int, n as int);
        assert(block_elems * elem_size <= numel(shape@) * elem_size) by (nonlinear_arith)
            requires
                numel(shape@) == dims_product(shape@, 0, outer_dims as int) * block_elems,
                dims_product(shape@, 0, outer_dims as int) >= 1,
                elem_size >= 1,
                block_elems >= 1,
        ;
    }
    proof {
        assert(numel(shape@) <= numel(shape@) * elem_size) by (nonlinear_arith)
            requires
                elem_size >= 1,
                numel(shape@) >= 1,
        ;
        lemma_dims_product_le(shape@, 0, 0, outer_dims as int, n as int);
    }
    let outer_count = product_range(shape, 0, outer_dims);
    let block_bytes = block_elems * elem_size;
    let mut idx: Vec<usize> = Vec::new();
    while idx.len() < outer_dims
        invariant
            idx@.len() <= outer_dims,
            forall|e: int| 0 <= e < idx@.len() ==> #[trigger] idx@[e] == 0,
        decreases outer_dims - idx@.len(),
    {
        idx.push(0);
    }
    let mut off: isize = 0;
    let mut dst: Vec<u8> = Vec::new();
    proof {
        lemma_range_offset_zero(shape@, strides@, 0, n as int);
        lemma_view_offsets_fit(src@.len() as int, base as int, shape@, strides@, elem_size as int, outer_dims as int);
        lemma_idx_zeros(idx@, shape@, strides@, 0, outer_dims as int);
    }
    let mut b: usize = 0;
    while b < outer_count
        invariant
            n == shape@.len(),
            outer_dims == n - suffix,
            shape@.len() == strides@.len(),
            all_positive(shape@),
            numel(shape@) * elem_size <= isize::MAX,
            numel(shape@) == outer_count * block_elems,
            outer_count == dims_product(shape@, 0, outer_dims as int),
            outer_count <= isize::MAX,
            outer_count >= 1,
            block_elems >= 1,
            block_bytes == block_elems * elem_size,
            elem_size >= 1,
            base <= src@.len() <= isize::MAX,
            view_in_bounds(src@.len() as int, base as int, shape@, strides@, elem_size as int),
            offsets_fit(shape@, strides@, outer_dims as int),
            forall|d: int| outer_dims <= d < n ==> #[trigger] dim_contiguous(shape@, strides@, d),
            block_elems == dims_product(shape@, outer_dims as int, n as int),
            g == gathered(src@, base as int, shape@, strides@, elem_size as int),
            b <= outer_count,
            idx@.len() == outer_dims,
            idx_valid(idx@, shape@, 0, outer_dims as int),
            b < outer_count ==> idx_linear(idx@, shape@, 0, outer_dims as int) == b,
            off == idx_offset(idx@, strides@, 0, outer_dims as int),
            dst@.len() == b * block_bytes,
            forall|k: int| 0 <= k < dst@.len() ==> #[trigger] dst@[k] == g[k],
        decreases outer_count - b,
    {
        let ghost gb = b as int;
        proof {
            lemma_idx_offset_matches(idx@, shape@, strides@, 0, outer_dims as int);
            // The first element of block `b` is destination element `b * block_elems`.
            let i0 = gb * block_elems;
            assert(0 <= i0 < numel(shape@)) by (nonlinear_arith)
                requires
                    i0 == gb * block_elems,
                    0 <= gb < outer_count,
                    block_elems >= 1,
                    numel(shape@) == outer_count * block_elems,
            ;
            lemma_range_offset_split(shape@, strides@, 0, outer_dims as int, n as int, i0);
            lemma_fundamental_div_mod_converse(i0, block_elems as int, gb, 0);
            lemma_range_offset_zero(shape@, strides@, outer_dims as int, n as int);
            assert(elem_offset(shape@, strides@, i0) == off);
            assert(0 <= base + off * elem_size);
            // The last element of block `b` ends inside the source.
            let i1 = i0 + block_elems - 1;
            assert(0 <= i1 < numel(shape@)) by (nonlinear_arith)
                requires
                    0 <= gb < outer_count,
                    block_elems >= 1,
                    i1 == gb * block_elems + block_elems - 1,
                    numel(shape@) == outer_count * block_elems,
            ;
            lemma_range_offset_split(shape@, strides@, 0, outer_dims as int, n as int, i1);
            lemma_fundamental_div_mod_converse(i1, block_elems as int, gb, block_elems - 1);
            lemma_contiguous_suffix_offset(shape@, strides@, outer_dims as int, block_elems - 1);
            assert(elem_offset(shape@, strides@, i1) == off + block_elems - 1);
            assert(base + (off + block_elems - 1) * elem_size + elem_size <= src@.len());
            assert((off + block_elems - 1) * elem_size + elem_size == off * elem_size + block_elems * elem_size) by (nonlinear_arith);
        }
        let start: usize = (base as isize + off * (elem_size as isize)) as usize;
        let mut t: usize = 0;
        while t < block_bytes
            invariant
                elem_size >= 1,
                block_elems >= 1,
                block_bytes == block_elems * elem_size,
                n == shape@.len(),
                outer_dims == n - suffix,
                shape@.len() == strides@.len(),
                all_positive(shape@),
                forall|d: int| outer_dims <= d < n ==> #[trigger] dim_contiguous(shape@, strides@, d),
                block_elems == dims_product(shape@, outer_dims as int, n as int),
                numel(shape@) == outer_count * block_elems,
                0 <= gb < outer_count,
                start as int == base + off * elem_size,
                off == range_offset(shape@, strides@, 0, outer_dims as int, gb),
                start + block_bytes <= src@.len(),
                src@.len() <= isize::MAX,
                g == gathered(src@, base as int, shape@, strides@, elem_size as int),
                t <= block_bytes,
                dst@.len() == gb * block_bytes + t,
                forall|k: int| 0 <= k < dst@.len() ==> #[trigger] dst@[k] == g[k],
            decreases block_bytes - t,
        {
            proof {
                // Byte t of the block is byte t % elem_size of inner element t / elem_size.
                let j = t as int / elem_size as int;
                let r = t as int % elem_size as int;
                vstd::arithmetic::div_mod::lemma_fundamental_div_mod(t as int, elem_size as int);
                lemma_mod_bound(t as int, elem_size as int);
                assert(0 <= j < block_elems) by (nonlinear_arith)
                    requires
                        elem_size >= 1,
                        t == elem_size * j + r,
                        0 <= r < elem_size,
                        0 <= t < block_elems * elem_size,
                ;
                let i = gb * block_elems + j;
                assert(0 <= i < numel(shape@)) by (nonlinear_arith)
                    requires
                        i == gb * block_elems + j,
                        0 <= gb < outer_count,
                        0 <= j < block_elems,
                        numel(shape@) == outer_count * block_elems,
                ;
                lemma_gathered_at(src@, base as int, shape@, strides@, elem_size as int, i, r);
                lemma_range_offset_split(shape@, strides@, 0, outer_dims as int, n as int, i);
                lemma_fundamental_div_mod_converse(i, block_elems as int, gb, j);
                lemma_contiguous_suffix_offset(shape@, strides@, outer_dims as int, j);
                assert(range_offset(shape@, strides@, outer_dims as int, n as int, i % (block_elems as int)) == j);
                assert(range_offset(shape@, strides@, 0, outer_dims as int, i / (block_elems as int)) == off);
                assert(elem_offset(shape@, strides@, i) == off + j);
                assert(i * elem_size + r == gb * block_bytes + t) by (nonlinear_arith)
                    requires
                        i == gb * block_elems + j,
                        t == elem_size * j + r,
                        block_bytes == block_elems * elem_size,
                ;
                assert((off + j) * elem_size + r == off * elem_size + t) by (nonlinear_arith)
                    requires
                        t == elem_size * j + r,
                ;
            }
            dst.push(src[start + t]);
            t = t + 1;
        }
        proof {
            assert((gb + 1) * block_bytes == gb * block_bytes + block_bytes) by (nonlinear_arith);
        }
        advance(&mut idx, &mut off, shape, strides, outer_dims);
        proof {
            if b + 1 < outer_count {
                vstd::arithmetic::div_mod::lemma_small_mod((gb + 1) as nat, outer_count as nat);
            }
        }
        b = b + 1;
    }
    proof {
        assert(outer_count * block_bytes == numel(shape@) * elem_size) by (nonlinear_arith)
            requires
                numel(shape@) == outer_count * block_elems,
                block_bytes == block_elems * elem_size,
        ;
        assert(dst@ =~= g);
    }
    dst
}

/// Copy a strided view into freshly allocated row-major storage.
///
/// `strides` are in elements and may be negative or zero; `base` is the byte
/// offset of element `[0, .., 0]` in `src`. The result holds
/// `numel * elem_size` bytes, element `i` being the source element that the
/// row-major index `i` of the view names. Callers have already rejected empty
/// views, so every extent is at least 1.
pub fn copy_strided_impl(
    src: &[u8],
    base: usize,
    shape: &[usize],
    strides: &[isize],
    elem_size: usize,
) -> (dst: Vec<u8>)
    requires
        shape@.len() == strides@.len(),
        all_positive(shape@),
        numel(shape@) * elem_size <= isize::MAX,
        elem_size >= 1,
        src@.len() <= isize::MAX,
        view_in_bounds(src@.len() as int, base as int, shape@, strides@, elem_size as int),
    ensures
        dst@ == gathered(src@, base as int, shape@, strides@, elem_size as int),
{
    let ndim = shape.len();
    let ghost g = gathered(src@, base as int, shape@, strides@, elem_size as int);
    proof {
        lemma_dims_product_positive(shape@, 0, ndim as int);
        assert(numel(shape@) <= numel(shape@) * elem_size) by (nonlinear_arith)
            requires
                elem_size >= 1,
                numel(shape@) >= 1,
        ;
        lemma_range_offset_zero(shape@, strides@, 0, ndim as int);
        assert(elem_offset(shape@, strides@, 0) == 0);
        assert(base + elem_size <= src@.len());
    }
    let numel_v = product_range(shape, 0, ndim);
    let suffix = contiguous_suffix_len(shape, strides);

    // Tier 1: the entire view is row-major, so it is one run of bytes at `base`.
    if suffix == ndim {
        let total = numel_v * elem_size;
        proof {
            let last = numel(shape@) - 1;
            lemma_contiguous_suffix_offset(shape@, strides@, 0, last);
            assert(elem_offset(shape@, strides@, last) == last);
            assert(base + last * elem_size + elem_size <= src@.len());
            assert(last * elem_size + elem_size == total) by (nonlinear_arith)
                requires
                    last == numel(shape@) - 1,
                    total == numel_v * elem_size,
                    numel_v == numel(shape@),
            ;
        }
        let mut dst: Vec<u8> = Vec::new();
        let mut k: usize = 0;
        while k < total
            invariant
                ndim == shape@.len(),
                shape@.len() == strides@.len(),
                all_positive(shape@),
                elem_size >= 1,
                forall|d: int| 0 <= d < ndim ==> #[trigger] dim_contiguous(shape@, strides@, d),
                total == numel(shape@) * elem_size,
                base + total <= src@.len(),
                src@.len() <= isize::MAX,
                g == gathered(src@, base as int, shape@, strides@, elem_size as int),
                k <= total,
                dst@.len() == k,
                forall|q: int| 0 <= q < dst@.len() ==> #[trigger] dst@[q] == g[q],
            decreases total - k,
        {
            proof {
                let i = k as int / elem_size as int;
                let r = k as int % elem_size as int;
                vstd::arithmetic::div_mod::lemma_fundamental_div_mod(k as int, elem_size as int);
                lemma_mod_bound(k as int, elem_size as int);
                assert(0 <= i < numel(shape@)) by (nonlinear_arith)
                    requires
                        elem_size >= 1,
                        k == elem_size * i + r,
                        0 <= r < elem_size,
                        0 <= k < numel(shape@) * elem_size,
                ;
                lemma_gathered_at(src@, base as int, shape@, strides@, elem_size as int, i, r);
                lemma_contiguous_suffix_offset(shape@, strides@, 0, i);
                assert(elem_offset(shape@, strides@, i) == i);
                assert(i * elem_size + r == k) by (nonlinear_arith)
                    requires
                        k == elem_size * i + r,
                ;
            }
            dst.push(src[base + k]);
            k = k + 1;
        }
        proof {
            assert(dst@ =~= g);
        }
        return dst;
    }

    // Tier 2: the innermost dimensions form a contiguous block.
    let block_elems = product_range(shape, ndim - suffix, ndim);
    if suffix > 0 && block_elems > 1 {
        return copy_blocks(src, base, shape, strides, elem_size, suffix, block_elems);
    }

    // Tier 3: fully general.
    copy_elements_bytes(src, base, shape, strides, numel_v, elem_size)
}

} // verus!
