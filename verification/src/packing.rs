//! Panel packing for the matrix-multiply microkernels.
//!
//! Packing reorders a block of an operand into the order the microkernel reads
//! it. It moves elements and never computes with them, so it is written for
//! any element type.
use vstd::prelude::*;
use vstd::arithmetic::div_mod::{lemma_fundamental_div_mod_converse, lemma_fundamental_div_mod, lemma_mod_bound};

verus! {

/// Micro-kernel row count.
pub const MR: usize = 6;

/// Element `(p, j)` of the logical `[K, N]` operand held row-major: row `p`
/// starts at `off + p * ld`.
pub open spec fn row_major_at<T>(b: Seq<T>, off: int, ld: int, p: int, j: int) -> T {
    b[off + p * ld + j]
}

/// Element `(p, j)` of the logical `[K, N]` operand held as its `[N, K]`
/// transpose: column `j` starts at `off + j * ld`.
pub open spec fn transposed_at<T>(b: Seq<T>, off: int, ld: int, p: int, j: int) -> T {
    b[off + j * ld + p]
}

/// Width of the column block that starts at `jr`: `NR`, or what is left of `nc`.
pub open spec fn block_width(nc: int, jr: int, nr: int) -> int {
    if nc - jr < nr {
        nc - jr
    } else {
        nr
    }
}

/// The packed B panel, position by position.
///
/// Column blocks of width `nr` follow one another; inside a block, row `p`
/// holds that block's columns contiguously. Every block but the last is full,
/// so block `q` starts at `q * nr * kc`; the last block is packed with its own
/// (smaller) width and is not padded.
pub open spec fn packed_b_layout<T>(nc: int, kc: int, nr: int, at: spec_fn(int, int) -> T) -> Seq<T> {
    Seq::new(
        (nc * kc) as nat,
        |pos: int|
            {
                let q = pos / (nr * kc);
                let jr = q * nr;
                let w = block_width(nc, jr, nr);
                let rem = pos - q * nr * kc;
                at(rem / w, jr + rem % w)
            },
    )
}

/// The packed A panel, position by position: row blocks of `MR` rows, each
/// holding for every `k` the `MR` consecutive rows, with rows past `mc`
/// filled with `zero`.
pub open spec fn packed_a_layout<T>(a: Seq<T>, off: int, lda: int, mc: int, kc: int, zero: T) -> Seq<T> {
    Seq::new(
        (((mc + MR - 1) / MR as int) * MR * kc) as nat,
        |pos: int|
            {
                let q = pos / (MR * kc);
                let rem = pos % (MR * kc);
                let row = q * MR + rem % (MR as int);
                if row < mc {
                    a[off + row * lda + rem / (MR as int)]
                } else {
                    zero
                }
            },
    )
}

/// Position `q * nr * kc + k * w + j` of the B panel holds column `q * nr + j`
/// of row `k`.
proof fn lemma_b_position<T>(nc: int, kc: int, nr: int, at: spec_fn(int, int) -> T, q: int, k: int, j: int)
    requires
        nr > 0,
        kc > 0,
        0 <= q * nr < nc,
        0 <= q,
        0 <= k < kc,
        0 <= j < block_width(nc, q * nr, nr),
    ensures
        0 <= q * nr * kc + k * block_width(nc, q * nr, nr) + j < nc * kc,
        packed_b_layout(nc, kc, nr, at)[q * nr * kc + k * block_width(nc, q * nr, nr) + j] == at(
            k,
            q * nr + j,
        ),
{
    let w = block_width(nc, q * nr, nr);
    let pos = q * nr * kc + k * w + j;
    assert(0 <= k * w + j < nr * kc) by (nonlinear_arith)
        requires
            0 <= k < kc,
            0 <= j < w,
            w <= nr,
    ;
    assert(pos == q * (nr * kc) + (k * w + j)) by (nonlinear_arith)
        requires
            pos == q * nr * kc + k * w + j,
    ;
    lemma_fundamental_div_mod_converse(pos, nr * kc, q, k * w + j);
    lemma_fundamental_div_mod_converse(k * w + j, w, k, j);
    assert(0 <= pos < nc * kc) by (nonlinear_arith)
        requires
            pos == q * nr * kc + k * w + j,
            0 <= k < kc,
            0 <= j < w,
            w == block_width(nc, q * nr, nr),
            q * nr + w <= nc,
            0 <= q,
            nr > 0,
    ;
}

/// Pack a B panel held row-major (`b[off + p * ldb + j]`) for the microkernel.
///
/// Full blocks of `NR` columns are copied row by row; the trailing partial
/// block is packed contiguously with its own width, not padded to `NR`. Only
/// the first `nc * kc` positions of `packed` are written.
pub fn pack_b<T: Copy, const NR: usize>(
    b: &[T],
    off: usize,
    packed: &mut Vec<T>,
    nc: usize,
    kc: usize,
    ldb: usize,
)
    requires
        NR > 0,
        nc * kc <= old(packed)@.len(),
        nc == 0 || kc == 0 || off + (kc - 1) * ldb + nc <= b@.len(),
    ensures
        final(packed)@.len() == old(packed)@.len(),
        final(packed)@.subrange(0, nc * kc) == packed_b_layout(
            nc as int,
            kc as int,
            NR as int,
            |p: int, j: int| row_major_at(b@, off as int, ldb as int, p, j),
        ),
        final(packed)@.subrange(nc * kc, old(packed)@.len() as int) == old(packed)@.subrange(
            nc * kc,
            old(packed)@.len() as int,
        ),
{
    let ghost at = |p: int, j: int| row_major_at(b@, off as int, ldb as int, p, j);
    let ghost lay = packed_b_layout(nc as int, kc as int, NR as int, at);
    let ghost orig = packed@;
    if nc == 0 || kc == 0 {
        proof {
            assert(nc * kc == 0) by (nonlinear_arith)
                requires
                    nc == 0 || kc == 0,
            ;
            assert(packed@.subrange(0, nc * kc) =~= lay);
        }
        return;
    }
    let mut p: usize = 0;
    let mut jr: usize = 0;
    let mut q: usize = 0;
    loop
        invariant_except_break
            jr == q * NR,
            jr < nc,
            p == q * NR * kc,
        invariant
            NR > 0,
            nc > 0,
            kc > 0,
            nc * kc <= orig.len(),
            off + (kc - 1) * ldb + nc <= b@.len(),
            at == (|p: int, j: int| row_major_at(b@, off as int, ldb as int, p, j)),
            lay == packed_b_layout(nc as int, kc as int, NR as int, at),
            packed@.len() == orig.len(),
            forall|t: int| 0 <= t < p ==> #[trigger] packed@[t] == lay[t],
            forall|t: int| p <= t < orig.len() ==> #[trigger] packed@[t] == orig[t],
        ensures
            packed@.len() == orig.len(),
            forall|t: int| 0 <= t < nc * kc ==> #[trigger] packed@[t] == lay[t],
            forall|t: int| nc * kc <= t < orig.len() ==> #[trigger] packed@[t] == orig[t],
        decreases nc - jr,
    {
        let nr_actual: usize = if nc - jr < NR { nc - jr } else { NR };
        let ghost w = nr_actual as int;
        assert(w == block_width(nc as int, q * NR, NR as int));
        let mut k: usize = 0;
        while k < kc
            invariant
                NR > 0,
                nc > 0,
                kc > 0,
                nc * kc <= orig.len(),
                off + (kc - 1) * ldb + nc <= b@.len(),
                at == (|p: int, j: int| row_major_at(b@, off as int, ldb as int, p, j)),
                lay == packed_b_layout(nc as int, kc as int, NR as int, at),
                jr == q * NR,
                jr < nc,
                w == nr_actual,
                w == block_width(nc as int, q * NR, NR as int),
                k <= kc,
                p == q * NR * kc + k * w,
                packed@.len() == orig.len(),
                forall|t: int| 0 <= t < p ==> #[trigger] packed@[t] == lay[t],
                forall|t: int| p <= t < orig.len() ==> #[trigger] packed@[t] == orig[t],
            decreases kc - k,
        {
            let mut j: usize = 0;
            while j < nr_actual
                invariant
                    NR > 0,
                    nc > 0,
                    kc > 0,
                    nc * kc <= orig.len(),
                    off + (kc - 1) * ldb + nc <= b@.len(),
                    at == (|p: int, j: int| row_major_at(b@, off as int, ldb as int, p, j)),
                    lay == packed_b_layout(nc as int, kc as int, NR as int, at),
                    jr == q * NR,
                    jr < nc,
                    w == nr_actual,
                    w == block_width(nc as int, q * NR, NR as int),
                    k < kc,
                    j <= nr_actual,
                    p == q * NR * kc + k * w + j,
                    packed@.len() == orig.len(),
                    forall|t: int| 0 <= t < p ==> #[trigger] packed@[t] == lay[t],
                    forall|t: int| p <= t < orig.len() ==> #[trigger] packed@[t] == orig[t],
                decreases nr_actual - j,
            {
                proof {
                    lemma_b_position(nc as int, kc as int, NR as int, at, q as int, k as int, j as int);
                    assert(k * ldb <= (kc - 1) * ldb) by (nonlinear_arith)
                        requires
                            k <= kc - 1,
                    ;
                }
                let blen = b.len();
                assert(off + k * ldb + jr + j < blen);
                let src_i: usize = off + k * ldb + jr + j;
                let v: T = b[src_i];
                packed.set(p, v);
                let plen = packed.len();
                assert(p < plen);
                p = p + 1;
                j = j + 1;
            }
            proof {
                assert(q * NR * kc + k * w + w == q * NR * kc + (k + 1) * w) by (nonlinear_arith);
            }
            k = k + 1;
        }
        proof {
            assert(q * NR * kc + kc * w <= nc * kc) by (nonlinear_arith)
                requires
                    q * NR + w <= nc,
                    kc > 0,
            ;
        }
        if nc - jr <= NR {
            proof {
                assert(q * NR + w == nc);
                assert(q * NR * kc + kc * w == nc * kc) by (nonlinear_arith)
                    requires
                        q * NR + w == nc,
            ;
            }
            break;
        }
        proof {
            assert(w == NR);
            assert(q * NR * kc + kc * NR == (q + 1) * NR * kc) by (nonlinear_arith);
            assert(jr + NR == (q + 1) * NR) by (nonlinear_arith)
                requires
                    jr == q * NR,
            ;
            assert(q <= jr) by (nonlinear_arith)
                requires
                    jr == q * NR,
                    NR > 0,
            ;
        }
        jr = jr + NR;
        q = q + 1;
    }
    proof {
        assert(packed@.subrange(0, nc * kc) =~= lay);
        assert(packed@.subrange(nc * kc, orig.len() as int) =~= orig.subrange(nc * kc, orig.len() as int));
    }
}

/// Pack a B panel whose source is the transpose of a contiguous `[N, K]`
/// buffer (`b[off + j * ldb_t + p]`), without materializing the `[K, N]`
/// matrix first.
///
/// The panel has the block order, element order and unpadded trailing block of
/// [`pack_b`]; only the address each element is read from changes.
pub fn pack_b_t<T: Copy, const NR: usize>(
    b: &[T],
    off: usize,
    packed: &mut Vec<T>,
    nc: usize,
    kc: usize,
    ldb_t: usize,
)
    requires
        NR > 0,
        nc * kc <= old(packed)@.len(),
        nc == 0 || kc == 0 || off + (nc - 1) * ldb_t + kc <= b@.len(),
    ensures
        final(packed)@.len() == old(packed)@.len(),
        final(packed)@.subrange(0, nc * kc) == packed_b_layout(
            nc as int,
            kc as int,
            NR as int,
            |p: int, j: int| transposed_at(b@, off as int, ldb_t as int, p, j),
        ),
        final(packed)@.subrange(nc * kc, old(packed)@.len() as int) == old(packed)@.subrange(
            nc * kc,
            old(packed)@.len() as int,
        ),
{
    let ghost at = |p: int, j: int| transposed_at(b@, off as int, ldb_t as int, p, j);
    let ghost lay = packed_b_layout(nc as int, kc as int, NR as int, at);
    let ghost orig = packed@;
    if nc == 0 || kc == 0 {
        proof {
            assert(nc * kc == 0) by (nonlinear_arith)
                requires
                    nc == 0 || kc == 0,
            ;
            assert(packed@.subrange(0, nc * kc) =~= lay);
        }
        return;
    }
    let mut p: usize = 0;
    let mut jr: usize = 0;
    let mut q: usize = 0;
    loop
        invariant_except_break
            jr == q * NR,
            jr < nc,
            p == q * NR * kc,
        invariant
            NR > 0,
            nc > 0,
            kc > 0,
            nc * kc <= orig.len(),
            off + (nc - 1) * ldb_t + kc <= b@.len(),
            at == (|p: int, j: int| transposed_at(b@, off as int, ldb_t as int, p, j)),
            lay == packed_b_layout(nc as int, kc as int, NR as int, at),
            packed@.len() == orig.len(),
            forall|t: int| 0 <= t < p ==> #[trigger] packed@[t] == lay[t],
            forall|t: int| p <= t < orig.len() ==> #[trigger] packed@[t] == orig[t],
        ensures
            packed@.len() == orig.len(),
            forall|t: int| 0 <= t < nc * kc ==> #[trigger] packed@[t] == lay[t],
            forall|t: int| nc * kc <= t < orig.len() ==> #[trigger] packed@[t] == orig[t],
        decreases nc - jr,
    {
        let nr_actual: usize = if nc - jr < NR { nc - jr } else { NR };
        let ghost w = nr_actual as int;
        assert(w == block_width(nc as int, q * NR, NR as int));
        let mut k: usize = 0;
        while k < kc
            invariant
                NR > 0,
                nc > 0,
                kc > 0,
                nc * kc <= orig.len(),
                off + (nc - 1) * ldb_t + kc <= b@.len(),
                at == (|p: int, j: int| transposed_at(b@, off as int, ldb_t as int, p, j)),
                lay == packed_b_layout(nc as int, kc as int, NR as int, at),
                jr == q * NR,
                jr < nc,
                w == nr_actual,
                w == block_width(nc as int, q * NR, NR as int),
                k <= kc,
                p == q * NR * kc + k * w,
                packed@.len() == orig.len(),
                forall|t: int| 0 <= t < p ==> #[trigger] packed@[t] == lay[t],
                forall|t: int| p <= t < orig.len() ==> #[trigger] packed@[t] == orig[t],
            decreases kc - k,
        {
            let mut j: usize = 0;
            while j < nr_actual
                invariant
                    NR > 0,
                    nc > 0,
                    kc > 0,
                    nc * kc <= orig.len(),
                    off + (nc - 1) * ldb_t + kc <= b@.len(),
                    at == (|p: int, j: int| transposed_at(b@, off as int, ldb_t as int, p, j)),
                    lay == packed_b_layout(nc as int, kc as int, NR as int, at),
                    jr == q * NR,
                    jr < nc,
                    w == nr_actual,
                    w == block_width(nc as int, q * NR, NR as int),
                    k < kc,
                    j <= nr_actual,
                    p == q * NR * kc + k * w + j,
                    packed@.len() == orig.len(),
                    forall|t: int| 0 <= t < p ==> #[trigger] packed@[t] == lay[t],
                    forall|t: int| p <= t < orig.len() ==> #[trigger] packed@[t] == orig[t],
                decreases nr_actual - j,
            {
                proof {
                    lemma_b_position(nc as int, kc as int, NR as int, at, q as int, k as int, j as int);
                    assert((jr + j) * ldb_t <= (nc - 1) * ldb_t) by (nonlinear_arith)
                        requires
                            jr + j <= nc - 1,
                    ;
                }
                let blen = b.len();
                assert(off + (jr + j) * ldb_t + k < blen);
                let src_i: usize = off + (jr + j) * ldb_t + k;
                let v: T = b[src_i];
                packed.set(p, v);
                let plen = packed.len();
                assert(p < plen);
                p = p + 1;
                j = j + 1;
            }
            proof {
                assert(q * NR * kc + k * w + w == q * NR * kc + (k + 1) * w) by (nonlinear_arith);
            }
            k = k + 1;
        }
        proof {
            assert(q * NR * kc + kc * w <= nc * kc) by (nonlinear_arith)
                requires
                    q * NR + w <= nc,
                    kc > 0,
            ;
        }
        if nc - jr <= NR {
            proof {
                assert(q * NR + w == nc);
                assert(q * NR * kc + kc * w == nc * kc) by (nonlinear_arith)
                    requires
                        q * NR + w == nc,
            ;
            }
            break;
        }
        proof {
            assert(w == NR);
            assert(q * NR * kc + kc * NR == (q + 1) * NR * kc) by (nonlinear_arith);
            assert(jr + NR == (q + 1) * NR) by (nonlinear_arith)
                requires
                    jr == q * NR,
            ;
            assert(q <= jr) by (nonlinear_arith)
                requires
                    jr == q * NR,
                    NR > 0,
            ;
        }
        jr = jr + NR;
        q = q + 1;
    }
    proof {
        assert(packed@.subrange(0, nc * kc) =~= lay);
        assert(packed@.subrange(nc * kc, orig.len() as int) =~= orig.subrange(nc * kc, orig.len() as int));
    }
}

/// Every position of a B panel names a row below `kc` and a column below `nc`.
proof fn lemma_b_position_in_range(nc: int, kc: int, nr: int, pos: int)
    requires
        nr > 0,
        kc > 0,
        nc > 0,
        0 <= pos < nc * kc,
    ensures
        ({
            let q = pos / (nr * kc);
            let jr = q * nr;
            let w = block_width(nc, jr, nr);
            let rem = pos - q * nr * kc;
            &&& 0 <= jr < nc
            &&& 0 < w
            &&& 0 <= rem / w < kc
            &&& 0 <= jr + rem % w < nc
        }),
{
    let q = pos / (nr * kc);
    let jr = q * nr;
    let w = block_width(nc, jr, nr);
    let rem = pos - q * nr * kc;
    assert(nr * kc > 0) by (nonlinear_arith)
        requires
            nr > 0,
            kc > 0,
    ;
    lemma_fundamental_div_mod(pos, nr * kc);
    lemma_mod_bound(pos, nr * kc);
    assert(rem == pos % (nr * kc)) by (nonlinear_arith)
        requires
            rem == pos - q * nr * kc,
            pos == (nr * kc) * q + pos % (nr * kc),
    ;
    assert(0 <= q) by (nonlinear_arith)
        requires
            pos == (nr * kc) * q + pos % (nr * kc),
            pos % (nr * kc) < nr * kc,
            pos >= 0,
            nr * kc > 0,
    ;
    assert(jr < nc) by (nonlinear_arith)
        requires
            jr == q * nr,
            pos == (nr * kc) * q + rem,
            0 <= rem,
            pos < nc * kc,
            kc > 0,
    ;
    assert(0 <= jr) by (nonlinear_arith)
        requires
            jr == q * nr,
            q >= 0,
            nr > 0,
    ;
    assert(rem < w * kc) by (nonlinear_arith)
        requires
            pos == (nr * kc) * q + rem,
            rem < nr * kc,
            pos < nc * kc,
            jr == q * nr,
            w == block_width(nc, jr, nr),
            w == nc - jr || w == nr,
            w <= nc - jr,
            kc > 0,
    ;
    lemma_fundamental_div_mod(rem, w);
    lemma_mod_bound(rem, w);
    assert(0 <= rem / w < kc) by (nonlinear_arith)
        requires
            rem == w * (rem / w) + rem % w,
            0 <= rem % w < w,
            0 <= rem < w * kc,
    ;
}

/// Packing the transposed `[N, K]` buffer gives the panel that packing the
/// row-major `[K, N]` buffer of the same logical matrix gives.
pub proof fn lemma_pack_b_t_matches_pack_b<T>(
    b: Seq<T>,
    b_off: int,
    ldb: int,
    bt: Seq<T>,
    bt_off: int,
    ldb_t: int,
    nc: int,
    kc: int,
    nr: int,
)
    requires
        nr > 0,
        nc >= 0,
        kc >= 0,
        forall|p: int, j: int|
            0 <= p < kc && 0 <= j < nc ==> #[trigger] row_major_at(b, b_off, ldb, p, j)
                == transposed_at(bt, bt_off, ldb_t, p, j),
    ensures
        packed_b_layout(nc, kc, nr, |p: int, j: int| row_major_at(b, b_off, ldb, p, j))
            == packed_b_layout(nc, kc, nr, |p: int, j: int| transposed_at(bt, bt_off, ldb_t, p, j)),
{
    let l1 = packed_b_layout(nc, kc, nr, |p: int, j: int| row_major_at(b, b_off, ldb, p, j));
    let l2 = packed_b_layout(nc, kc, nr, |p: int, j: int| transposed_at(bt, bt_off, ldb_t, p, j));
    assert forall|pos: int| 0 <= pos < l1.len() implies l1[pos] == l2[pos] by {
        if kc > 0 && nc > 0 {
            lemma_b_position_in_range(nc, kc, nr, pos);
            let q = pos / (nr * kc);
            let jr = q * nr;
            let w = block_width(nc, jr, nr);
            let rem = pos - q * nr * kc;
            assert(row_major_at(b, b_off, ldb, rem / w, jr + rem % w) == transposed_at(
                bt,
                bt_off,
                ldb_t,
                rem / w,
                jr + rem % w,
            ));
        } else {
            assert(nc * kc == 0) by (nonlinear_arith)
                requires
                    nc == 0 || kc == 0,
            ;
        }
    }
    assert(l1 =~= l2);
}

/// Number of positions of the packed A panel: `mc` rounded up to whole
/// `MR`-row blocks, times `kc`.
pub open spec fn packed_a_len(mc: int, kc: int) -> int {
    ((mc + MR - 1) / MR as int) * MR * kc
}

proof fn lemma_a_position<T>(a: Seq<T>, off: int, lda: int, mc: int, kc: int, zero: T, q: int, k: int, i: int)
    requires
        kc > 0,
        0 <= q,
        q * MR < mc,
        0 <= k < kc,
        0 <= i < MR,
    ensures
        0 <= q * MR * kc + k * MR + i < packed_a_len(mc, kc),
        packed_a_layout(a, off, lda, mc, kc, zero)[q * MR * kc + k * MR + i] == if q * MR + i < mc {
            a[off + (q * MR + i) * lda + k]
        } else {
            zero
        },
{
    let pos = q * MR * kc + k * MR + i;
    let m = MR as int;
    assert(0 <= k * m + i < m * kc) by (nonlinear_arith)
        requires
            0 <= k < kc,
            0 <= i < m,
            m == 6,
    ;
    assert(pos == q * (m * kc) + (k * m + i)) by (nonlinear_arith)
        requires
            pos == q * MR * kc + k * MR + i,
            m == MR,
    ;
    lemma_fundamental_div_mod_converse(pos, m * kc, q, k * m + i);
    lemma_fundamental_div_mod_converse(k * m + i, m, k, i);
    let blocks = (mc + m - 1) / m;
    lemma_fundamental_div_mod(mc + m - 1, m);
    lemma_mod_bound(mc + m - 1, m);
    assert(q < blocks) by (nonlinear_arith)
        requires
            q * m < mc,
            mc + m - 1 == m * blocks + (mc + m - 1) % m,
            0 <= (mc + m - 1) % m < m,
            m == 6,
    ;
    assert(0 <= pos < blocks * m * kc) by (nonlinear_arith)
        requires
            pos == q * (m * kc) + (k * m + i),
            0 <= k * m + i < m * kc,
            0 <= q < blocks,
    ;
}

/// Pack an A panel (`a[off + row * lda + k]`) for the microkernel.
///
/// Rows are taken `MR` at a time; for each `k` the block's `MR` rows are laid
/// out consecutively, and a trailing partial block is padded with `zero` up to
/// `MR` rows. Only the first [`packed_a_len`] positions of `packed` are written.
pub fn pack_a<T: Copy>(a: &[T], off: usize, packed: &mut Vec<T>, mc: usize, kc: usize, lda: usize, zero: T)
    requires
        packed_a_len(mc as int, kc as int) <= old(packed)@.len(),
        mc == 0 || kc == 0 || off + (mc - 1) * lda + kc <= a@.len(),
    ensures
        final(packed)@.len() == old(packed)@.len(),
        final(packed)@.subrange(0, packed_a_len(mc as int, kc as int)) == packed_a_layout(
            a@,
            off as int,
            lda as int,
            mc as int,
            kc as int,
            zero,
        ),
        final(packed)@.subrange(packed_a_len(mc as int, kc as int), old(packed)@.len() as int)
            == old(packed)@.subrange(packed_a_len(mc as int, kc as int), old(packed)@.len() as int),
{
    let ghost lay = packed_a_layout(a@, off as int, lda as int, mc as int, kc as int, zero);
    let ghost orig = packed@;
    let ghost total = packed_a_len(mc as int, kc as int);
    if mc == 0 || kc == 0 {
        proof {
            assert(total == 0) by (nonlinear_arith)
                requires
                    mc == 0 || kc == 0,
                    total == ((mc + MR - 1) / MR as int) * MR * kc,
            ;
            assert(packed@.subrange(0, total) =~= lay);
        }
        return;
    }
    proof {
        let m = MR as int;
        lemma_fundamental_div_mod(mc + m - 1, m);
        lemma_mod_bound(mc + m - 1, m);
    }
    let mut p: usize = 0;
    let mut ir: usize = 0;
    let mut q: usize = 0;
    loop
        invariant_except_break
            ir == q * MR,
            ir < mc,
            p == q * MR * kc,
        invariant
            mc > 0,
            kc > 0,
            total == packed_a_len(mc as int, kc as int),
            total <= orig.len(),
            (mc + MR - 1) == MR * ((mc + MR - 1) / MR as int) + (mc + MR - 1) % (MR as int),
            0 <= (mc + MR - 1) % (MR as int) < MR,
            off + (mc - 1) * lda + kc <= a@.len(),
            lay == packed_a_layout(a@, off as int, lda as int, mc as int, kc as int, zero),
            packed@.len() == orig.len(),
            forall|t: int| 0 <= t < p ==> #[trigger] packed@[t] == lay[t],
            forall|t: int| p <= t < orig.len() ==> #[trigger] packed@[t] == orig[t],
        ensures
            packed@.len() == orig.len(),
            forall|t: int| 0 <= t < total ==> #[trigger] packed@[t] == lay[t],
            forall|t: int| total <= t < orig.len() ==> #[trigger] packed@[t] == orig[t],
        decreases mc - ir,
    {
        let mr_actual: usize = if mc - ir < MR { mc - ir } else { MR };
        let mut k: usize = 0;
        while k < kc
            invariant
                mc > 0,
                kc > 0,
                total == packed_a_len(mc as int, kc as int),
                total <= orig.len(),
                off + (mc - 1) * lda + kc <= a@.len(),
                lay == packed_a_layout(a@, off as int, lda as int, mc as int, kc as int, zero),
                ir == q * MR,
                ir < mc,
                mr_actual == if mc - ir < MR { mc - ir } else { MR as int },
                k <= kc,
                p == q * MR * kc + k * MR,
                packed@.len() == orig.len(),
                forall|t: int| 0 <= t < p ==> #[trigger] packed@[t] == lay[t],
                forall|t: int| p <= t < orig.len() ==> #[trigger] packed@[t] == orig[t],
            decreases kc - k,
        {
            let mut i: usize = 0;
            while i < MR
                invariant
                    mc > 0,
                    kc > 0,
                    total == packed_a_len(mc as int, kc as int),
                    total <= orig.len(),
                    off + (mc - 1) * lda + kc <= a@.len(),
                    lay == packed_a_layout(a@, off as int, lda as int, mc as int, kc as int, zero),
                    ir == q * MR,
                    ir < mc,
                    mr_actual == if mc - ir < MR { mc - ir } else { MR as int },
                    k < kc,
                    i <= MR,
                    p == q * MR * kc + k * MR + i,
                    packed@.len() == orig.len(),
                    forall|t: int| 0 <= t < p ==> #[trigger] packed@[t] == lay[t],
                    forall|t: int| p <= t < orig.len() ==> #[trigger] packed@[t] == orig[t],
                decreases MR - i,
            {
                proof {
                    lemma_a_position(a@, off as int, lda as int, mc as int, kc as int, zero, q as int, k as int, i as int);
                }
                if i < mr_actual {
                    proof {
                        assert((ir + i) * lda <= (mc - 1) * lda) by (nonlinear_arith)
                            requires
                                ir + i <= mc - 1,
                        ;
                    }
                    let alen = a.len();
                    assert(off + (ir + i) * lda + k < alen);
                    let v: T = a[off + (ir + i) * lda + k];
                    packed.set(p, v);
                } else {
                    packed.set(p, zero);
                }
                let plen = packed.len();
                assert(p < plen);
                p = p + 1;
                i = i + 1;
            }
            k = k + 1;
        }
        proof {
            assert(q * MR * kc + kc * MR == (q + 1) * MR * kc) by (nonlinear_arith);
        }
        if mc - ir <= MR {
            proof {
                let m = MR as int;
                assert(q + 1 == (mc + m - 1) / m) by (nonlinear_arith)
                    requires
                        ir == q * m,
                        mc - ir <= m,
                        ir < mc,
                        (mc + m - 1) == m * ((mc + m - 1) / m) + (mc + m - 1) % m,
                        0 <= (mc + m - 1) % m < m,
                        m == 6,
                ;
                assert(p == total);
            }
            break;
        }
        proof {
            assert(ir + MR == (q + 1) * MR) by (nonlinear_arith)
                requires
                    ir == q * MR,
            ;
            assert(q <= ir) by (nonlinear_arith)
                requires
                    ir == q * MR,
            ;
        }
        ir = ir + MR;
        q = q + 1;
    }
    proof {
        assert(packed@.subrange(0, total) =~= lay);
        assert(packed@.subrange(total, orig.len() as int) =~= orig.subrange(total, orig.len() as int));
    }
}

} // verus!
