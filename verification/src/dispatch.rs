//! Kernel selection: which implementation a matrix multiply, a convolution or
//! an element-wise operation runs, given its shape and the CPU's SIMD level.
//!
//! The floating-point kernels themselves live outside this library; what is
//! decided here, and proved, is the choice between them.
use vstd::prelude::*;
use crate::int_unary::UnaryOp;
use vstd::arithmetic::div_mod::{lemma_fundamental_div_mod, lemma_mod_bound};

verus! {

/// Instruction-set level detected on the running CPU.
///
/// The library never probes the CPU itself: the level is read once by the
/// caller and handed to every selection function together with the target
/// the kernels were built for. Only the target's own levels select vector
/// kernels (x86-64: `Avx2Fma`, `Avx512`; AArch64: `Neon`, `NeonFp16`); any
/// other level runs the portable kernels.
#[derive(Clone, Copy, Debug, PartialEq, Eq, Structural)]
pub enum SimdLevel {
    Scalar,
    Avx2Fma,
    Avx512,
    Neon,
    NeonFp16,
}

/// Target architecture the kernels were compiled for.
#[derive(Clone, Copy, Debug, PartialEq, Eq, Structural)]
pub enum TargetArch {
    X86_64,
    Aarch64,
    Other,
}

/// Floating-point element type of a kernel.
#[derive(Clone, Copy, Debug, PartialEq, Eq, Structural)]
pub enum FloatType {
    F32,
    F64,
}

/// Products `m * n * k` below this run the small-matrix (register-blocked)
/// kernels rather than the cache-tiled ones.
pub const SMALL_MATRIX_THRESHOLD: usize = 128 * 128 * 128 + 1;

/// This level has vector kernels compiled for the target: AVX-512 and AVX2 on
/// x86-64, NEON on AArch64, none on any other target.
pub open spec fn vector_level_spec(level: SimdLevel, arch: TargetArch) -> bool {
    match arch {
        TargetArch::X86_64 => level == SimdLevel::Avx512 || level == SimdLevel::Avx2Fma,
        TargetArch::Aarch64 => level == SimdLevel::Neon || level == SimdLevel::NeonFp16,
        TargetArch::Other => false,
    }
}

fn vector_level(level: SimdLevel, arch: TargetArch) -> (r: bool)
    ensures
        r == vector_level_spec(level, arch),
{
    match arch {
        TargetArch::X86_64 => matches!(level, SimdLevel::Avx512 | SimdLevel::Avx2Fma),
        TargetArch::Aarch64 => matches!(level, SimdLevel::Neon | SimdLevel::NeonFp16),
        TargetArch::Other => false,
    }
}

/// Does this SIMD level have a tiled microkernel on this target, rather than
/// the scalar path?
pub open spec fn tiled_level_spec(level: SimdLevel, arch: TargetArch) -> bool {
    vector_level_spec(level, arch)
}

/// Does this SIMD level have a tiled microkernel on this target, rather than
/// the scalar path? On x86-64 only AVX-512 and AVX2 do, on AArch64 only the
/// NEON levels, on any other target none.
pub fn tiled_level_available(level: SimdLevel, arch: TargetArch) -> (r: bool)
    ensures
        r == tiled_level_spec(level, arch),
{
    vector_level(level, arch)
}

/// `a * b`, clamped to `usize::MAX`.
fn saturating_mul_usize(a: usize, b: usize) -> (r: usize)
    ensures
        r == if a * b > usize::MAX {
            usize::MAX as int
        } else {
            a * b
        },
{
    match a.checked_mul(b) {
        Some(v) => v,
        None => usize::MAX,
    }
}

/// Do the transposed-B entry points take the tiled path for this shape?
///
/// The tiled path packs B panels straight out of the `[N, K]` buffer, so on
/// that path, and only there, the transposed and contiguous multiplies agree
/// bit for bit. Callers that require identity test this first.
pub fn matmul_bt_is_tiled(m: usize, n: usize, k: usize, level: SimdLevel, arch: TargetArch) -> (r: bool)
    ensures
        r == (m * n * k >= SMALL_MATRIX_THRESHOLD && tiled_level_spec(level, arch)),
{
    let mn = saturating_mul_usize(m, n);
    let mnk = saturating_mul_usize(mn, k);
    proof {
        let t = SMALL_MATRIX_THRESHOLD as int;
        let big = usize::MAX as int;
        if m * n > big {
            assert(mn == big);
            if k == 0 {
                assert(m * n * k == 0) by (nonlinear_arith)
                    requires
                        k == 0,
                ;
                assert(mn * k == 0) by (nonlinear_arith)
                    requires
                        k == 0,
                ;
            } else {
                assert(m * n * k >= m * n) by (nonlinear_arith)
                    requires
                        k >= 1,
                        m * n >= 0,
                ;
                assert(mn * k >= mn) by (nonlinear_arith)
                    requires
                        k >= 1,
                        mn >= 0,
                ;
                assert(mnk as int == big);
            }
        } else {
            assert(mn as int == m * n);
            assert(mn * k == m * n * k);
            assert(m * n * k >= 0) by (nonlinear_arith)
                requires
                    m * n >= 0,
                    k >= 0,
            ;
        }
    }
    mnk >= SMALL_MATRIX_THRESHOLD && tiled_level_available(level, arch)
}

/// Fewest output columns that keep an `m x n x k` product on the tiled path:
/// `ceil(SMALL_MATRIX_THRESHOLD / (m * k))`, with `m * k` clamped to
/// `usize::MAX`, and `usize::MAX` when `m * k` is zero.
pub open spec fn min_tiled_columns_spec(m: int, k: int) -> int {
    let rows = if m * k > usize::MAX {
        usize::MAX as int
    } else {
        m * k
    };
    if rows == 0 {
        usize::MAX as int
    } else {
        (SMALL_MATRIX_THRESHOLD + rows - 1) / rows
    }
}

/// Fewest output columns that keep an `m x n x k` product on the tiled path.
///
/// A caller splitting N across threads uses this as its chunk floor. Returns
/// `usize::MAX` when `m * k` is zero, so no split can clear the floor.
pub fn min_tiled_columns(m: usize, k: usize) -> (r: usize)
    ensures
        r == min_tiled_columns_spec(m as int, k as int),
{
    let rows = saturating_mul_usize(m, k);
    if rows == 0 {
        return usize::MAX;
    }
    let q = SMALL_MATRIX_THRESHOLD / rows;
    let c = if SMALL_MATRIX_THRESHOLD % rows != 0 { q + 1 } else { q };
    proof {
        let t = SMALL_MATRIX_THRESHOLD as int;
        let rr = rows as int;
        lemma_fundamental_div_mod(t, rr);
        lemma_mod_bound(t, rr);
        lemma_fundamental_div_mod(t + rr - 1, rr);
        lemma_mod_bound(t + rr - 1, rr);
        let q2 = (t + rr - 1) / rr;
        let r2 = (t + rr - 1) % rr;
        assert(c == q2) by (nonlinear_arith)
            requires
                t == rr * q + t % rr,
                0 <= t % rr < rr,
                t + rr - 1 == rr * q2 + r2,
                0 <= r2 < rr,
                c == (if t % rr != 0 { q + 1 } else { q as int }),
                rr > 0,
        ;
    }
    c
}

/// The tiled-path test and the column floor agree: once `m * k > 0`, an
/// `n`-column product stays on the tiled path exactly when `n` reaches
/// [`min_tiled_columns`].
pub proof fn lemma_min_tiled_columns_is_floor(m: int, n: int, k: int)
    requires
        0 <= m <= usize::MAX,
        0 <= n <= usize::MAX,
        0 <= k <= usize::MAX,
        m * k > 0,
    ensures
        n >= min_tiled_columns_spec(m, k) <==> m * n * k >= SMALL_MATRIX_THRESHOLD,
{
    let t = SMALL_MATRIX_THRESHOLD as int;
    assert(m * n * k == n * (m * k)) by (nonlinear_arith);
    if m * k > usize::MAX {
        let rr = usize::MAX as int;
        lemma_fundamental_div_mod(t + rr - 1, rr);
        lemma_mod_bound(t + rr - 1, rr);
        assert((t + rr - 1) / rr == 1) by (nonlinear_arith)
            requires
                t + rr - 1 == rr * ((t + rr - 1) / rr) + (t + rr - 1) % rr,
                0 <= (t + rr - 1) % rr < rr,
                1 <= t < rr,
        ;
        if n >= 1 {
            assert(n * (m * k) >= m * k) by (nonlinear_arith)
                requires
                    n >= 1,
                    m * k > 0,
            ;
        } else {
            assert(n * (m * k) == 0) by (nonlinear_arith)
                requires
                    n == 0,
            ;
        }
    } else {
        let rr = m * k;
        let c = (t + rr - 1) / rr;
        lemma_fundamental_div_mod(t + rr - 1, rr);
        lemma_mod_bound(t + rr - 1, rr);
        assert(n >= c <==> n * rr >= t) by (nonlinear_arith)
            requires
                rr > 0,
                t + rr - 1 == rr * c + (t + rr - 1) % rr,
                0 <= (t + rr - 1) % rr < rr,
                t >= 1,
        ;
    }
}

/// Implementation a matrix multiply runs.
#[derive(Clone, Copy, Debug, PartialEq, Eq, Structural)]
pub enum MatmulKernel {
    /// Register-blocked kernel for products below the threshold.
    Small,
    /// Cache-tiled kernel with double-width microkernels `nr` columns wide.
    Tiled { nr: usize },
    /// Portable scalar kernel.
    Scalar,
    /// Dot-product kernel over the transposed operand.
    GemvBt,
}

/// Column width of the tiled kernel at this level.
pub open spec fn tiled_nr_spec(level: SimdLevel, ty: FloatType) -> usize {
    match (level, ty) {
        (SimdLevel::Avx512, FloatType::F32) => 32,
        (SimdLevel::Avx2Fma, FloatType::F32) => 16,
        (SimdLevel::Avx512, FloatType::F64) => 16,
        (SimdLevel::Avx2Fma, FloatType::F64) => 8,
        (SimdLevel::Neon, FloatType::F32) | (SimdLevel::NeonFp16, FloatType::F32) => 8,
        (SimdLevel::Neon, FloatType::F64) | (SimdLevel::NeonFp16, FloatType::F64) => 4,
        (SimdLevel::Scalar, _) => 0,
    }
}

/// Kernel of `C = A @ B` (and of the fused `C = A @ B + bias`).
pub open spec fn matmul_kernel_spec(
    m: int,
    n: int,
    k: int,
    level: SimdLevel,
    arch: TargetArch,
    ty: FloatType,
) -> MatmulKernel {
    if m * n * k < SMALL_MATRIX_THRESHOLD {
        MatmulKernel::Small
    } else if tiled_level_spec(level, arch) {
        MatmulKernel::Tiled { nr: tiled_nr_spec(level, ty) }
    } else {
        MatmulKernel::Scalar
    }
}

/// Kernel of `C = A @ B` with `B` held as its transpose.
pub open spec fn matmul_bt_kernel_spec(
    m: int,
    n: int,
    k: int,
    level: SimdLevel,
    arch: TargetArch,
    ty: FloatType,
) -> MatmulKernel {
    if m * n * k < SMALL_MATRIX_THRESHOLD {
        MatmulKernel::GemvBt
    } else if tiled_level_spec(level, arch) {
        MatmulKernel::Tiled { nr: tiled_nr_spec(level, ty) }
    } else {
        MatmulKernel::GemvBt
    }
}

fn tiled_nr(level: SimdLevel, ty: FloatType) -> (r: usize)
    ensures
        r == tiled_nr_spec(level, ty),
{
    match level {
        SimdLevel::Avx512 => match ty {
            FloatType::F32 => 32,
            FloatType::F64 => 16,
        },
        SimdLevel::Avx2Fma => match ty {
            FloatType::F32 => 16,
            FloatType::F64 => 8,
        },
        SimdLevel::Neon | SimdLevel::NeonFp16 => match ty {
            FloatType::F32 => 8,
            FloatType::F64 => 4,
        },
        SimdLevel::Scalar => 0,
    }
}

/// Kernel of `C = A @ B` (and of the fused `C = A @ B + bias`): the small
/// kernel below the threshold, else the tiled kernel where the level has one,
/// else the scalar kernel.
pub fn matmul_kernel(m: usize, n: usize, k: usize, level: SimdLevel, arch: TargetArch, ty: FloatType) -> (r: MatmulKernel)
    requires
        m * n <= usize::MAX,
        m * n * k <= usize::MAX,
    ensures
        r == matmul_kernel_spec(m as int, n as int, k as int, level, arch, ty),
{
    if m * n * k < SMALL_MATRIX_THRESHOLD {
        MatmulKernel::Small
    } else if tiled_level_available(level, arch) {
        MatmulKernel::Tiled { nr: tiled_nr(level, ty) }
    } else {
        MatmulKernel::Scalar
    }
}

/// Kernel of `C = A @ B` with `B` held as its transpose: the dot-product
/// kernel below the threshold or without a tiled level, else the tiled kernel.
pub fn matmul_bt_kernel(m: usize, n: usize, k: usize, level: SimdLevel, arch: TargetArch, ty: FloatType) -> (r: MatmulKernel)
    requires
        m * n <= usize::MAX,
        m * n * k <= usize::MAX,
    ensures
        r == matmul_bt_kernel_spec(m as int, n as int, k as int, level, arch, ty),
{
    if m * n * k < SMALL_MATRIX_THRESHOLD {
        MatmulKernel::GemvBt
    } else if tiled_level_available(level, arch) {
        MatmulKernel::Tiled { nr: tiled_nr(level, ty) }
    } else {
        MatmulKernel::GemvBt
    }
}

/// The transposed-B multiply takes the tiled path exactly when
/// [`matmul_bt_is_tiled`] says so, for either element type.
pub proof fn lemma_bt_is_tiled_matches_kernel(
    m: int,
    n: int,
    k: int,
    level: SimdLevel,
    arch: TargetArch,
    ty: FloatType,
)
    ensures
        (m * n * k >= SMALL_MATRIX_THRESHOLD && tiled_level_spec(level, arch)) <==> matmul_bt_kernel_spec(
            m,
            n,
            k,
            level,
            arch,
            ty,
        ) is Tiled,
{
}

/// Microkernel a block update calls.
#[derive(Clone, Copy, Debug, PartialEq, Eq, Structural)]
pub enum Microkernel {
    /// Vector kernel over `MR` rows and `cols` columns.
    Vector { cols: usize },
    /// Portable edge kernel over `MR` rows and `nr` columns.
    Edge { nr: usize },
}

/// Microkernel of one block update, single width (`double == false`) or
/// double width (`double == true`). A level without vector kernels on the
/// target runs the edge kernel.
pub open spec fn microkernel_spec(level: SimdLevel, arch: TargetArch, ty: FloatType, double: bool) -> Microkernel {
    let w: int = if double { 2 } else { 1 };
    if !vector_level_spec(level, arch) {
        Microkernel::Edge {
            nr: (w * (if ty == FloatType::F64 && arch == TargetArch::Aarch64 { 2 } else { 4int })) as usize,
        }
    } else {
        match level {
            SimdLevel::Avx512 => Microkernel::Vector {
                cols: (w * (if ty == FloatType::F32 { 16 } else { 8int })) as usize,
            },
            SimdLevel::Avx2Fma => Microkernel::Vector {
                cols: (w * (if ty == FloatType::F32 { 8 } else { 4int })) as usize,
            },
            _ => Microkernel::Vector {
                cols: (w * (if ty == FloatType::F32 { 4 } else { 2int })) as usize,
            },
        }
    }
}

/// Microkernel of one block update.
///
/// The double-width kernel covers a whole packed block in one call; where no
/// vector kernel exists it is one edge-kernel call over the full block width,
/// never two half-width calls.
pub fn call_microkernel(level: SimdLevel, arch: TargetArch, ty: FloatType, double: bool) -> (r: Microkernel)
    ensures
        r == microkernel_spec(level, arch, ty, double),
{
    let w: usize = if double { 2 } else { 1 };
    if !vector_level(level, arch) {
        return Microkernel::Edge {
            nr: w * (if ty == FloatType::F64 && arch == TargetArch::Aarch64 { 2 } else { 4 }),
        };
    }
    match level {
        SimdLevel::Avx512 => Microkernel::Vector { cols: w * (if ty == FloatType::F32 { 16 } else { 8 }) },
        SimdLevel::Avx2Fma => Microkernel::Vector { cols: w * (if ty == FloatType::F32 { 8 } else { 4 }) },
        _ => Microkernel::Vector { cols: w * (if ty == FloatType::F32 { 4 } else { 2 }) },
    }
}

/// The tiled multiply packs B in blocks exactly as wide as the double-width
/// microkernel of the same level consumes, on every level that tiles.
pub proof fn lemma_tiled_width_matches_microkernel(level: SimdLevel, arch: TargetArch, ty: FloatType)
    requires
        tiled_level_spec(level, arch),
    ensures
        microkernel_spec(level, arch, ty, true) == (Microkernel::Vector { cols: tiled_nr_spec(level, ty) }),
{
}

/// Width in bits of one vector register at this level (0 for scalar).
pub open spec fn register_bits(level: SimdLevel) -> int {
    match level {
        SimdLevel::Avx512 => 512,
        SimdLevel::Avx2Fma => 256,
        SimdLevel::Neon | SimdLevel::NeonFp16 => 128,
        SimdLevel::Scalar => 0,
    }
}

/// Width in bits of one element.
pub open spec fn element_bits(ty: FloatType) -> int {
    if ty == FloatType::F32 {
        32
    } else {
        64
    }
}

/// Elements held by one vector register at this level.
pub open spec fn vector_lanes(level: SimdLevel, ty: FloatType) -> int {
    register_bits(level) / element_bits(ty)
}

/// Which kernel the contiguous multiply runs: the small kernel exactly for
/// products below the threshold, whatever the level and target; the scalar
/// kernel exactly for larger products on a level without vector kernels on
/// the target; otherwise the tiled kernel, whose packed blocks are two vector
/// registers wide.
pub proof fn lemma_matmul_kernel_choice(m: int, n: int, k: int, level: SimdLevel, arch: TargetArch, ty: FloatType)
    ensures
        (matmul_kernel_spec(m, n, k, level, arch, ty) == MatmulKernel::Small) <==> m * n * k
            < SMALL_MATRIX_THRESHOLD,
        (matmul_kernel_spec(m, n, k, level, arch, ty) == MatmulKernel::Scalar) <==> (m * n * k
            >= SMALL_MATRIX_THRESHOLD && !vector_level_spec(level, arch)),
        matmul_kernel_spec(m, n, k, level, arch, ty) is Tiled <==> (m * n * k >= SMALL_MATRIX_THRESHOLD
            && vector_level_spec(level, arch)),
        matmul_kernel_spec(m, n, k, level, arch, ty) matches MatmulKernel::Tiled { nr } ==> nr == 2
            * vector_lanes(level, ty),
        !(matmul_kernel_spec(m, n, k, level, arch, ty) is GemvBt),
{
}

/// Which kernel the transposed-B multiply runs: the dot-product kernel below
/// the threshold or without vector kernels on the target, else the tiled
/// kernel with the same block width as the contiguous multiply, two vector
/// registers wide, which is exactly what the double-width microkernel of the
/// same level and element type consumes. The `f64` block is half the `f32`
/// one.
pub proof fn lemma_matmul_bt_kernel_choice(
    m: int,
    n: int,
    k: int,
    level: SimdLevel,
    arch: TargetArch,
    ty: FloatType,
)
    ensures
        (matmul_bt_kernel_spec(m, n, k, level, arch, ty) == MatmulKernel::GemvBt) <==> (m * n * k
            < SMALL_MATRIX_THRESHOLD || !vector_level_spec(level, arch)),
        matmul_bt_kernel_spec(m, n, k, level, arch, ty) is Tiled || matmul_bt_kernel_spec(
            m,
            n,
            k,
            level,
            arch,
            ty,
        ) is GemvBt,
        matmul_bt_kernel_spec(m, n, k, level, arch, ty) matches MatmulKernel::Tiled { nr } ==> {
            &&& nr == 2 * vector_lanes(level, ty)
            &&& matmul_kernel_spec(m, n, k, level, arch, ty) == (MatmulKernel::Tiled { nr })
            &&& microkernel_spec(level, arch, ty, true) == (Microkernel::Vector { cols: nr })
        },
        matmul_bt_kernel_spec(m, n, k, level, arch, FloatType::F32) matches MatmulKernel::Tiled {
            nr: w32,
        } ==> (matmul_bt_kernel_spec(m, n, k, level, arch, FloatType::F64) matches MatmulKernel::Tiled {
            nr: w64,
        } && w32 == 2 * w64),
{
}

/// Which microkernel a block update calls: on a level with vector kernels on
/// the target, one vector register wide for a single-width block and two for
/// a double-width block (16 and 32 `f32` columns on AVX-512, 8 and 16 `f64`);
/// otherwise the edge kernel, whose double-width call is twice the single one.
pub proof fn lemma_microkernel_choice(level: SimdLevel, arch: TargetArch, ty: FloatType)
    ensures
        vector_level_spec(level, arch) ==> microkernel_spec(level, arch, ty, false) == (Microkernel::Vector {
            cols: vector_lanes(level, ty) as usize,
        }),
        vector_level_spec(level, arch) ==> microkernel_spec(level, arch, ty, true) == (Microkernel::Vector {
            cols: (2 * vector_lanes(level, ty)) as usize,
        }),
        !vector_level_spec(level, arch) ==> (microkernel_spec(level, arch, ty, false) matches Microkernel::Edge {
            nr: single,
        } && microkernel_spec(level, arch, ty, true) matches Microkernel::Edge { nr: double } && double
            == 2 * single),
{
}

/// Which implementation an element-wise operation runs.
#[derive(Clone, Copy, Debug, PartialEq, Eq, Structural)]
pub enum ElementwiseKernel {
    /// Portable scalar loop.
    Scalar,
    /// Vector kernel of this level.
    Vector { level: SimdLevel },
}

/// Minimum elements to justify SIMD overhead in element-wise operations.
pub const UNARY_SIMD_THRESHOLD: usize = 32;

/// Every operation of this library's op set has a vector kernel.
pub fn is_simd_supported(op: UnaryOp) -> (r: bool)
    ensures
        r,
{
    matches!(
        op,
        UnaryOp::Neg | UnaryOp::Abs | UnaryOp::Sqrt | UnaryOp::Rsqrt | UnaryOp::Cbrt | UnaryOp::Exp
            | UnaryOp::Exp2 | UnaryOp::Expm1 | UnaryOp::Log | UnaryOp::Log2 | UnaryOp::Log10
            | UnaryOp::Log1p | UnaryOp::Sin | UnaryOp::Cos | UnaryOp::Tan | UnaryOp::Asin
            | UnaryOp::Acos | UnaryOp::Atan | UnaryOp::Sinh | UnaryOp::Cosh | UnaryOp::Tanh
            | UnaryOp::Asinh | UnaryOp::Acosh | UnaryOp::Atanh | UnaryOp::Square | UnaryOp::Recip
            | UnaryOp::Floor | UnaryOp::Ceil | UnaryOp::Round | UnaryOp::RoundTiesEven
            | UnaryOp::Trunc | UnaryOp::Sign
    )
}

/// Kernel of an element-wise unary operation over `len` elements (either
/// float type): scalar for short inputs or a scalar CPU, else the level's
/// vector kernel.
pub fn unary_kernel(op: UnaryOp, len: usize, level: SimdLevel, arch: TargetArch) -> (r: ElementwiseKernel)
    ensures
        r == (if len < UNARY_SIMD_THRESHOLD || !vector_level_spec(level, arch) {
            ElementwiseKernel::Scalar
        } else {
            ElementwiseKernel::Vector { level }
        }),
{
    if len < UNARY_SIMD_THRESHOLD || level == SimdLevel::Scalar || !is_simd_supported(op) {
        ElementwiseKernel::Scalar
    } else if !vector_level(level, arch) {
        ElementwiseKernel::Scalar
    } else {
        ElementwiseKernel::Vector { level }
    }
}

/// Kernel of ReLU over `len` elements (either float type).
pub fn relu_kernel(len: usize, level: SimdLevel, arch: TargetArch) -> (r: ElementwiseKernel)
    ensures
        r == (if len < UNARY_SIMD_THRESHOLD || !vector_level_spec(level, arch) {
            ElementwiseKernel::Scalar
        } else {
            ElementwiseKernel::Vector { level }
        }),
{
    if len < UNARY_SIMD_THRESHOLD || level == SimdLevel::Scalar {
        ElementwiseKernel::Scalar
    } else if !vector_level(level, arch) {
        ElementwiseKernel::Scalar
    } else {
        ElementwiseKernel::Vector { level }
    }
}

/// Minimum work per output row to justify SIMD in the convolutions: 8 for
/// `f32`, 4 for `f64`.
pub open spec fn conv_threshold_spec(ty: FloatType) -> usize {
    if ty == FloatType::F32 {
        8
    } else {
        4
    }
}

fn conv_threshold(ty: FloatType) -> (r: usize)
    ensures
        r == conv_threshold_spec(ty),
{
    match ty {
        FloatType::F32 => 8,
        FloatType::F64 => 4,
    }
}

/// Kernel of `conv2d`, which vectorizes over input channels: scalar when a
/// group has fewer input channels than the threshold or the CPU is scalar.
pub fn conv2d_kernel(c_in: usize, groups: usize, level: SimdLevel, arch: TargetArch, ty: FloatType) -> (r: ElementwiseKernel)
    requires
        groups > 0,
    ensures
        r == (if c_in / groups < conv_threshold_spec(ty) || !vector_level_spec(level, arch) {
            ElementwiseKernel::Scalar
        } else {
            ElementwiseKernel::Vector { level }
        }),
{
    let c_in_per_group = c_in / groups;
    if c_in_per_group < conv_threshold(ty) || level == SimdLevel::Scalar {
        ElementwiseKernel::Scalar
    } else if !vector_level(level, arch) {
        ElementwiseKernel::Scalar
    } else {
        ElementwiseKernel::Vector { level }
    }
}

/// Kernel of `conv_transpose1d`, which vectorizes over output positions:
/// scalar when the input is shorter than the threshold or the CPU is scalar.
pub fn conv_transpose1d_kernel(length: usize, level: SimdLevel, arch: TargetArch, ty: FloatType) -> (r: ElementwiseKernel)
    ensures
        r == (if length < conv_threshold_spec(ty) || !vector_level_spec(level, arch) {
            ElementwiseKernel::Scalar
        } else {
            ElementwiseKernel::Vector { level }
        }),
{
    if length < conv_threshold(ty) || level == SimdLevel::Scalar {
        ElementwiseKernel::Scalar
    } else if !vector_level(level, arch) {
        ElementwiseKernel::Scalar
    } else {
        ElementwiseKernel::Vector { level }
    }
}

} // verus!
