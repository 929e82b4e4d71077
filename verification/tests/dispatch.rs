use numr_kernels::dispatch::{
    call_microkernel, conv2d_kernel, conv_transpose1d_kernel, is_simd_supported, matmul_bt_is_tiled,
    matmul_bt_kernel, matmul_kernel, min_tiled_columns, relu_kernel, tiled_level_available, unary_kernel,
    ElementwiseKernel, FloatType, MatmulKernel, Microkernel, SimdLevel, TargetArch,
    SMALL_MATRIX_THRESHOLD,
};
use numr_kernels::int_unary::UnaryOp;

const LEVELS: [SimdLevel; 5] = [
    SimdLevel::Scalar,
    SimdLevel::Avx2Fma,
    SimdLevel::Avx512,
    SimdLevel::Neon,
    SimdLevel::NeonFp16,
];

const ARCHES: [TargetArch; 3] = [TargetArch::X86_64, TargetArch::Aarch64, TargetArch::Other];

const X86: TargetArch = TargetArch::X86_64;
const ARM: TargetArch = TargetArch::Aarch64;

#[test]
fn test_simd_level_detection() {
    // The level is detected by the caller; every level the library knows
    // selects a kernel on every target.
    for arch in ARCHES {
        for level in LEVELS {
            println!(
                "SIMD level: {level:?} on {arch:?} -> {:?}",
                matmul_kernel(128, 129, 128, level, arch, FloatType::F32)
            );
        }
    }
}

#[test]
fn threshold_is_one_past_128_cubed() {
    assert_eq!(SMALL_MATRIX_THRESHOLD, 128 * 128 * 128 + 1);
}

#[test]
fn tiled_levels() {
    assert!(!tiled_level_available(SimdLevel::Scalar, X86));
    assert!(tiled_level_available(SimdLevel::Avx2Fma, X86));
    assert!(tiled_level_available(SimdLevel::Avx512, X86));
    assert!(!tiled_level_available(SimdLevel::Neon, X86));
    assert!(!tiled_level_available(SimdLevel::NeonFp16, X86));
    assert!(!tiled_level_available(SimdLevel::Scalar, ARM));
    assert!(!tiled_level_available(SimdLevel::Avx2Fma, ARM));
    assert!(!tiled_level_available(SimdLevel::Avx512, ARM));
    assert!(tiled_level_available(SimdLevel::Neon, ARM));
    assert!(tiled_level_available(SimdLevel::NeonFp16, ARM));
    for level in LEVELS {
        assert!(!tiled_level_available(level, TargetArch::Other));
    }
}

#[test]
fn bt_tiled_shapes() {
    assert!(!matmul_bt_is_tiled(128, 128, 128, SimdLevel::Avx2Fma, X86));
    assert!(matmul_bt_is_tiled(128, 129, 128, SimdLevel::Avx2Fma, X86));
    assert!(!matmul_bt_is_tiled(128, 129, 128, SimdLevel::Scalar, X86));
    assert!(!matmul_bt_is_tiled(128, 129, 128, SimdLevel::Neon, X86));
    // Saturating: a product past usize::MAX is still tiled, a zero one is not.
    assert!(matmul_bt_is_tiled(usize::MAX, 2, 3, SimdLevel::Neon, ARM));
    assert!(!matmul_bt_is_tiled(usize::MAX, usize::MAX, 0, SimdLevel::Neon, ARM));
}

#[test]
fn min_columns_floor() {
    assert_eq!(min_tiled_columns(0, 5), usize::MAX);
    assert_eq!(min_tiled_columns(5, 0), usize::MAX);
    assert_eq!(min_tiled_columns(128, 128), 129);
    assert_eq!(min_tiled_columns(1, 1), SMALL_MATRIX_THRESHOLD);
    assert_eq!(min_tiled_columns(usize::MAX, 2), 1);
    // Columns at the floor are tiled; one fewer is not.
    for (m, k) in [(128usize, 128usize), (37, 41), (1000, 3), (1, 1)] {
        let c = min_tiled_columns(m, k);
        assert!(matmul_bt_is_tiled(m, c, k, SimdLevel::Avx512, X86));
        assert!(!matmul_bt_is_tiled(m, c - 1, k, SimdLevel::Avx512, X86));
    }
}

#[test]
fn matmul_kernels_by_level() {
    let f32t = FloatType::F32;
    let f64t = FloatType::F64;
    assert_eq!(matmul_kernel(4, 4, 4, SimdLevel::Avx512, X86, f32t), MatmulKernel::Small);
    assert_eq!(matmul_kernel(128, 129, 128, SimdLevel::Avx512, X86, f32t), MatmulKernel::Tiled { nr: 32 });
    assert_eq!(matmul_kernel(128, 129, 128, SimdLevel::Avx2Fma, X86, f32t), MatmulKernel::Tiled { nr: 16 });
    assert_eq!(matmul_kernel(128, 129, 128, SimdLevel::Neon, ARM, f32t), MatmulKernel::Tiled { nr: 8 });
    assert_eq!(matmul_kernel(128, 129, 128, SimdLevel::Avx512, X86, f64t), MatmulKernel::Tiled { nr: 16 });
    assert_eq!(matmul_kernel(128, 129, 128, SimdLevel::Avx2Fma, X86, f64t), MatmulKernel::Tiled { nr: 8 });
    assert_eq!(matmul_kernel(128, 129, 128, SimdLevel::NeonFp16, ARM, f64t), MatmulKernel::Tiled { nr: 4 });
    assert_eq!(matmul_kernel(128, 129, 128, SimdLevel::Scalar, X86, f64t), MatmulKernel::Scalar);
    // A level the target has no kernels for runs the scalar kernel.
    assert_eq!(matmul_kernel(128, 129, 128, SimdLevel::Neon, X86, f32t), MatmulKernel::Scalar);
    assert_eq!(matmul_kernel(128, 129, 128, SimdLevel::Avx512, ARM, f32t), MatmulKernel::Scalar);
    assert_eq!(matmul_kernel(128, 129, 128, SimdLevel::Avx512, TargetArch::Other, f32t), MatmulKernel::Scalar);
    assert_eq!(matmul_bt_kernel(4, 4, 4, SimdLevel::Avx512, X86, f32t), MatmulKernel::GemvBt);
    assert_eq!(matmul_bt_kernel(128, 129, 128, SimdLevel::Scalar, X86, f32t), MatmulKernel::GemvBt);
    assert_eq!(matmul_bt_kernel(128, 129, 128, SimdLevel::Avx2Fma, X86, f32t), MatmulKernel::Tiled { nr: 16 });
    assert_eq!(matmul_bt_kernel(128, 129, 128, SimdLevel::NeonFp16, X86, f32t), MatmulKernel::GemvBt);
}

#[test]
fn double_width_microkernel_matches_tiled_width() {
    for arch in ARCHES {
        for level in LEVELS {
            for ty in [FloatType::F32, FloatType::F64] {
                if let MatmulKernel::Tiled { nr } = matmul_kernel(200, 200, 200, level, arch, ty) {
                    assert_eq!(call_microkernel(level, arch, ty, true), Microkernel::Vector { cols: nr });
                }
            }
        }
    }
    assert_eq!(call_microkernel(SimdLevel::Scalar, X86, FloatType::F32, false), Microkernel::Edge { nr: 4 });
    assert_eq!(call_microkernel(SimdLevel::Scalar, X86, FloatType::F32, true), Microkernel::Edge { nr: 8 });
    assert_eq!(call_microkernel(SimdLevel::Scalar, ARM, FloatType::F64, false), Microkernel::Edge { nr: 2 });
    assert_eq!(call_microkernel(SimdLevel::Scalar, TargetArch::Other, FloatType::F64, true), Microkernel::Edge { nr: 8 });
    assert_eq!(call_microkernel(SimdLevel::Neon, ARM, FloatType::F64, false), Microkernel::Vector { cols: 2 });
    assert_eq!(call_microkernel(SimdLevel::Avx512, X86, FloatType::F32, true), Microkernel::Vector { cols: 32 });
    // Off-target levels fall to the edge kernel.
    assert_eq!(call_microkernel(SimdLevel::Neon, X86, FloatType::F32, false), Microkernel::Edge { nr: 4 });
    assert_eq!(call_microkernel(SimdLevel::Avx2Fma, ARM, FloatType::F64, true), Microkernel::Edge { nr: 4 });
}

#[test]
fn elementwise_kernels() {
    assert!(is_simd_supported(UnaryOp::Sign));
    assert_eq!(unary_kernel(UnaryOp::Exp, 31, SimdLevel::Avx2Fma, X86), ElementwiseKernel::Scalar);
    assert_eq!(
        unary_kernel(UnaryOp::Exp, 32, SimdLevel::Avx2Fma, X86),
        ElementwiseKernel::Vector { level: SimdLevel::Avx2Fma }
    );
    assert_eq!(unary_kernel(UnaryOp::Exp, 1000, SimdLevel::Scalar, X86), ElementwiseKernel::Scalar);
    assert_eq!(unary_kernel(UnaryOp::Exp, 1000, SimdLevel::Avx2Fma, ARM), ElementwiseKernel::Scalar);
    assert_eq!(relu_kernel(32, SimdLevel::Neon, ARM), ElementwiseKernel::Vector { level: SimdLevel::Neon });
    assert_eq!(relu_kernel(31, SimdLevel::Neon, ARM), ElementwiseKernel::Scalar);
    assert_eq!(relu_kernel(64, SimdLevel::Neon, X86), ElementwiseKernel::Scalar);
}

#[test]
fn convolution_kernels() {
    let vec512 = ElementwiseKernel::Vector { level: SimdLevel::Avx512 };
    let vec2 = ElementwiseKernel::Vector { level: SimdLevel::Avx2Fma };
    assert_eq!(conv2d_kernel(16, 2, SimdLevel::Avx512, X86, FloatType::F32), vec512);
    assert_eq!(conv2d_kernel(16, 4, SimdLevel::Avx512, X86, FloatType::F32), ElementwiseKernel::Scalar);
    assert_eq!(conv2d_kernel(16, 4, SimdLevel::Avx512, X86, FloatType::F64), vec512);
    assert_eq!(conv2d_kernel(16, 2, SimdLevel::Avx512, TargetArch::Other, FloatType::F32), ElementwiseKernel::Scalar);
    assert_eq!(conv_transpose1d_kernel(7, SimdLevel::Avx2Fma, X86, FloatType::F32), ElementwiseKernel::Scalar);
    assert_eq!(conv_transpose1d_kernel(8, SimdLevel::Avx2Fma, X86, FloatType::F32), vec2);
    assert_eq!(conv_transpose1d_kernel(4, SimdLevel::Avx2Fma, X86, FloatType::F64), vec2);
    assert_eq!(conv_transpose1d_kernel(100, SimdLevel::Scalar, X86, FloatType::F64), ElementwiseKernel::Scalar);
    assert_eq!(conv_transpose1d_kernel(100, SimdLevel::NeonFp16, X86, FloatType::F64), ElementwiseKernel::Scalar);
}

#[test]
fn bt_gate_agrees_with_bt_kernel() {
    for (m, n, k) in [(1usize, 1usize, 1usize), (128, 128, 128), (128, 128, 129), (1, 2097153, 1), (64, 64, 513)] {
        for arch in ARCHES {
            for level in LEVELS {
                for ty in [FloatType::F32, FloatType::F64] {
                    let tiled = matches!(matmul_bt_kernel(m, n, k, level, arch, ty), MatmulKernel::Tiled { .. });
                    assert_eq!(matmul_bt_is_tiled(m, n, k, level, arch), tiled);
                }
            }
        }
    }
}
