use numr_kernels::dispatch::SimdLevel;
use numr_kernels::dot::{i8xi8_dot_i32, i8xi8_dot_lanes, i8xi8_dot_scalar, saturate_i64_to_i32};

fn exact(a: &[i8], b: &[i8]) -> i64 {
    a.iter().zip(b).map(|(&x, &y)| x as i64 * y as i64).sum()
}

#[test]
fn saturate_clamps_both_ends() {
    assert_eq!(saturate_i64_to_i32(5), 5);
    assert_eq!(saturate_i64_to_i32(i64::MAX), i32::MAX);
    assert_eq!(saturate_i64_to_i32(i64::MIN), i32::MIN);
    assert_eq!(saturate_i64_to_i32(i32::MIN as i64 - 1), i32::MIN);
}

#[test]
fn every_level_agrees_on_small_and_medium_inputs() {
    for len in [0usize, 1, 31, 32, 33, 64, 100, 1000] {
        let a: Vec<i8> = (0..len).map(|i| ((i * 37) % 256) as u8 as i8).collect();
        let b: Vec<i8> = (0..len).map(|i| ((i * 91 + 7) % 256) as u8 as i8).collect();
        let want = saturate_i64_to_i32(exact(&a, &b));
        for level in [SimdLevel::Scalar, SimdLevel::Avx2Fma, SimdLevel::Avx512, SimdLevel::Neon, SimdLevel::NeonFp16] {
            assert_eq!(i8xi8_dot_i32(&a, &b, len, level), want, "len {len} level {level:?}");
        }
        for lanes in [4usize, 8, 16] {
            assert_eq!(i8xi8_dot_lanes(&a, &b, len, lanes), want);
        }
    }
}

#[test]
fn lanes_survive_past_the_spill_interval() {
    // 2^21 products of -128 * -128 = 2^14 sum to 2^35: the lanes would have
    // wrapped without spills, and the total clamps to i32::MAX.
    let len = 1 << 21;
    let a = vec![-128i8; len];
    let b = vec![-128i8; len];
    for lanes in [4usize, 8, 16] {
        assert_eq!(i8xi8_dot_lanes(&a, &b, len, lanes), i32::MAX);
    }
    assert_eq!(i8xi8_dot_scalar(&a, &b, len), i32::MAX);
}

#[test]
fn long_mixed_sign_total_is_exact() {
    // Alternating signs cancel: the exact total stays small however long.
    let len = 600_001;
    let a: Vec<i8> = (0..len).map(|i| if i % 2 == 0 { 127 } else { -127 }).collect();
    let b = vec![127i8; len];
    for lanes in [4usize, 8, 16] {
        assert_eq!(i8xi8_dot_lanes(&a, &b, len, lanes), 16129);
    }
}

#[test]
fn dot_uses_only_the_prefix() {
    let a = [1i8, 2, 3, 100];
    let b = [4i8, 5, 6, 100];
    assert_eq!(i8xi8_dot_i32(&a, &b, 3, SimdLevel::Avx2Fma), 32);
}
