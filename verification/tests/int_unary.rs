use numr_kernels::int_unary::{elem, unary_int_kernel, UnaryOp};

#[test]
fn neg_and_abs_wrap_at_the_signed_minimum() {
    assert_eq!(elem::<i32>(UnaryOp::Neg, i32::MIN), Some(i32::MIN));
    assert_eq!(elem::<i32>(UnaryOp::Abs, i32::MIN), Some(i32::MIN));
    assert_eq!(elem::<i8>(UnaryOp::Neg, i8::MIN), Some(i8::MIN));
    assert_eq!(elem::<i8>(UnaryOp::Abs, i8::MIN), Some(i8::MIN));
    assert_eq!(elem::<i64>(UnaryOp::Neg, i64::MIN), Some(i64::MIN));
    assert_eq!(elem::<i64>(UnaryOp::Abs, i64::MIN), Some(i64::MIN));
}

#[test]
fn wide_integers_survive_exactly() {
    assert_eq!(elem::<i64>(UnaryOp::Neg, 9007199254740993), Some(-9007199254740993));
    assert_eq!(elem::<u64>(UnaryOp::Neg, 1), Some(u64::MAX));
}

#[test]
fn sign_reports_three_values() {
    assert_eq!(elem::<i16>(UnaryOp::Sign, -7), Some(-1));
    assert_eq!(elem::<i16>(UnaryOp::Sign, 0), Some(0));
    assert_eq!(elem::<i16>(UnaryOp::Sign, 7), Some(1));
    assert_eq!(elem::<i16>(UnaryOp::Sign, i16::MIN), Some(-1));
    assert_eq!(elem::<u8>(UnaryOp::Sign, 0), Some(0));
    assert_eq!(elem::<u8>(UnaryOp::Sign, 200), Some(1));
}

#[test]
fn abs_is_the_identity_on_unsigned_dtypes() {
    assert_eq!(elem::<u32>(UnaryOp::Abs, u32::MAX), Some(u32::MAX));
}

#[test]
fn other_ops_and_dtypes_are_not_claimed() {
    // An operation other than neg/abs/sign is left to the caller. (Floating
    // element types cannot reach this kernel at all: the element type must
    // be an integer type.)
    let a = [1i32];
    let mut out = vec![0i32];
    let handled = unary_int_kernel(UnaryOp::Sqrt, &a, &mut out, 1);
    assert!(!handled);
    assert_eq!(out, vec![0]);
}

#[test]
fn neg_is_an_involution_on_every_width() {
    for x in [i8::MIN, -1, 0, 1, i8::MAX] {
        let once = elem::<i8>(UnaryOp::Neg, x).unwrap();
        assert_eq!(elem::<i8>(UnaryOp::Neg, once), Some(x));
    }
    for x in [0u16, 1, 300, u16::MAX] {
        let once = elem::<u16>(UnaryOp::Neg, x).unwrap();
        assert_eq!(elem::<u16>(UnaryOp::Neg, once), Some(x));
    }
    assert_eq!(elem::<u16>(UnaryOp::Neg, 300), Some(65236));
}

#[test]
fn abs_is_the_magnitude_below_the_minimum() {
    assert_eq!(elem::<i32>(UnaryOp::Abs, -5), Some(5));
    assert_eq!(elem::<i32>(UnaryOp::Abs, 5), Some(5));
    assert_eq!(elem::<i16>(UnaryOp::Abs, i16::MIN + 1), Some(i16::MAX));
    assert_eq!(elem::<i64>(UnaryOp::Abs, -9007199254740993), Some(9007199254740993));
}

#[test]
fn other_ops_give_none_for_elements() {
    assert_eq!(elem::<i32>(UnaryOp::Exp, 3), None);
    assert_eq!(elem::<u8>(UnaryOp::Sqrt, 4), None);
}

#[test]
fn kernel_runs_over_the_prefix_only() {
    let a = [i32::MIN, -3, 0, 9, 100];
    let mut out = vec![7i32; 6];
    assert!(unary_int_kernel(UnaryOp::Abs, &a, &mut out, 4));
    assert_eq!(out, vec![i32::MIN, 3, 0, 9, 7, 7]);
    let b = [250u8, 0, 1];
    let mut out_b = vec![0u8; 3];
    assert!(unary_int_kernel(UnaryOp::Neg, &b, &mut out_b, 3));
    assert_eq!(out_b, vec![6, 0, 255]);
    let mut out_s = vec![9i8; 3];
    assert!(unary_int_kernel(UnaryOp::Sign, &[-4i8, 0, 4], &mut out_s, 3));
    assert_eq!(out_s, vec![-1, 0, 1]);
}
