//! Wrapping integer `neg`, `abs` and `sign` for the element-wise unary kernels.
//!
//! Element-wise integer operations wrap: `neg` and `abs` of the signed minimum
//! answer the minimum itself, `neg` of an unsigned value is its two's
//! complement, and every result is exact for the full width of the type (no
//! detour through floating point).
use vstd::prelude::*;

verus! {

/// Element-wise unary operations.
#[derive(Clone, Copy, Debug, PartialEq, Eq, Structural)]
pub enum UnaryOp {
    Neg,
    Abs,
    Sqrt,
    Rsqrt,
    Cbrt,
    Exp,
    Exp2,
    Expm1,
    Log,
    Log2,
    Log10,
    Log1p,
    Sin,
    Cos,
    Tan,
    Asin,
    Acos,
    Atan,
    Sinh,
    Cosh,
    Tanh,
    Asinh,
    Acosh,
    Atanh,
    Square,
    Recip,
    Floor,
    Ceil,
    Round,
    RoundTiesEven,
    Trunc,
    Sign,
}

/// The operations the integer kernel answers: `neg`, `abs` and `sign`.
pub open spec fn is_int_unary_op(op: UnaryOp) -> bool {
    op == UnaryOp::Neg || op == UnaryOp::Abs || op == UnaryOp::Sign
}

/// An integer element type with wrapping unary arithmetic.
pub trait WrappingIntUnary: Copy + Sized {
    /// The mathematical value of an element.
    spec fn value(self) -> int;

    /// Smallest value of the type.
    spec fn min_value() -> int;

    /// Largest value of the type.
    spec fn max_value() -> int;

    /// Wrapping negation.
    spec fn neg_spec(self) -> Self;

    /// Wrapping absolute value.
    spec fn abs_spec(self) -> Self;

    /// Sign: 1, 0 or -1.
    spec fn sign_spec(self) -> Self;

    fn w_neg(self) -> (r: Self)
        ensures
            r == self.neg_spec(),
    ;

    fn w_abs(self) -> (r: Self)
        ensures
            r == self.abs_spec(),
    ;

    fn w_sign(self) -> (r: Self)
        ensures
            r == self.sign_spec(),
    ;

    /// Negation is exact where the negated value is representable, and wraps
    /// modulo the type's range otherwise.
    proof fn lemma_neg_wraps(x: Self)
        ensures
            Self::min_value() <= -x.value() <= Self::max_value() ==> x.neg_spec().value() == -x.value(),
            x.neg_spec().value() == -x.value() || x.neg_spec().value() == -x.value() + (
            Self::max_value() - Self::min_value() + 1) || x.neg_spec().value() == -x.value() - (
            Self::max_value() - Self::min_value() + 1),
    ;

    /// Negating twice gives the element back.
    proof fn lemma_neg_involution(x: Self)
        ensures
            x.neg_spec().neg_spec() == x,
    ;

    /// The absolute value is the element or its negation; it is the exact
    /// magnitude whenever the magnitude is representable.
    proof fn lemma_abs_is_magnitude(x: Self)
        ensures
            x.abs_spec() == x || x.abs_spec() == x.neg_spec(),
            (x.value() >= 0 ==> x.abs_spec() == x),
            (x.value() < 0 && -x.value() <= Self::max_value()) ==> x.abs_spec().value() == -x.value(),
    ;

    /// The sign reports exactly one of three values.
    proof fn lemma_sign_three_values(x: Self)
        ensures
            x.sign_spec().value() == (if x.value() > 0 {
                1int
            } else if x.value() < 0 {
                -1int
            } else {
                0int
            }),
    ;
}

impl WrappingIntUnary for i8 {
    open spec fn value(self) -> int {
        self as int
    }

    open spec fn min_value() -> int {
        i8::MIN as int
    }

    open spec fn max_value() -> int {
        i8::MAX as int
    }

    open spec fn neg_spec(self) -> i8 {
        if self == i8::MIN {
            self
        } else {
            (-self) as i8
        }
    }

    open spec fn abs_spec(self) -> i8 {
        if self < 0 {
            self.neg_spec()
        } else {
            self
        }
    }

    open spec fn sign_spec(self) -> i8 {
        if self > 0 {
            1
        } else if self < 0 {
            -1i8
        } else {
            0
        }
    }

    fn w_neg(self) -> (r: i8) {
        if self == i8::MIN {
            self
        } else {
            -self
        }
    }

    fn w_abs(self) -> (r: i8) {
        if self < 0 {
            self.w_neg()
        } else {
            self
        }
    }

    fn w_sign(self) -> (r: i8) {
        if self > 0 {
            1
        } else if self < 0 {
            -1
        } else {
            0
        }
    }

    proof fn lemma_neg_wraps(x: i8) {
    }

    proof fn lemma_neg_involution(x: i8) {
    }

    proof fn lemma_abs_is_magnitude(x: i8) {
    }

    proof fn lemma_sign_three_values(x: i8) {
    }
}

impl WrappingIntUnary for i16 {
    open spec fn value(self) -> int {
        self as int
    }

    open spec fn min_value() -> int {
        i16::MIN as int
    }

    open spec fn max_value() -> int {
        i16::MAX as int
    }

    open spec fn neg_spec(self) -> i16 {
        if self == i16::MIN {
            self
        } else {
            (-self) as i16
        }
    }

    open spec fn abs_spec(self) -> i16 {
        if self < 0 {
            self.neg_spec()
        } else {
            self
        }
    }

    open spec fn sign_spec(self) -> i16 {
        if self > 0 {
            1
        } else if self < 0 {
            -1i16
        } else {
            0
        }
    }

    fn w_neg(self) -> (r: i16) {
        if self == i16::MIN {
            self
        } else {
            -self
        }
    }

    fn w_abs(self) -> (r: i16) {
        if self < 0 {
            self.w_neg()
        } else {
            self
        }
    }

    fn w_sign(self) -> (r: i16) {
        if self > 0 {
            1
        } else if self < 0 {
            -1
        } else {
            0
        }
    }

    proof fn lemma_neg_wraps(x: i16) {
    }

    proof fn lemma_neg_involution(x: i16) {
    }

    proof fn lemma_abs_is_magnitude(x: i16) {
    }

    proof fn lemma_sign_three_values(x: i16) {
    }
}

impl WrappingIntUnary for i32 {
    open spec fn value(self) -> int {
        self as int
    }

    open spec fn min_value() -> int {
        i32::MIN as int
    }

    open spec fn max_value() -> int {
        i32::MAX as int
    }

    open spec fn neg_spec(self) -> i32 {
        if self == i32::MIN {
            self
        } else {
            (-self) as i32
        }
    }

    open spec fn abs_spec(self) -> i32 {
        if self < 0 {
            self.neg_spec()
        } else {
            self
        }
    }

    open spec fn sign_spec(self) -> i32 {
        if self > 0 {
            1
        } else if self < 0 {
            -1i32
        } else {
            0
        }
    }

    fn w_neg(self) -> (r: i32) {
        if self == i32::MIN {
            self
        } else {
            -self
        }
    }

    fn w_abs(self) -> (r: i32) {
        if self < 0 {
            self.w_neg()
        } else {
            self
        }
    }

    fn w_sign(self) -> (r: i32) {
        if self > 0 {
            1
        } else if self < 0 {
            -1
        } else {
            0
        }
    }

    proof fn lemma_neg_wraps(x: i32) {
    }

    proof fn lemma_neg_involution(x: i32) {
    }

    proof fn lemma_abs_is_magnitude(x: i32) {
    }

    proof fn lemma_sign_three_values(x: i32) {
    }
}

impl WrappingIntUnary for i64 {
    open spec fn value(self) -> int {
        self as int
    }

    open spec fn min_value() -> int {
        i64::MIN as int
    }

    open spec fn max_value() -> int {
        i64::MAX as int
    }

    open spec fn neg_spec(self) -> i64 {
        if self == i64::MIN {
            self
        } else {
            (-self) as i64
        }
    }

    open spec fn abs_spec(self) -> i64 {
        if self < 0 {
            self.neg_spec()
        } else {
            self
        }
    }

    open spec fn sign_spec(self) -> i64 {
        if self > 0 {
            1
        } else if self < 0 {
            -1i64
        } else {
            0
        }
    }

    fn w_neg(self) -> (r: i64) {
        if self == i64::MIN {
            self
        } else {
            -self
        }
    }

    fn w_abs(self) -> (r: i64) {
        if self < 0 {
            self.w_neg()
        } else {
            self
        }
    }

    fn w_sign(self) -> (r: i64) {
        if self > 0 {
            1
        } else if self < 0 {
            -1
        } else {
            0
        }
    }

    proof fn lemma_neg_wraps(x: i64) {
    }

    proof fn lemma_neg_involution(x: i64) {
    }

    proof fn lemma_abs_is_magnitude(x: i64) {
    }

    proof fn lemma_sign_three_values(x: i64) {
    }
}

impl WrappingIntUnary for u8 {
    open spec fn value(self) -> int {
        self as int
    }

    open spec fn min_value() -> int {
        0
    }

    open spec fn max_value() -> int {
        u8::MAX as int
    }

    open spec fn neg_spec(self) -> u8 {
        if self == 0 {
            0
        } else {
            (u8::MAX - self + 1) as u8
        }
    }

    open spec fn abs_spec(self) -> u8 {
        self
    }

    open spec fn sign_spec(self) -> u8 {
        if self > 0 {
            1
        } else {
            0
        }
    }

    fn w_neg(self) -> (r: u8) {
        if self == 0 {
            0
        } else {
            u8::MAX - self + 1
        }
    }

    fn w_abs(self) -> (r: u8) {
        self
    }

    fn w_sign(self) -> (r: u8) {
        if self > 0 {
            1
        } else {
            0
        }
    }

    proof fn lemma_neg_wraps(x: u8) {
    }

    proof fn lemma_neg_involution(x: u8) {
    }

    proof fn lemma_abs_is_magnitude(x: u8) {
    }

    proof fn lemma_sign_three_values(x: u8) {
    }
}

impl WrappingIntUnary for u16 {
    open spec fn value(self) -> int {
        self as int
    }

    open spec fn min_value() -> int {
        0
    }

    open spec fn max_value() -> int {
        u16::MAX as int
    }

    open spec fn neg_spec(self) -> u16 {
        if self == 0 {
            0
        } else {
            (u16::MAX - self + 1) as u16
        }
    }

    open spec fn abs_spec(self) -> u16 {
        self
    }

    open spec fn sign_spec(self) -> u16 {
        if self > 0 {
            1
        } else {
            0
        }
    }

    fn w_neg(self) -> (r: u16) {
        if self == 0 {
            0
        } else {
            u16::MAX - self + 1
        }
    }

    fn w_abs(self) -> (r: u16) {
        self
    }

    fn w_sign(self) -> (r: u16) {
        if self > 0 {
            1
        } else {
            0
        }
    }

    proof fn lemma_neg_wraps(x: u16) {
    }

    proof fn lemma_neg_involution(x: u16) {
    }

    proof fn lemma_abs_is_magnitude(x: u16) {
    }

    proof fn lemma_sign_three_values(x: u16) {
    }
}

impl WrappingIntUnary for u32 {
    open spec fn value(self) -> int {
        self as int
    }

    open spec fn min_value() -> int {
        0
    }

    open spec fn max_value() -> int {
        u32::MAX as int
    }

    open spec fn neg_spec(self) -> u32 {
        if self == 0 {
            0
        } else {
            (u32::MAX - self + 1) as u32
        }
    }

    open spec fn abs_spec(self) -> u32 {
        self
    }

    open spec fn sign_spec(self) -> u32 {
        if self > 0 {
            1
        } else {
            0
        }
    }

    fn w_neg(self) -> (r: u32) {
        if self == 0 {
            0
        } else {
            u32::MAX - self + 1
        }
    }

    fn w_abs(self) -> (r: u32) {
        self
    }

    fn w_sign(self) -> (r: u32) {
        if self > 0 {
            1
        } else {
            0
        }
    }

    proof fn lemma_neg_wraps(x: u32) {
    }

    proof fn lemma_neg_involution(x: u32) {
    }

    proof fn lemma_abs_is_magnitude(x: u32) {
    }

    proof fn lemma_sign_three_values(x: u32) {
    }
}

impl WrappingIntUnary for u64 {
    open spec fn value(self) -> int {
        self as int
    }

    open spec fn min_value() -> int {
        0
    }

    open spec fn max_value() -> int {
        u64::MAX as int
    }

    open spec fn neg_spec(self) -> u64 {
        if self == 0 {
            0
        } else {
            (u64::MAX - self + 1) as u64
        }
    }

    open spec fn abs_spec(self) -> u64 {
        self
    }

    open spec fn sign_spec(self) -> u64 {
        if self > 0 {
            1
        } else {
            0
        }
    }

    fn w_neg(self) -> (r: u64) {
        if self == 0 {
            0
        } else {
            u64::MAX - self + 1
        }
    }

    fn w_abs(self) -> (r: u64) {
        self
    }

    fn w_sign(self) -> (r: u64) {
        if self > 0 {
            1
        } else {
            0
        }
    }

    proof fn lemma_neg_wraps(x: u64) {
    }

    proof fn lemma_neg_involution(x: u64) {
    }

    proof fn lemma_abs_is_magnitude(x: u64) {
    }

    proof fn lemma_sign_three_values(x: u64) {
    }
}

/// The integer result of `op` on one element, or `None` for an operation the
/// integer kernel does not answer.
pub open spec fn elem_spec<T: WrappingIntUnary>(op: UnaryOp, a: T) -> Option<T> {
    match op {
        UnaryOp::Neg => Some(a.neg_spec()),
        UnaryOp::Abs => Some(a.abs_spec()),
        UnaryOp::Sign => Some(a.sign_spec()),
        _ => None,
    }
}

/// The integer kernel answers `neg`, `abs` and `sign` and nothing else: for
/// every other operation an element gives `None`. For the three it answers,
/// `neg` is the negation modulo the type's range, `abs` is the element or its
/// negation and never negative below the top of the range, and `sign` is
/// 1, 0 or -1 by the element's sign.
pub proof fn lemma_elem_answers_neg_abs_sign<T: WrappingIntUnary>(op: UnaryOp, a: T)
    ensures
        is_int_unary_op(op) <==> (op == UnaryOp::Neg || op == UnaryOp::Abs || op == UnaryOp::Sign),
        elem_spec(op, a) is Some <==> (op == UnaryOp::Neg || op == UnaryOp::Abs || op == UnaryOp::Sign),
        op == UnaryOp::Neg ==> (elem_spec(op, a) matches Some(r) && (r.value() == -a.value() || r.value()
            == -a.value() + (T::max_value() - T::min_value() + 1) || r.value() == -a.value() - (
        T::max_value() - T::min_value() + 1))),
        op == UnaryOp::Abs ==> (elem_spec(op, a) matches Some(r) && (a.value() >= 0 ==> r == a) && ((
        a.value() < 0 && -a.value() <= T::max_value()) ==> r.value() == -a.value())),
        op == UnaryOp::Sign ==> (elem_spec(op, a) matches Some(r) && r.value() == (if a.value() > 0 {
            1int
        } else if a.value() < 0 {
            -1int
        } else {
            0int
        })),
{
    T::lemma_neg_wraps(a);
    T::lemma_abs_is_magnitude(a);
    T::lemma_sign_three_values(a);
}

/// One element of an integer unary operation.
pub fn elem<T: WrappingIntUnary>(op: UnaryOp, a: T) -> (r: Option<T>)
    ensures
        r == elem_spec(op, a),
{
    match op {
        UnaryOp::Neg => Some(a.w_neg()),
        UnaryOp::Abs => Some(a.w_abs()),
        UnaryOp::Sign => Some(a.w_sign()),
        _ => None,
    }
}

/// Run `neg`, `abs` or `sign` over the first `len` elements of `a` into `out`.
///
/// Returns `false`, leaving `out` untouched, for every other operation, so the
/// caller keeps its generic path.
pub fn unary_int_kernel<T: WrappingIntUnary>(op: UnaryOp, a: &[T], out: &mut Vec<T>, len: usize) -> (r: bool)
    requires
        len <= a@.len(),
        len <= old(out)@.len(),
    ensures
        r == is_int_unary_op(op),
        final(out)@.len() == old(out)@.len(),
        !r ==> final(out)@ == old(out)@,
        r ==> forall|i: int| 0 <= i < len ==> Some(#[trigger] final(out)@[i]) == elem_spec(op, a@[i]),
        forall|i: int| len <= i < old(out)@.len() ==> #[trigger] final(out)@[i] == old(out)@[i],
{
    if !(op == UnaryOp::Neg || op == UnaryOp::Abs || op == UnaryOp::Sign) {
        return false;
    }
    let ghost orig = out@;
    let mut i: usize = 0;
    while i < len
        invariant
            is_int_unary_op(op),
            i <= len,
            len <= a@.len(),
            len <= orig.len(),
            out@.len() == orig.len(),
            forall|t: int| 0 <= t < i ==> Some(#[trigger] out@[t]) == elem_spec(op, a@[t]),
            forall|t: int| i <= t < orig.len() ==> #[trigger] out@[t] == orig[t],
        decreases len - i,
    {
        if let Some(v) = elem(op, a[i]) {
            out.set(i, v);
        }
        i = i + 1;
    }
    true
}

} // verus!
