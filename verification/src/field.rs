//! The scalar capability that vectors and matrices are generic over.

use vstd::prelude::*;

verus! {

/// A numeric scalar: closed under the four arithmetic operations, with an
/// additive and a multiplicative identity and a strict order.
///
/// Each executable operation returns exactly what its specification function
/// names. Nothing is asked of how the operations relate to each other: that
/// is the further capability [`FieldLaws`].
pub trait KField: Copy {
    /// The additive identity.
    spec fn zero_spec() -> Self;

    /// The multiplicative identity.
    spec fn one_spec() -> Self;

    /// The sum `self + rhs`.
    spec fn plus(self, rhs: Self) -> Self;

    /// The difference `self - rhs`.
    spec fn minus(self, rhs: Self) -> Self;

    /// The product `self * rhs`.
    spec fn times(self, rhs: Self) -> Self;

    /// The quotient `self / rhs`.
    spec fn over(self, rhs: Self) -> Self;

    /// Whether `self` is strictly below `rhs`.
    spec fn less(self, rhs: Self) -> bool;

    /// Computes the additive identity.
    fn zero() -> (r: Self)
        ensures
            r == Self::zero_spec(),
    ;

    /// Computes the multiplicative identity.
    fn one() -> (r: Self)
        ensures
            r == Self::one_spec(),
    ;

    /// Computes the sum.
    fn add(self, rhs: Self) -> (r: Self)
        ensures
            r == self.plus(rhs),
    ;

    /// Computes the difference.
    fn sub(self, rhs: Self) -> (r: Self)
        ensures
            r == self.minus(rhs),
    ;

    /// Computes the product.
    fn mul(self, rhs: Self) -> (r: Self)
        ensures
            r == self.times(rhs),
    ;

    /// Computes the quotient. It is defined for every divisor.
    fn div(self, rhs: Self) -> (r: Self)
        ensures
            r == self.over(rhs),
    ;

    /// Decides the order.
    fn lt(self, rhs: Self) -> (b: bool)
        ensures
            b == self.less(rhs),
    ;
}

/// The laws of arithmetic and of order that the kernel's own laws are derived
/// from. They hold of exact arithmetic; an instance has to prove them.
pub trait FieldLaws: KField {
    /// Addition is commutative.
    proof fn lemma_plus_commutes(a: Self, b: Self)
        ensures
            a.plus(b) == b.plus(a),
    ;

    /// Zero is neutral for addition.
    proof fn lemma_plus_zero(a: Self)
        ensures
            a.plus(Self::zero_spec()) == a,
    ;

    /// Subtraction undoes addition.
    proof fn lemma_plus_minus(a: Self, b: Self)
        ensures
            a.plus(b).minus(b) == a,
    ;

    /// Addition undoes subtraction.
    proof fn lemma_minus_plus(a: Self, b: Self)
        ensures
            a.minus(b).plus(b) == a,
    ;

    /// Multiplication is commutative.
    proof fn lemma_times_commutes(a: Self, b: Self)
        ensures
            a.times(b) == b.times(a),
    ;

    /// Zero annihilates.
    proof fn lemma_times_zero(a: Self)
        ensures
            a.times(Self::zero_spec()) == Self::zero_spec(),
    ;

    /// One is neutral for multiplication.
    proof fn lemma_times_one(a: Self)
        ensures
            a.times(Self::one_spec()) == a,
    ;

    /// Nothing is below itself.
    proof fn lemma_less_irreflexive(a: Self)
        ensures
            !a.less(a),
    ;

    /// What is below something below a third is below the third.
    proof fn lemma_less_transitive(a: Self, b: Self, c: Self)
        requires
            a.less(b),
            b.less(c),
        ensures
            a.less(c),
    ;
}

/// The further capability of real-valued powers, which the Euclidean norm
/// needs and which integers do not have.
pub trait MathOps: KField {
    /// `self` raised to the whole exponent `exp`.
    spec fn pow_spec(self, exp: u32) -> Self;

    /// `self` raised to the exponent `exp`, which may be fractional.
    spec fn powf_spec(self, exp: Self) -> Self;

    /// Computes the power to a whole exponent.
    fn pow(self, exp: u32) -> (r: Self)
        ensures
            r == self.pow_spec(exp),
    ;

    /// Computes the power to an exponent that may be fractional.
    fn powf(self, exp: Self) -> (r: Self)
        ensures
            r == self.powf_spec(exp),
    ;
}

/// The quotient of `a` by a non-zero `b`, rounded towards zero.
pub open spec fn truncated_quotient(a: int, b: int) -> int {
    if a >= 0 && b > 0 {
        a / b
    } else if a < 0 && b < 0 {
        (-a) / (-b)
    } else if a < 0 {
        -((-a) / b)
    } else {
        -(a / (-b))
    }
}

/// The 64-bit integers as the ring of integers modulo 2^64, in two's
/// complement: sums, differences and products wrap around. Division rounds
/// towards zero; a quotient by zero is zero, and the one quotient that does
/// not fit, that of `i64::MIN` by `-1`, wraps to `i64::MIN`.
impl KField for i64 {
    open spec fn zero_spec() -> i64 {
        0
    }

    open spec fn one_spec() -> i64 {
        1
    }

    open spec fn plus(self, rhs: i64) -> i64 {
        vstd::wrapping::i64_specs::wrapping_add(self, rhs)
    }

    open spec fn minus(self, rhs: i64) -> i64 {
        vstd::wrapping::i64_specs::wrapping_sub(self, rhs)
    }

    open spec fn times(self, rhs: i64) -> i64 {
        vstd::wrapping::i64_specs::wrapping_mul(self, rhs)
    }

    open spec fn over(self, rhs: i64) -> i64 {
        if rhs == 0 {
            0
        } else {
            let q = truncated_quotient(self as int, rhs as int);
            if i64::MIN <= q <= i64::MAX {
                q as i64
            } else {
                i64::MIN
            }
        }
    }

    open spec fn less(self, rhs: i64) -> bool {
        self < rhs
    }

    fn zero() -> (r: i64) {
        0
    }

    fn one() -> (r: i64) {
        1
    }

    fn add(self, rhs: i64) -> (r: i64) {
        self.wrapping_add(rhs)
    }

    fn sub(self, rhs: i64) -> (r: i64) {
        self.wrapping_sub(rhs)
    }

    fn mul(self, rhs: i64) -> (r: i64) {
        self.wrapping_mul(rhs)
    }

    fn div(self, rhs: i64) -> (r: i64) {
        match self.checked_div(rhs) {
            Some(q) => q,
            None => if rhs == 0 {
                0
            } else {
                i64::MIN
            },
        }
    }

    fn lt(self, rhs: i64) -> (b: bool) {
        self < rhs
    }
}

impl FieldLaws for i64 {
    proof fn lemma_plus_commutes(a: i64, b: i64) {
    }

    proof fn lemma_plus_zero(a: i64) {
    }

    proof fn lemma_plus_minus(a: i64, b: i64) {
    }

    proof fn lemma_minus_plus(a: i64, b: i64) {
    }

    proof fn lemma_times_commutes(a: i64, b: i64) {
        assert(a * b == b * a) by (nonlinear_arith);
    }

    proof fn lemma_times_zero(a: i64) {
        assert(a * 0 == 0) by (nonlinear_arith);
    }

    proof fn lemma_times_one(a: i64) {
        assert(a * 1 == a) by (nonlinear_arith);
        if a >= 0 {
            vstd::arithmetic::div_mod::lemma_small_mod(a as nat, 0x1_0000_0000_0000_0000);
        } else {
            vstd::arithmetic::div_mod::lemma_small_mod((a + 0x1_0000_0000_0000_0000) as nat, 0x1_0000_0000_0000_0000);
            vstd::arithmetic::div_mod::lemma_mod_add_multiples_vanish(a as int, 0x1_0000_0000_0000_0000);
        }
    }

    proof fn lemma_less_irreflexive(a: i64) {
    }

    proof fn lemma_less_transitive(a: i64, b: i64, c: i64) {
    }
}

} // verus!
