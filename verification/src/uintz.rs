//! The operations that every width offers, and what they compute.

use crate::order::order_of;
use crate::uz::Uz;
use vstd::arithmetic::power2::pow2;
use vstd::prelude::*;
use vstd::std_specs::cmp::{PartialEqSpec, PartialOrdSpec};

verus! {

/// The number that a carry or borrow flag adds or removes: 1 if set, else 0.
pub open spec fn flag(b: bool) -> nat {
    if b {
        1
    } else {
        0
    }
}

/// The sum `a + b + carry` as it fits a width: reduced modulo `2^width`.
pub open spec fn sum_low(a: nat, b: nat, carry: bool, width: nat) -> nat {
    (a + b + flag(carry)) % pow2(width)
}

/// Whether the sum `a + b + carry` reaches `2^width`.
pub open spec fn sum_carry(a: nat, b: nat, carry: bool, width: nat) -> bool {
    a + b + flag(carry) >= pow2(width)
}

/// The difference `a - b - borrow` as it fits a width: reduced modulo
/// `2^width`, so that a negative difference counts down from `2^width`.
pub open spec fn diff_low(a: nat, b: nat, borrow: bool, width: nat) -> int {
    (a - b - flag(borrow)) % (pow2(width) as int)
}

/// Whether the difference `a - b - borrow` falls below zero.
pub open spec fn diff_borrow(a: nat, b: nat, borrow: bool) -> bool {
    a < b + flag(borrow)
}

/// The low half of the product `a * b + carry`: reduced modulo `2^width`.
pub open spec fn product_low(a: nat, b: nat, carry: nat, width: nat) -> nat {
    (a * b + carry) % pow2(width)
}

/// The high half of the product `a * b + carry`: divided by `2^width`.
pub open spec fn product_high(a: nat, b: nat, carry: nat, width: nat) -> nat {
    (a * b + carry) / pow2(width)
}

/// The error of a division whose divisor is zero.
#[derive(Debug, Clone, Copy, PartialEq, Eq, Structural)]
pub struct DivisionByZero;

/// An unsigned integer of a fixed width of `width()` bits.
///
/// A value stands for the number `value()`, which lies in `[0, 2^width())`,
/// and two values that stand for the same number are equal.
pub trait Uintz: Sized + Copy + PartialEq + PartialOrd {
    /// The width in bits.
    spec fn width() -> nat;

    /// The number that `self` stands for.
    spec fn value(self) -> nat;

    /// A width holds at least one 32-bit word.
    proof fn lemma_width()
        ensures
            Self::width() >= 32,
    ;

    /// Every value is below `2^width()`.
    proof fn lemma_value_bound(self)
        ensures
            self.value() < pow2(Self::width()),
    ;

    /// A number has one representation only.
    proof fn lemma_value_injective(self, other: Self)
        requires
            self.value() == other.value(),
        ensures
            self == other,
    ;

    /// `==` holds of two values where they stand for the same number, and `<`,
    /// `<=`, `>` and `>=` order values as their numbers are ordered.
    proof fn lemma_comparison(self, other: Self)
        ensures
            Self::obeys_eq_spec(),
            self.eq_spec(&other) <==> self.value() == other.value(),
            Self::obeys_partial_cmp_spec(),
            self.partial_cmp_spec(&other) == Some(order_of(self.value(), other.value())),
    ;

    /// The sum `self + other + carry` reduced modulo `2^width()`, and whether
    /// the sum reached `2^width()`.
    fn addc(self, other: Self, carry: bool) -> (r: (Self, bool))
        ensures
            r.0.value() == sum_low(self.value(), other.value(), carry, Self::width()),
            r.1 == sum_carry(self.value(), other.value(), carry, Self::width()),
    ;

    /// `addc` with a 32-bit second operand.
    fn addc32(self, other: u32, carry: bool) -> (r: (Self, bool))
        ensures
            r.0.value() == sum_low(self.value(), other as nat, carry, Self::width()),
            r.1 == sum_carry(self.value(), other as nat, carry, Self::width()),
    ;

    /// The same number at twice the width: a zero high half above `self`.
    fn augment(self) -> (r: Uz<Self>)
        ensures
            r.hi.value() == 0,
            r.lo == self,
    ;

    /// The quotient and the remainder of `self` by `divisor`, or the error
    /// where `divisor` is zero.
    fn divr32(self, divisor: u32) -> (r: Result<(Self, u32), DivisionByZero>)
        ensures
            r is Err <==> divisor == 0,
            r matches Ok((q, rem)) ==> rem < divisor && self.value() == q.value() * divisor
                + rem,
    ;

    /// One step of a long division: the quotient and the remainder of
    /// `rem * 2^width() + self` by `divisor`, where `rem` is the remainder that
    /// the step above left. That `rem` is below `divisor` makes the quotient fit.
    fn divr32_step(self, rem: u32, divisor: u32) -> (r: (Self, u32))
        requires
            rem < divisor,
        ensures
            r.1 < divisor,
            rem * pow2(Self::width()) + self.value() == r.0.value() * divisor + r.1,
    ;

    /// The largest value, `2^width() - 1`.
    fn max_value(self) -> (r: Self)
        ensures
            r.value() == pow2(Self::width()) - 1,
    ;

    /// The product `self * other + carry`, which takes up to twice the width:
    /// its low half, then its high half. The two halves together are the
    /// product exactly.
    fn mulc(self, other: Self, carry: Self) -> (r: (Self, Self))
        ensures
            r.0.value() == product_low(self.value(), other.value(), carry.value(), Self::width()),
            r.1.value() == product_high(self.value(), other.value(), carry.value(), Self::width()),
            r.1.value() * pow2(Self::width()) + r.0.value() == self.value() * other.value()
                + carry.value(),
    ;

    /// `mulc` with a 32-bit second operand.
    fn mulc32(self, other: u32, carry: Self) -> (r: (Self, Self))
        ensures
            r.0.value() == product_low(self.value(), other as nat, carry.value(), Self::width()),
            r.1.value() == product_high(self.value(), other as nat, carry.value(), Self::width()),
            r.1.value() * pow2(Self::width()) + r.0.value() == self.value() * other as nat
                + carry.value(),
    ;

    /// The difference `self - other - borrow` reduced modulo `2^width()`, and
    /// whether the difference fell below zero.
    fn subb(self, other: Self, borrow: bool) -> (r: (Self, bool))
        ensures
            r.0.value() == diff_low(self.value(), other.value(), borrow, Self::width()),
            r.1 == diff_borrow(self.value(), other.value(), borrow),
    ;

    /// `subb` with a 32-bit second operand.
    fn subb32(self, other: u32, borrow: bool) -> (r: (Self, bool))
        ensures
            r.0.value() == diff_low(self.value(), other as nat, borrow, Self::width()),
            r.1 == diff_borrow(self.value(), other as nat, borrow),
    ;

    /// The value zero.
    fn zero(self) -> (r: Self)
        ensures
            r.value() == 0,
    ;
}

} // verus!
