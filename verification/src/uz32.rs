//! The 32-bit word.

use crate::order::order_of;
use crate::uintz::{DivisionByZero, Uintz};
use crate::uz::Uz;
use core::cmp::Ordering;
use vstd::arithmetic::div_mod::{lemma_fundamental_div_mod, lemma_multiply_divide_lt};
use vstd::arithmetic::mul::lemma_mul_is_commutative;
use vstd::arithmetic::power2::{lemma2_to64, pow2};
use vstd::prelude::*;
use vstd::std_specs::cmp::{PartialEqSpecImpl, PartialOrdSpecImpl};

verus! {

/// A 32-bit unsigned integer, the narrowest width.
#[derive(Debug, Clone, Copy, Ord)]
pub struct Uz32 {
    v: u32,
}

/// The word that stands for `v`.
pub fn from_u32(v: u32) -> (r: Uz32)
    ensures
        r.value() == v,
{
    Uz32 { v }
}

impl PartialEq for Uz32 {
    fn eq(&self, other: &Self) -> (r: bool) {
        self.v == other.v
    }
}

impl Eq for Uz32 {

}

impl PartialEqSpecImpl for Uz32 {
    open spec fn obeys_eq_spec() -> bool {
        true
    }

    open spec fn eq_spec(&self, other: &Self) -> bool {
        self.value() == other.value()
    }
}

impl PartialOrd for Uz32 {
    fn partial_cmp(&self, other: &Self) -> (r: Option<Ordering>) {
        if self.v < other.v {
            Some(Ordering::Less)
        } else if self.v == other.v {
            Some(Ordering::Equal)
        } else {
            Some(Ordering::Greater)
        }
    }
}

impl PartialOrdSpecImpl for Uz32 {
    open spec fn obeys_partial_cmp_spec() -> bool {
        true
    }

    open spec fn partial_cmp_spec(&self, other: &Self) -> Option<Ordering> {
        Some(order_of(self.value(), other.value()))
    }
}

impl Uz32 {
    /// The smallest value, which is zero.
    pub fn min_value(self) -> (r: Self)
        ensures
            r.value() == 0,
    {
        Self { v: 0 }
    }
}

impl Uintz for Uz32 {
    open spec fn width() -> nat {
        32
    }

    closed spec fn value(self) -> nat {
        self.v as nat
    }

    proof fn lemma_width() {
    }

    proof fn lemma_value_bound(self) {
        lemma2_to64();
    }

    proof fn lemma_value_injective(self, other: Self) {
    }

    proof fn lemma_comparison(self, other: Self) {
    }

    fn addc(self, other: Self, carry: bool) -> (r: (Self, bool)) {
        self.addc32(other.v, carry)
    }

    fn addc32(self, other: u32, carry: bool) -> (r: (Self, bool)) {
        proof {
            lemma2_to64();
        }
        let c: u64 = if carry {
            1
        } else {
            0
        };
        let nv: u64 = self.v as u64 + other as u64 + c;
        (Self { v: (nv % 0x1_0000_0000u64) as u32 }, nv / 0x1_0000_0000u64 != 0)
    }

    fn augment(self) -> (r: Uz<Self>) {
        Uz { hi: self.min_value(), lo: self }
    }

    fn divr32(self, divisor: u32) -> (r: Result<(Self, u32), DivisionByZero>) {
        if divisor == 0 {
            Err(DivisionByZero)
        } else {
            proof {
                lemma_fundamental_div_mod(self.v as int, divisor as int);
                lemma_mul_is_commutative(divisor as int, self.v as int / divisor as int);
            }
            Ok((Self { v: self.v / divisor }, self.v % divisor))
        }
    }

    fn divr32_step(self, rem: u32, divisor: u32) -> (r: (Self, u32)) {
        proof {
            lemma2_to64();
        }
        let n: u64 = rem as u64 * 0x1_0000_0000u64 + self.v as u64;
        let d: u64 = divisor as u64;
        proof {
            assert(n < d * 0x1_0000_0000) by (nonlinear_arith)
                requires
                    n == rem * 0x1_0000_0000 + self.v,
                    rem < d,
                    self.v < 0x1_0000_0000,
            ;
            lemma_multiply_divide_lt(n as int, d as int, 0x1_0000_0000);
            lemma_fundamental_div_mod(n as int, d as int);
            lemma_mul_is_commutative(d as int, n as int / d as int);
        }
        (Self { v: (n / d) as u32 }, (n % d) as u32)
    }

    fn max_value(self) -> (r: Self) {
        proof {
            lemma2_to64();
        }
        Self { v: u32::MAX }
    }

    fn mulc32(self, other: u32, carry: Self) -> (r: (Self, Self)) {
        proof {
            lemma2_to64();
            assert(self.v * other <= 0xffff_ffff * 0xffff_ffff) by (nonlinear_arith)
                requires
                    self.v <= 0xffff_ffff,
                    other <= 0xffff_ffff,
            ;
        }
        let nv: u64 = self.v as u64 * other as u64 + carry.v as u64;
        proof {
            lemma_fundamental_div_mod(nv as int, 0x1_0000_0000);
        }
        (Self { v: (nv % 0x1_0000_0000u64) as u32 }, Self { v: (nv / 0x1_0000_0000u64) as u32 })
    }

    fn mulc(self, other: Self, carry: Self) -> (r: (Self, Self)) {
        self.mulc32(other.v, carry)
    }

    fn subb(self, other: Self, borrow: bool) -> (r: (Self, bool)) {
        self.subb32(other.v, borrow)
    }

    fn subb32(self, other: u32, borrow: bool) -> (r: (Self, bool)) {
        proof {
            lemma2_to64();
        }
        let v: u64 = self.v as u64;
        let b: u64 = if borrow {
            1
        } else {
            0
        };
        let o: u64 = other as u64 + b;
        let nb: bool = o > v;
        let nv: u64 = if nb {
            v + 0x1_0000_0000u64
        } else {
            v
        } - o;
        (Self { v: nv as u32 }, nb)
    }

    fn zero(self) -> (r: Self) {
        Self { v: 0 }
    }
}

} // verus!
