//! A value of twice the width of its halves.
//!
//! Each operation is made of the same operations on the halves, so the
//! doubling can be repeated to any width.

use crate::arith::{
    lemma_addc_pairs, lemma_div_pairs, lemma_mulc32_pairs, lemma_mulc_pairs, lemma_pair_bound,
    lemma_pair_max, lemma_pair_order, lemma_pair_unique, lemma_subb_pairs,
};
use crate::uintz::{DivisionByZero, Uintz};
use core::cmp::Ordering;
use vstd::arithmetic::mul::lemma_mul_basics;
use vstd::arithmetic::power2::{
    lemma2_to64, lemma_pow2_adds, lemma_pow2_strictly_increases, pow2,
};
use vstd::prelude::*;
use vstd::std_specs::cmp::{
    PartialEqSpec, PartialEqSpecImpl, PartialOrdSpec, PartialOrdSpecImpl,
};

verus! {

/// Two values of one width, standing for `hi * 2^w + lo`, where `w` is the
/// width of a half.
#[derive(Debug, Ord)]
pub struct Uz<T: Uintz> {
    pub hi: T,
    pub lo: T,
}

impl<T: Uintz> Clone for Uz<T> {
    fn clone(&self) -> (r: Self)
        ensures
            r == *self,
    {
        *self
    }
}

impl<T: Uintz> Copy for Uz<T> {

}

impl<T: Uintz> PartialEq for Uz<T> {
    fn eq(&self, other: &Self) -> (r: bool) {
        self.hi == other.hi && self.lo == other.lo
    }
}

impl<T: Uintz + Eq> Eq for Uz<T> {

}

impl<T: Uintz> PartialEqSpecImpl for Uz<T> {
    open spec fn obeys_eq_spec() -> bool {
        T::obeys_eq_spec()
    }

    open spec fn eq_spec(&self, other: &Self) -> bool {
        self.hi.eq_spec(&other.hi) && self.lo.eq_spec(&other.lo)
    }
}

impl<T: Uintz> PartialOrd for Uz<T> {
    fn partial_cmp(&self, other: &Self) -> (r: Option<Ordering>) {
        match self.hi.partial_cmp(&other.hi) {
            Some(Ordering::Equal) => self.lo.partial_cmp(&other.lo),
            o => o,
        }
    }
}

impl<T: Uintz> PartialOrdSpecImpl for Uz<T> {
    open spec fn obeys_partial_cmp_spec() -> bool {
        T::obeys_partial_cmp_spec()
    }

    open spec fn partial_cmp_spec(&self, other: &Self) -> Option<Ordering> {
        match self.hi.partial_cmp_spec(&other.hi) {
            Some(Ordering::Equal) => self.lo.partial_cmp_spec(&other.lo),
            o => o,
        }
    }
}

/// The modulus of a half is positive, holds a 32-bit word, and squares to the
/// modulus of the whole; both halves of any value are below it.
proof fn lemma_halves<T: Uintz>(x: Uz<T>)
    ensures
        pow2(T::width()) >= 0x1_0000_0000,
        pow2(Uz::<T>::width()) == pow2(T::width()) * pow2(T::width()),
        x.hi.value() < pow2(T::width()),
        x.lo.value() < pow2(T::width()),
        x.value() == x.hi.value() * pow2(T::width()) + x.lo.value(),
{
    T::lemma_width();
    lemma2_to64();
    if T::width() > 32 {
        lemma_pow2_strictly_increases(32, T::width());
    }
    lemma_pow2_adds(T::width(), T::width());
    x.hi.lemma_value_bound();
    x.lo.lemma_value_bound();
}

impl<T: Uintz> Uintz for Uz<T> {
    open spec fn width() -> nat {
        2 * T::width()
    }

    open spec fn value(self) -> nat {
        self.hi.value() * pow2(T::width()) + self.lo.value()
    }

    proof fn lemma_width() {
        T::lemma_width();
    }

    proof fn lemma_value_bound(self) {
        lemma_halves(self);
        lemma_pair_bound(
            pow2(T::width()) as int,
            self.hi.value() as int,
            self.lo.value() as int,
        );
    }

    proof fn lemma_value_injective(self, other: Self) {
        lemma_halves(self);
        lemma_halves(other);
        lemma_pair_unique(
            pow2(T::width()),
            self.hi.value(),
            self.lo.value(),
            other.hi.value(),
            other.lo.value(),
        );
        self.hi.lemma_value_injective(other.hi);
        self.lo.lemma_value_injective(other.lo);
    }

    proof fn lemma_comparison(self, other: Self) {
        lemma_halves(self);
        lemma_halves(other);
        self.hi.lemma_comparison(other.hi);
        self.lo.lemma_comparison(other.lo);
        lemma_pair_unique(
            pow2(T::width()),
            self.hi.value(),
            self.lo.value(),
            other.hi.value(),
            other.lo.value(),
        );
        lemma_pair_order(
            pow2(T::width()),
            self.hi.value(),
            self.lo.value(),
            other.hi.value(),
            other.lo.value(),
        );
        lemma_pair_order(
            pow2(T::width()),
            other.hi.value(),
            other.lo.value(),
            self.hi.value(),
            self.lo.value(),
        );
    }

    fn addc(self, other: Self, carry: bool) -> (r: (Self, bool)) {
        let (lo, loc) = self.lo.addc(other.lo, carry);
        let (hi, hic) = self.hi.addc(other.hi, loc);
        proof {
            lemma_halves(self);
            lemma_halves(other);
            lemma_addc_pairs(
                pow2(T::width()),
                self.hi.value(),
                self.lo.value(),
                other.hi.value(),
                other.lo.value(),
                carry,
                lo.value(),
                loc,
                hi.value(),
                hic,
            );
        }
        (Self { hi, lo }, hic)
    }

    fn addc32(self, other: u32, carry: bool) -> (r: (Self, bool)) {
        let (lo, loc) = self.lo.addc32(other, carry);
        let (hi, hic) = self.hi.addc32(0, loc);
        proof {
            lemma_halves(self);
            lemma_addc_pairs(
                pow2(T::width()),
                self.hi.value(),
                self.lo.value(),
                0,
                other as nat,
                carry,
                lo.value(),
                loc,
                hi.value(),
                hic,
            );
        }
        (Self { hi, lo }, hic)
    }

    fn augment(self) -> (r: Uz<Self>) {
        Uz { hi: self.zero(), lo: self }
    }

    fn divr32(self, divisor: u32) -> (r: Result<(Self, u32), DivisionByZero>) {
        if divisor == 0 {
            Err(DivisionByZero)
        } else {
            Ok(self.divr32_step(0, divisor))
        }
    }

    fn divr32_step(self, rem: u32, divisor: u32) -> (r: (Self, u32)) {
        // Long division: the remainder of the high half goes into the step
        // of the low half.
        let (hi, hir): (T, u32) = self.hi.divr32_step(rem, divisor);
        let (lo, lor): (T, u32) = self.lo.divr32_step(hir, divisor);
        proof {
            lemma_halves(self);
            lemma_div_pairs(
                pow2(T::width()) as int,
                divisor as int,
                rem as int,
                self.hi.value() as int,
                self.lo.value() as int,
                hi.value() as int,
                hir as int,
                lo.value() as int,
                lor as int,
            );
        }
        (Self { hi, lo }, lor)
    }

    fn max_value(self) -> (r: Self) {
        proof {
            lemma_halves(self);
            lemma_pair_max(pow2(T::width()) as int);
        }
        Self { hi: self.hi.max_value(), lo: self.hi.max_value() }
    }

    fn mulc(self, other: Self, carry: Self) -> (r: (Self, Self)) {
        // The four products of the halves, from the least significant up. Each
        // takes in what an earlier one left: its carry, or for the second
        // middle product the low half of the first.
        let (ll, llc) = self.lo.mulc(other.lo, carry.lo);
        let (hl, hlc) = self.hi.mulc(other.lo, llc);
        let (lh, lhc) = self.lo.mulc(other.hi, hl);
        let (hh, hhc) = self.hi.mulc(other.hi, hlc);
        // The high half of the carry joins the second digit, and the carries
        // left over ripple up through the third and fourth.
        let (ah, ahc) = lh.addc(carry.hi, false);
        let (ac, acc) = lhc.addc(hh, ahc);
        let (aa, _) = hhc.addc32(0, acc);
        proof {
            lemma_halves(self);
            lemma_halves(other);
            lemma_halves(carry);
            ll.lemma_value_bound();
            llc.lemma_value_bound();
            hl.lemma_value_bound();
            hlc.lemma_value_bound();
            lh.lemma_value_bound();
            lhc.lemma_value_bound();
            hh.lemma_value_bound();
            hhc.lemma_value_bound();
            lemma_mulc_pairs(
                pow2(T::width()),
                (self.lo.value(), self.hi.value()),
                (other.lo.value(), other.hi.value()),
                (carry.lo.value(), carry.hi.value()),
                (ll.value(), llc.value()),
                (hl.value(), hlc.value()),
                (lh.value(), lhc.value()),
                (hh.value(), hhc.value()),
                (ah.value(), ahc),
                (ac.value(), acc),
                aa.value(),
            );
        }
        (Self { hi: ah, lo: ll }, Self { hi: aa, lo: ac })
    }

    fn mulc32(self, other: u32, carry: Self) -> (r: (Self, Self)) {
        let (lo, loc) = self.lo.mulc32(other, carry.lo);
        let (hi, hic) = self.hi.mulc32(other, loc);
        // The high half of the carry joins the second digit; what that leaves
        // over goes into the third, which is all of the high result.
        let (ah, ahc) = hi.addc(carry.hi, false);
        let (top, _) = hic.addc32(0, ahc);
        let zero = top.zero();
        proof {
            lemma_halves(self);
            lemma_halves(carry);
            lo.lemma_value_bound();
            loc.lemma_value_bound();
            hi.lemma_value_bound();
            hic.lemma_value_bound();
            lemma_mulc32_pairs(
                pow2(T::width()),
                (self.lo.value(), self.hi.value()),
                other as nat,
                (carry.lo.value(), carry.hi.value()),
                (lo.value(), loc.value()),
                (hi.value(), hic.value()),
                (ah.value(), ahc),
                top.value(),
            );
            lemma_mul_basics(pow2(T::width()) as int);
        }
        (Self { hi: ah, lo }, Self { hi: zero, lo: top })
    }

    fn subb(self, other: Self, borrow: bool) -> (r: (Self, bool)) {
        let (lo, lob) = self.lo.subb(other.lo, borrow);
        let (hi, hib) = self.hi.subb(other.hi, lob);
        proof {
            lemma_halves(self);
            lemma_halves(other);
            lemma_subb_pairs(
                pow2(T::width()),
                self.hi.value(),
                self.lo.value(),
                other.hi.value(),
                other.lo.value(),
                borrow,
                lo.value(),
                lob,
                hi.value(),
                hib,
            );
        }
        (Self { hi, lo }, hib)
    }

    fn subb32(self, other: u32, borrow: bool) -> (r: (Self, bool)) {
        let (lo, lob) = self.lo.subb32(other, borrow);
        let (hi, hib) = self.hi.subb32(0, lob);
        proof {
            lemma_halves(self);
            lemma_subb_pairs(
                pow2(T::width()),
                self.hi.value(),
                self.lo.value(),
                0,
                other as nat,
                borrow,
                lo.value(),
                lob,
                hi.value(),
                hib,
            );
        }
        (Self { hi, lo }, hib)
    }

    fn zero(self) -> (r: Self) {
        proof {
            lemma_mul_basics(pow2(T::width()) as int);
        }
        Self { hi: self.hi.zero(), lo: self.hi.zero() }
    }
}

} // verus!
