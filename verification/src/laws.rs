//! Laws that hold of the arithmetic at every width.

use crate::uintz::{
    diff_borrow, diff_low, product_high, product_low, sum_carry, sum_low, Uintz,
};
use crate::uz::Uz;
use vstd::arithmetic::div_mod::{lemma_fundamental_div_mod_converse, lemma_small_mod};
use vstd::arithmetic::mul::lemma_mul_basics;
use vstd::arithmetic::power2::{lemma_pow2_pos, pow2};
use vstd::prelude::*;

verus! {

/// Adding zero, with no carry coming in, gives the value back and carries
/// nothing out: where `zero` is zero and `r` is what `x.addc(zero, false)`
/// returns, `r` is `(x, false)`.
pub proof fn lemma_addc_zero<T: Uintz>(x: T, zero: T, r: (T, bool))
    requires
        zero.value() == 0,
        r.0.value() == sum_low(x.value(), zero.value(), false, T::width()),
        r.1 == sum_carry(x.value(), zero.value(), false, T::width()),
    ensures
        r == (x, false),
{
    x.lemma_value_bound();
    lemma_small_mod(x.value(), pow2(T::width()));
    r.0.lemma_value_injective(x);
}

/// Adding one to the largest value wraps around to zero and carries out:
/// where `max` is the largest value, `one` is one, `zero` is zero and `r` is
/// what `max.addc(one, false)` returns, `r` is `(zero, true)`.
pub proof fn lemma_addc_wraps<T: Uintz>(max: T, one: T, zero: T, r: (T, bool))
    requires
        max.value() == pow2(T::width()) - 1,
        one.value() == 1,
        zero.value() == 0,
        r.0.value() == sum_low(max.value(), one.value(), false, T::width()),
        r.1 == sum_carry(max.value(), one.value(), false, T::width()),
    ensures
        r == (zero, true),
{
    let m = pow2(T::width()) as int;
    lemma_pow2_pos(T::width());
    lemma_fundamental_div_mod_converse(m, m, 1, 0);
    r.0.lemma_value_injective(zero);
}

/// Subtracting one from zero wraps around to the largest value and borrows:
/// where `zero` is zero, `one` is one, `max` is the largest value and `r` is
/// what `zero.subb(one, false)` returns, `r` is `(max, true)`.
pub proof fn lemma_subb_wraps<T: Uintz>(zero: T, one: T, max: T, r: (T, bool))
    requires
        zero.value() == 0,
        one.value() == 1,
        max.value() == pow2(T::width()) - 1,
        r.0.value() == diff_low(zero.value(), one.value(), false, T::width()),
        r.1 == diff_borrow(zero.value(), one.value(), false),
    ensures
        r == (max, true),
{
    let m = pow2(T::width()) as int;
    lemma_pow2_pos(T::width());
    lemma_fundamental_div_mod_converse(-1, m, -1, m - 1);
    r.0.lemma_value_injective(max);
}

/// Adding a 32-bit operand is adding the value that stands for it: where
/// `wide` stands for the number `other`, what `x.addc32(other, carry)` returns
/// (`narrow`) is what `x.addc(wide, carry)` returns (`general`).
pub proof fn lemma_addc32_is_addc<T: Uintz>(
    x: T,
    other: u32,
    wide: T,
    carry: bool,
    narrow: (T, bool),
    general: (T, bool),
)
    requires
        wide.value() == other,
        narrow.0.value() == sum_low(x.value(), other as nat, carry, T::width()),
        narrow.1 == sum_carry(x.value(), other as nat, carry, T::width()),
        general.0.value() == sum_low(x.value(), wide.value(), carry, T::width()),
        general.1 == sum_carry(x.value(), wide.value(), carry, T::width()),
    ensures
        narrow == general,
{
    narrow.0.lemma_value_injective(general.0);
}

/// Subtracting a 32-bit operand is subtracting the value that stands for it:
/// where `wide` stands for the number `other`, what `x.subb32(other, borrow)`
/// returns (`narrow`) is what `x.subb(wide, borrow)` returns (`general`).
pub proof fn lemma_subb32_is_subb<T: Uintz>(
    x: T,
    other: u32,
    wide: T,
    borrow: bool,
    narrow: (T, bool),
    general: (T, bool),
)
    requires
        wide.value() == other,
        narrow.0.value() == diff_low(x.value(), other as nat, borrow, T::width()),
        narrow.1 == diff_borrow(x.value(), other as nat, borrow),
        general.0.value() == diff_low(x.value(), wide.value(), borrow, T::width()),
        general.1 == diff_borrow(x.value(), wide.value(), borrow),
    ensures
        narrow == general,
{
    narrow.0.lemma_value_injective(general.0);
}

/// Multiplying by a 32-bit operand is multiplying by the value that stands
/// for it: where `wide` stands for the number `other`, what
/// `x.mulc32(other, carry)` returns (`narrow`) is what `x.mulc(wide, carry)`
/// returns (`general`).
pub proof fn lemma_mulc32_is_mulc<T: Uintz>(
    x: T,
    other: u32,
    wide: T,
    carry: T,
    narrow: (T, T),
    general: (T, T),
)
    requires
        wide.value() == other,
        narrow.0.value() == product_low(x.value(), other as nat, carry.value(), T::width()),
        narrow.1.value() == product_high(x.value(), other as nat, carry.value(), T::width()),
        general.0.value() == product_low(x.value(), wide.value(), carry.value(), T::width()),
        general.1.value() == product_high(x.value(), wide.value(), carry.value(), T::width()),
    ensures
        narrow == general,
{
    narrow.0.lemma_value_injective(general.0);
    narrow.1.lemma_value_injective(general.1);
}

/// Widening keeps the number: a value with a zero high half stands for the
/// number of its low half, which is how `augment` builds its result.
pub proof fn lemma_augment_value<T: Uintz>(x: T, r: Uz<T>)
    requires
        r.hi.value() == 0,
        r.lo == x,
    ensures
        r.value() == x.value(),
{
    lemma_mul_basics(pow2(T::width()) as int);
}

} // verus!
