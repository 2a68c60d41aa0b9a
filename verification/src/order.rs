//! How values compare: by the numbers that they stand for.

use crate::arith::lemma_pair_order;
use crate::uintz::Uintz;
use crate::uz::Uz;
use core::cmp::Ordering;
use vstd::arithmetic::power2::{lemma_pow2_pos, pow2};
use vstd::prelude::*;
use vstd::std_specs::cmp::{PartialEqSpec, PartialOrdSpec};

verus! {

/// The order of two numbers: whether `a` is less than, equal to or greater
/// than `b`.
pub open spec fn order_of(a: nat, b: nat) -> Ordering {
    if a < b {
        Ordering::Less
    } else if a == b {
        Ordering::Equal
    } else {
        Ordering::Greater
    }
}

/// `==` is the equality of values: it holds of a value and itself, holds of
/// `a` and `b` where it holds of `b` and `a`, and holds of no two values that
/// differ.
pub proof fn lemma_eq_is_equality<T: Uintz>(a: T, b: T)
    ensures
        a.eq_spec(&a),
        a.eq_spec(&b) <==> b.eq_spec(&a),
        a.eq_spec(&b) <==> a == b,
{
    a.lemma_comparison(a);
    a.lemma_comparison(b);
    b.lemma_comparison(a);
    if a.value() == b.value() {
        a.lemma_value_injective(b);
    }
}

/// The order is total and is the order of the numbers: any two values
/// compare, as less where the number of the first is less, as equal where
/// the values are equal, as greater where the number of the first is greater;
/// and `a` is less than `b` where `b` is greater than `a`.
pub proof fn lemma_order_is_total<T: Uintz>(a: T, b: T)
    ensures
        a.partial_cmp_spec(&b) is Some,
        a.partial_cmp_spec(&b) == Some(Ordering::Less) <==> a.value() < b.value(),
        a.partial_cmp_spec(&b) == Some(Ordering::Equal) <==> a == b,
        a.partial_cmp_spec(&b) == Some(Ordering::Greater) <==> a.value() > b.value(),
        a.partial_cmp_spec(&b) == Some(Ordering::Less) <==> b.partial_cmp_spec(&a) == Some(
            Ordering::Greater,
        ),
{
    a.lemma_comparison(b);
    b.lemma_comparison(a);
    if a.value() == b.value() {
        a.lemma_value_injective(b);
    }
}

/// The numbers of two values of a doubled width are ordered as their halves
/// are, the high halves first and the low halves where the high halves are
/// equal.
pub proof fn lemma_order_by_halves<T: Uintz>(a: Uz<T>, b: Uz<T>)
    ensures
        a.value() < b.value() <==> a.hi.value() < b.hi.value() || (a.hi == b.hi && a.lo.value()
            < b.lo.value()),
{
    lemma_pow2_pos(T::width());
    a.lo.lemma_value_bound();
    b.lo.lemma_value_bound();
    lemma_pair_order(
        pow2(T::width()),
        a.hi.value(),
        a.lo.value(),
        b.hi.value(),
        b.lo.value(),
    );
    if a.hi.value() == b.hi.value() {
        a.hi.lemma_value_injective(b.hi);
    }
}

} // verus!
