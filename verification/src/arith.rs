//! Facts of integer arithmetic that the proofs of the doubled width rest on.
//!
//! Throughout, `m` is the modulus `2^w` of a half, so that `m * m` is the
//! modulus of the doubled width, and a number of the doubled width is written
//! by its two digits as `hi * m + lo`.

use crate::uintz::flag;
use vstd::arithmetic::div_mod::lemma_fundamental_div_mod_converse;
use vstd::prelude::*;

verus! {

/// A number that is `r` plus `k` times `m`, with `r` in `[0, m)`, has `r` as
/// its residue and `k` as its quotient.
pub proof fn lemma_residue(total: int, m: int, k: int, r: int)
    requires
        m > 0,
        0 <= r < m,
        total == k * m + r,
    ensures
        r == total % m,
        k == total / m,
        k >= 1 <==> total >= m,
        k <= -1 <==> total < 0,
{
    lemma_fundamental_div_mod_converse(total, m, k, r);
    assert(k >= 1 ==> k * m >= m) by (nonlinear_arith)
        requires
            m > 0,
    ;
    assert(k <= 0 ==> k * m <= 0) by (nonlinear_arith)
        requires
            m > 0,
    ;
    assert(k <= -1 ==> k * m <= -m) by (nonlinear_arith)
        requires
            m > 0,
    ;
    assert(k >= 0 ==> k * m >= 0) by (nonlinear_arith)
        requires
            m > 0,
    ;
}

/// A sum in `[0, 2m)` is its residue, plus `m` where it reached `m`.
pub proof fn lemma_carry(total: int, m: int)
    requires
        m > 0,
        0 <= total < 2 * m,
    ensures
        total == total % m + flag(total >= m) * m,
{
    if total >= m {
        lemma_residue(total, m, 1, total - m);
    } else {
        lemma_residue(total, m, 0, total);
    }
}

/// A difference in `[-m, m)` is its residue, less `m` where it fell below zero.
pub proof fn lemma_borrow(total: int, m: int)
    requires
        m > 0,
        -m <= total < m,
    ensures
        total == total % m - flag(total < 0) * m,
{
    if total < 0 {
        lemma_residue(total, m, -1, total + m);
    } else {
        lemma_residue(total, m, 0, total);
    }
}

/// Two digits below `m` make a number below `m * m`.
pub proof fn lemma_pair_bound(m: int, hi: int, lo: int)
    by (nonlinear_arith)
    requires
        m > 0,
        0 <= hi < m,
        0 <= lo < m,
    ensures
        0 <= hi * m + lo < m * m,
{
}

/// Two digits below `m` are equal to two others exactly where the numbers
/// that they make are equal.
pub proof fn lemma_pair_unique(m: nat, hi1: nat, lo1: nat, hi2: nat, lo2: nat)
    requires
        m > 0,
        lo1 < m,
        lo2 < m,
    ensures
        hi1 * m + lo1 == hi2 * m + lo2 <==> hi1 == hi2 && lo1 == lo2,
{
    if hi1 * m + lo1 == hi2 * m + lo2 {
        let n = (hi1 * m + lo1) as int;
        lemma_fundamental_div_mod_converse(n, m as int, hi1 as int, lo1 as int);
        lemma_fundamental_div_mod_converse(n, m as int, hi2 as int, lo2 as int);
    }
}

/// Numbers of two digits are ordered by their high digits first.
pub proof fn lemma_pair_order(m: nat, hi1: nat, lo1: nat, hi2: nat, lo2: nat)
    by (nonlinear_arith)
    requires
        m > 0,
        lo1 < m,
        lo2 < m,
    ensures
        hi1 * m + lo1 < hi2 * m + lo2 <==> hi1 < hi2 || (hi1 == hi2 && lo1 < lo2),
{
}

/// The largest number of two digits.
pub proof fn lemma_pair_max(m: int)
    by (nonlinear_arith)
    ensures
        (m - 1) * m + (m - 1) == m * m - 1,
{
}

/// Adding digit by digit, the carry of the low digits taken into the high
/// ones, adds the numbers.
pub proof fn lemma_addc_pairs(
    m: nat,
    a_hi: nat,
    a_lo: nat,
    b_hi: nat,
    b_lo: nat,
    carry: bool,
    lo: nat,
    loc: bool,
    hi: nat,
    hic: bool,
)
    requires
        m > 0,
        a_hi < m,
        a_lo < m,
        b_hi < m,
        b_lo < m,
        lo == (a_lo + b_lo + flag(carry)) % m,
        loc == (a_lo + b_lo + flag(carry) >= m),
        hi == (a_hi + b_hi + flag(loc)) % m,
        hic == (a_hi + b_hi + flag(loc) >= m),
    ensures
        hi * m + lo == ((a_hi * m + a_lo) + (b_hi * m + b_lo) + flag(carry)) % (m * m),
        hic == ((a_hi * m + a_lo) + (b_hi * m + b_lo) + flag(carry) >= m * m),
{
    let m = m as int;
    let total = (a_hi * m + a_lo) + (b_hi * m + b_lo) + flag(carry);
    lemma_carry((a_lo + b_lo + flag(carry)) as int, m);
    lemma_carry((a_hi + b_hi + flag(loc)) as int, m);
    assert(total == flag(hic) * (m * m) + (hi * m + lo)) by (nonlinear_arith)
        requires
            total == (a_hi * m + a_lo) + (b_hi * m + b_lo) + flag(carry),
            a_lo + b_lo + flag(carry) == lo + flag(loc) * m,
            a_hi + b_hi + flag(loc) == hi + flag(hic) * m,
    ;
    lemma_pair_bound(m, hi as int, lo as int);
    lemma_residue(total, m * m, flag(hic) as int, hi * m + lo);
}

/// Subtracting digit by digit, the borrow of the low digits taken from the
/// high ones, subtracts the numbers.
pub proof fn lemma_subb_pairs(
    m: nat,
    a_hi: nat,
    a_lo: nat,
    b_hi: nat,
    b_lo: nat,
    borrow: bool,
    lo: nat,
    lob: bool,
    hi: nat,
    hib: bool,
)
    requires
        m > 0,
        a_hi < m,
        a_lo < m,
        b_hi < m,
        b_lo < m,
        lo == (a_lo - b_lo - flag(borrow)) % (m as int),
        lob == (a_lo < b_lo + flag(borrow)),
        hi == (a_hi - b_hi - flag(lob)) % (m as int),
        hib == (a_hi < b_hi + flag(lob)),
    ensures
        hi * m + lo == ((a_hi * m + a_lo) - (b_hi * m + b_lo) - flag(borrow)) % ((m * m) as int),
        hib == ((a_hi * m + a_lo) < (b_hi * m + b_lo) + flag(borrow)),
{
    let m = m as int;
    let total = (a_hi * m + a_lo) - (b_hi * m + b_lo) - flag(borrow);
    lemma_borrow(a_lo - b_lo - flag(borrow), m);
    lemma_borrow(a_hi - b_hi - flag(lob), m);
    assert(total == (-flag(hib)) * (m * m) + (hi * m + lo)) by (nonlinear_arith)
        requires
            total == (a_hi * m + a_lo) - (b_hi * m + b_lo) - flag(borrow),
            a_lo - b_lo - flag(borrow) == lo - flag(lob) * m,
            a_hi - b_hi - flag(lob) == hi - flag(hib) * m,
    ;
    lemma_pair_bound(m, hi as int, lo as int);
    lemma_residue(total, m * m, -flag(hib), hi * m + lo);
}

/// Two steps of a long division, the remainder of the high digit taken into
/// the low one, divide the number.
pub proof fn lemma_div_pairs(
    m: int,
    d: int,
    rem: int,
    a_hi: int,
    a_lo: int,
    q_hi: int,
    r_hi: int,
    q_lo: int,
    r_lo: int,
)
    by (nonlinear_arith)
    requires
        rem * m + a_hi == q_hi * d + r_hi,
        r_hi * m + a_lo == q_lo * d + r_lo,
    ensures
        rem * (m * m) + (a_hi * m + a_lo) == (q_hi * m + q_lo) * d + r_lo,
{
}

/// The product of two numbers of two digits, by its four digit products.
pub proof fn lemma_pair_product(m: int, a_hi: int, a_lo: int, b_hi: int, b_lo: int)
    ensures
        (a_hi * m + a_lo) * (b_hi * m + b_lo) == (a_hi * b_hi) * (m * m) + (a_hi * b_lo + a_lo
            * b_hi) * m + a_lo * b_lo,
{
    let a = a_hi * m + a_lo;
    let x = a_hi * m;
    let y = b_hi * m;
    assert(a * (y + b_lo) == a * y + a * b_lo) by (nonlinear_arith);
    assert((x + a_lo) * y == x * y + a_lo * y) by (nonlinear_arith);
    assert((x + a_lo) * b_lo == x * b_lo + a_lo * b_lo) by (nonlinear_arith);
    assert((a_hi * m) * (b_hi * m) == (a_hi * b_hi) * (m * m)) by (nonlinear_arith);
    assert(a_lo * (b_hi * m) == (a_lo * b_hi) * m) by (nonlinear_arith);
    assert((a_hi * m) * b_lo == (a_hi * b_lo) * m) by (nonlinear_arith);
    assert((a_hi * b_lo) * m + (a_lo * b_hi) * m == (a_hi * b_lo + a_lo * b_hi) * m)
        by (nonlinear_arith);
}

/// A number `q * n + r` that a product with carry of numbers below `n` and
/// `d` makes has `q` below `d`.
pub proof fn lemma_product_quotient_bound(
    n: int,
    d: int,
    a: int,
    b: int,
    k: int,
    q: int,
    r: int,
)
    by (nonlinear_arith)
    requires
        0 <= a < n,
        0 <= b < d,
        0 <= k < n,
        0 <= r,
        a * b + k == q * n + r,
    ensures
        q < d,
{
    assert(a * b <= (n - 1) * (d - 1));
    assert(q * n < d * n);
}

/// The four digit products of a multiplication of two digits by two, each
/// taking in the carry or the low digit of an earlier one, and the three
/// additions that gather what they leave, make the four digits of the product.
///
/// The operands `a`, `b` and the carry `k` are given as `(low, high)` digits;
/// `ll`, `hl`, `lh` and `hh` are the digit products as `(low, carry)`, named
/// by the digits of `a` and `b` that they multiply; `ah` and `ac` are the
/// first two additions as `(sum, carry)`, and `aa` is the sum of the third.
pub proof fn lemma_mulc_pairs(
    m: nat,
    a: (nat, nat),
    b: (nat, nat),
    k: (nat, nat),
    ll: (nat, nat),
    hl: (nat, nat),
    lh: (nat, nat),
    hh: (nat, nat),
    ah: (nat, bool),
    ac: (nat, bool),
    aa: nat,
)
    requires
        m > 0,
        a.0 < m && a.1 < m && b.0 < m && b.1 < m && k.0 < m && k.1 < m,
        ll.0 < m && hl.0 < m && lh.0 < m && hh.0 < m,
        ll.1 < m && hl.1 < m && lh.1 < m && hh.1 < m,
        ll.1 * m + ll.0 == a.0 * b.0 + k.0,
        hl.1 * m + hl.0 == a.1 * b.0 + ll.1,
        lh.1 * m + lh.0 == a.0 * b.1 + hl.0,
        hh.1 * m + hh.0 == a.1 * b.1 + hl.1,
        ah.0 == (lh.0 + k.1 + flag(false)) % m,
        ah.1 == (lh.0 + k.1 + flag(false) >= m),
        ac.0 == (lh.1 + hh.0 + flag(ah.1)) % m,
        ac.1 == (lh.1 + hh.0 + flag(ah.1) >= m),
        aa == (hh.1 + 0 + flag(ac.1)) % m,
    ensures
        (aa * m + ac.0) * (m * m) + (ah.0 * m + ll.0) == (a.1 * m + a.0) * (b.1 * m + b.0) + (k.1
            * m + k.0),
        ah.0 * m + ll.0 == ((a.1 * m + a.0) * (b.1 * m + b.0) + (k.1 * m + k.0)) % (m * m),
        aa * m + ac.0 == ((a.1 * m + a.0) * (b.1 * m + b.0) + (k.1 * m + k.0)) / (m * m),
{
    let m = m as int;
    let total = (a.1 * m + a.0) * (b.1 * m + b.0) + (k.1 * m + k.0);
    let top = hh.1 + flag(ac.1);
    lemma_carry((lh.0 + k.1 + flag(false)) as int, m);
    lemma_carry((lh.1 + hh.0 + flag(ah.1)) as int, m);
    lemma_pair_product(m, a.1 as int, a.0 as int, b.1 as int, b.0 as int);
    let p_ll = a.0 * b.0;
    let p_hl = a.1 * b.0;
    let p_lh = a.0 * b.1;
    let p_hh = a.1 * b.1;
    let mm = m * m;
    let x = flag(ah.1) as int;
    let y = flag(ac.1) as int;
    // The middle digit products, whose shared digit `hl.0` cancels.
    let u = hl.1 + lh.1;
    assert(u * m == hl.1 * m + lh.1 * m) by (nonlinear_arith)
        requires
            u == hl.1 + lh.1,
    ;
    assert((p_hl + p_lh) * m == u * mm + lh.0 * m - ll.1 * m) by (nonlinear_arith)
        requires
            p_hl + p_lh == u * m + lh.0 - ll.1,
            mm == m * m,
    ;
    assert(u * mm == hl.1 * mm + lh.1 * mm) by (nonlinear_arith)
        requires
            u == hl.1 + lh.1,
    ;
    // The top digit product.
    assert(p_hh * mm == hh.1 * (m * mm) + hh.0 * mm - hl.1 * mm) by (nonlinear_arith)
        requires
            p_hh == hh.1 * m + hh.0 - hl.1,
    ;
    // The two additions that gather the middle digits.
    assert(lh.0 * m + k.1 * m == ah.0 * m + x * mm) by (nonlinear_arith)
        requires
            lh.0 + k.1 == ah.0 + x * m,
            mm == m * m,
    ;
    assert(hh.0 * mm + lh.1 * mm + x * mm == ac.0 * mm + y * (m * mm)) by (nonlinear_arith)
        requires
            lh.1 + hh.0 + x == ac.0 + y * m,
    ;
    assert((top * m + ac.0) * mm == hh.1 * (m * mm) + y * (m * mm) + ac.0 * mm)
        by (nonlinear_arith)
        requires
            top == hh.1 + y,
    ;
    let low = ah.0 * m + ll.0;
    let high = top * m + ac.0;
    assert(p_hh * mm + (p_hl + p_lh) * m + p_ll + (k.1 * m + k.0) == high * mm + low);
    lemma_pair_bound(m, a.1 as int, a.0 as int);
    lemma_pair_bound(m, b.1 as int, b.0 as int);
    lemma_pair_bound(m, k.1 as int, k.0 as int);
    lemma_pair_bound(m, ah.0 as int, ll.0 as int);
    lemma_product_quotient_bound(
        m * m,
        m * m,
        a.1 * m + a.0,
        b.1 * m + b.0,
        k.1 * m + k.0,
        top * m + ac.0,
        ah.0 * m + ll.0,
    );
    assert(top < m) by (nonlinear_arith)
        requires
            top * m + ac.0 < m * m,
            ac.0 >= 0,
            m > 0,
    ;
    lemma_residue(top as int, m, 0, top as int);
    lemma_residue(total, m * m, aa * m + ac.0, ah.0 * m + ll.0);
}

/// The two digit products of a multiplication of two digits by one, the
/// second taking in the carry of the first, and the additions of the carry's
/// high digit, make the three digits of the product.
///
/// The operand `a` and the carry `k` are given as `(low, high)` digits; `lo`
/// and `hi` are the digit products as `(low, carry)`; `ah` is the first
/// addition as `(sum, carry)`, and `top` is the sum of the second.
pub proof fn lemma_mulc32_pairs(
    m: nat,
    a: (nat, nat),
    b: nat,
    k: (nat, nat),
    lo: (nat, nat),
    hi: (nat, nat),
    ah: (nat, bool),
    top: nat,
)
    requires
        m > 0,
        a.0 < m && a.1 < m && b < m && k.0 < m && k.1 < m,
        lo.0 < m && lo.1 < m && hi.0 < m && hi.1 < m,
        lo.1 * m + lo.0 == a.0 * b + k.0,
        hi.1 * m + hi.0 == a.1 * b + lo.1,
        ah.0 == (hi.0 + k.1 + flag(false)) % m,
        ah.1 == (hi.0 + k.1 + flag(false) >= m),
        top == (hi.1 + 0 + flag(ah.1)) % m,
    ensures
        top * (m * m) + (ah.0 * m + lo.0) == (a.1 * m + a.0) * b + (k.1 * m + k.0),
        ah.0 * m + lo.0 == ((a.1 * m + a.0) * b + (k.1 * m + k.0)) % (m * m),
        top == ((a.1 * m + a.0) * b + (k.1 * m + k.0)) / (m * m),
{
    let m = m as int;
    let total = (a.1 * m + a.0) * b + (k.1 * m + k.0);
    let t = hi.1 + flag(ah.1);
    lemma_carry((hi.0 + k.1 + flag(false)) as int, m);
    assert((a.1 * m + a.0) * b == (a.1 * b) * m + a.0 * b) by (nonlinear_arith);
    let p_lo = a.0 * b;
    let p_hi = a.1 * b;
    let low = ah.0 * m + lo.0;
    assert(p_hi * m + p_lo + (k.1 * m + k.0) == t * (m * m) + low) by (nonlinear_arith)
        requires
            t == hi.1 + flag(ah.1),
            lo.1 * m + lo.0 == p_lo + k.0,
            hi.1 * m + hi.0 == p_hi + lo.1,
            hi.0 + k.1 == ah.0 + flag(ah.1) * m,
            low == ah.0 * m + lo.0,
    ;
    lemma_pair_bound(m, a.1 as int, a.0 as int);
    lemma_pair_bound(m, k.1 as int, k.0 as int);
    lemma_pair_bound(m, ah.0 as int, lo.0 as int);
    lemma_product_quotient_bound(
        m * m,
        m,
        a.1 * m + a.0,
        b as int,
        k.1 * m + k.0,
        t as int,
        ah.0 * m + lo.0,
    );
    lemma_residue(t as int, m, 0, t as int);
    lemma_residue(total, m * m, top as int, ah.0 * m + lo.0);
}

} // verus!
