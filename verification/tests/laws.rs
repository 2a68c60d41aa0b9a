use uintz::{from_u32, Uintz, Uz, Uz32};

type U64 = Uz<Uz32>;
type U128 = Uz<U64>;

fn w64(x: u64) -> U64 {
    Uz {
        hi: from_u32((x >> 32) as u32),
        lo: from_u32(x as u32),
    }
}

fn w128(x: u128) -> U128 {
    Uz {
        hi: w64((x >> 64) as u64),
        lo: w64(x as u64),
    }
}

#[test]
fn adding_zero_changes_nothing() {
    for v in [0u32, 1, 43, 0x8000_0000, u32::MAX] {
        let x = from_u32(v);
        assert_eq!(x.addc(x.zero(), false), (x, false));
    }
    for v in [0u64, 1, 1 << 32, u64::MAX] {
        let x = w64(v);
        assert_eq!(x.addc(x.zero(), false), (x, false));
        assert_eq!(x.addc32(0, false), (x, false));
    }
    for v in [0u128, 1, 1 << 64, u128::MAX] {
        let x = w128(v);
        assert_eq!(x.addc(x.zero(), false), (x, false));
    }
}

#[test]
fn largest_plus_one_wraps_to_zero() {
    let x = from_u32(5);
    assert_eq!(x.max_value().addc(from_u32(1), false), (x.zero(), true));
    let y = w64(5);
    assert_eq!(y.max_value().addc(w64(1), false), (y.zero(), true));
    assert_eq!(y.max_value().addc32(1, false), (y.zero(), true));
    let z = w128(5);
    assert_eq!(z.max_value().addc(w128(1), false), (z.zero(), true));
    assert_eq!(z.max_value().addc(z.zero(), true), (z.zero(), true));
}

#[test]
fn zero_minus_one_wraps_to_largest() {
    let x = from_u32(5);
    assert_eq!(x.zero().subb(from_u32(1), false), (x.max_value(), true));
    let y = w64(5);
    assert_eq!(y.zero().subb(w64(1), false), (y.max_value(), true));
    assert_eq!(y.zero().subb32(1, false), (y.max_value(), true));
    let z = w128(5);
    assert_eq!(z.zero().subb(w128(1), false), (z.max_value(), true));
    assert_eq!(z.zero().subb(z.zero(), true), (z.max_value(), true));
}

#[test]
fn augment_keeps_the_number() {
    let x = from_u32(0xdead_beef);
    let wide = x.augment();
    assert_eq!(wide.hi, from_u32(0));
    assert_eq!(wide.lo, x);
    assert_eq!(wide, w64(0xdead_beef));
    assert_eq!(wide.augment(), w128(0xdead_beef));
    // the widened value computes as the number does at the wider width
    let (s, c) = wide.addc(wide, false);
    assert_eq!(s, w64(0xdead_beef * 2));
    assert_eq!(c, false);
}

#[test]
fn mulc_halves_recombine_to_the_product() {
    let cases: [(u32, u32, u32); 6] = [
        (0, 0, 0),
        (4, 10, 3),
        (u32::MAX, 1, 123),
        (u32::MAX, u32::MAX, u32::MAX),
        (0x1234_5678, 0x9abc_def0, 0x0fed_cba9),
        (0x8000_0000, 2, 0),
    ];
    for (a, b, k) in cases {
        let exact: u64 = a as u64 * b as u64 + k as u64;
        let (lo, hi) = from_u32(a).mulc(from_u32(b), from_u32(k));
        assert_eq!(lo, from_u32(exact as u32));
        assert_eq!(hi, from_u32((exact >> 32) as u32));
        assert_eq!(Uz { hi, lo }, w64(exact));
    }
}

#[test]
fn division_gives_back_the_dividend() {
    let dividends: [u128; 5] = [
        0,
        9,
        0xffff_ffff_ffff_ffff,
        0x0123_4567_89ab_cdef_0123_4567_89ab_cdef,
        u128::MAX,
    ];
    let divisors: [u32; 5] = [1, 2, 10, 0x1_0001, u32::MAX];
    for a in dividends {
        for d in divisors {
            let (q, r) = w128(a).divr32(d).unwrap();
            assert!(r < d);
            // q * d + r == a, computed by the library itself
            let (lo, hi) = q.mulc32(d, w128(r as u128));
            assert_eq!(lo, w128(a));
            assert_eq!(hi, w128(0));
        }
    }
}

#[test]
fn division_by_zero_is_an_error() {
    assert!(from_u32(1).divr32(0).is_err());
    assert!(w64(1).divr32(0).is_err());
    assert!(w128(1).divr32(0).is_err());
    assert!(w128(1).divr32(1).is_ok());
}

#[test]
fn equality_is_reflexive_and_symmetric() {
    let a = w128(0x0123_4567_89ab_cdef_0123_4567_89ab_cdef);
    let b = w128(0x0123_4567_89ab_cdef_0123_4567_89ab_cdef);
    let c = w128(7);
    assert!(a == a);
    assert!(a == b && b == a);
    assert!(a != c && c != a);
}

#[test]
fn order_is_total() {
    let xs = [w64(0), w64(1), w64(1 << 32), w64(u64::MAX)];
    for a in xs {
        for b in xs {
            let n = [a < b, a == b, a > b].iter().filter(|t| **t).count();
            assert_eq!(n, 1);
        }
    }
}
