use uintz::{from_u32, DivisionByZero, Uintz, Uz, Uz32};

type U64 = Uz<Uz32>;
type U128 = Uz<Uz<Uz32>>;

fn w64(x: u64) -> U64 {
    Uz {
        hi: from_u32((x >> 32) as u32),
        lo: from_u32(x as u32),
    }
}

fn w128(x: u128) -> U128 {
    Uz {
        hi: w64((x >> 64) as u64),
        lo: w64(x as u64),
    }
}

/// A fixed sequence of numbers that covers small, large and mixed bit patterns.
fn samples() -> Vec<u128> {
    let mut v: Vec<u128> = vec![
        0,
        1,
        2,
        10,
        0xffff_ffff,
        0x1_0000_0000,
        0xffff_ffff_ffff_ffff,
        0x1_0000_0000_0000_0000,
        0xffff_ffff_0000_0000_ffff_ffff_0000_0000,
        u128::MAX - 1,
        u128::MAX,
    ];
    let mut x: u128 = 0x2545_f491_4f6c_dd1d_9e37_79b9_7f4a_7c15;
    for _ in 0..20 {
        x = x
            .wrapping_mul(0x5851_f42d_4c95_7f2d_1405_7b7e_f767_814f)
            .wrapping_add(0x1405_7b7e_f767_814f);
        v.push(x);
    }
    v
}

#[test]
fn double_addc_matches_u64() {
    for a in samples() {
        for b in samples() {
            for carry in [false, true] {
                let (a, b) = (a as u64, b as u64);
                let (s1, c1) = a.overflowing_add(b);
                let (s2, c2) = s1.overflowing_add(carry as u64);
                assert_eq!(w64(a).addc(w64(b), carry), (w64(s2), c1 || c2));
            }
        }
    }
}

#[test]
fn quad_addc_matches_u128() {
    for a in samples() {
        for b in samples() {
            for carry in [false, true] {
                let (s1, c1) = a.overflowing_add(b);
                let (s2, c2) = s1.overflowing_add(carry as u128);
                assert_eq!(w128(a).addc(w128(b), carry), (w128(s2), c1 || c2));
            }
        }
    }
}

#[test]
fn quad_addc32_is_addc_of_the_widened_operand() {
    for a in samples() {
        for b in samples() {
            for carry in [false, true] {
                let b = b as u32;
                assert_eq!(
                    w128(a).addc32(b, carry),
                    w128(a).addc(w128(b as u128), carry)
                );
            }
        }
    }
}

#[test]
fn quad_subb_matches_u128() {
    for a in samples() {
        for b in samples() {
            for borrow in [false, true] {
                let (d1, b1) = a.overflowing_sub(b);
                let (d2, b2) = d1.overflowing_sub(borrow as u128);
                assert_eq!(w128(a).subb(w128(b), borrow), (w128(d2), b1 || b2));
            }
        }
    }
}

#[test]
fn quad_subb32_is_subb_of_the_widened_operand() {
    for a in samples() {
        for b in samples() {
            for borrow in [false, true] {
                let b = b as u32;
                assert_eq!(
                    w128(a).subb32(b, borrow),
                    w128(a).subb(w128(b as u128), borrow)
                );
            }
        }
    }
}

#[test]
fn double_mulc_matches_u128() {
    for a in samples() {
        for b in samples() {
            for k in samples() {
                let (a, b, k) = (a as u64, b as u64, k as u64);
                let p: u128 = a as u128 * b as u128 + k as u128;
                let (lo, hi) = w64(a).mulc(w64(b), w64(k));
                assert_eq!(lo, w64(p as u64));
                assert_eq!(hi, w64((p >> 64) as u64));
            }
        }
    }
}

#[test]
fn double_mulc_largest_product() {
    // (2^64 - 1)^2 + (2^64 - 1) = (2^64 - 1) * 2^64
    let m = w64(u64::MAX);
    assert_eq!(m.mulc(m, m), (w64(0), w64(u64::MAX)));
    assert_eq!(m.mulc(m, w64(0)), (w64(1), w64(u64::MAX - 1)));
}

/// The product `a * b + k` of three 128-bit numbers, as its low and high halves.
fn wide_product(a: u128, b: u128, k: u128) -> (u128, u128) {
    let mask: u128 = 0xffff_ffff_ffff_ffff;
    let (a1, a0) = (a >> 64, a & mask);
    let (b1, b0) = (b >> 64, b & mask);
    let p00 = a0 * b0;
    let p01 = a0 * b1;
    let p10 = a1 * b0;
    let p11 = a1 * b1;
    let mid = (p00 >> 64) + (p01 & mask) + (p10 & mask);
    let lo = (p00 & mask) | (mid << 64);
    let hi = p11 + (p01 >> 64) + (p10 >> 64) + (mid >> 64);
    let (lo, c) = lo.overflowing_add(k);
    (lo, hi + c as u128)
}

#[test]
fn quad_mulc_matches_a_schoolbook_product() {
    for a in samples() {
        for b in samples() {
            for k in [0, 1, 0xffff_ffff_ffff_ffff_ffff, u128::MAX] {
                let (lo, hi) = wide_product(a, b, k);
                assert_eq!(w128(a).mulc(w128(b), w128(k)), (w128(lo), w128(hi)));
            }
        }
    }
}

#[test]
fn quad_mulc32_is_mulc_of_the_widened_operand() {
    for a in samples() {
        for b in samples() {
            for k in samples() {
                let b = b as u32;
                assert_eq!(
                    w128(a).mulc32(b, w128(k)),
                    w128(a).mulc(w128(b as u128), w128(k))
                );
            }
        }
    }
}

#[test]
fn double_mulc32_adds_the_whole_carry() {
    // 3 * 5 + (7 * 2^32 + 2) = 7 * 2^32 + 17
    let (lo, hi) = w64(3).mulc32(5, w64((7 << 32) + 2));
    assert_eq!(lo, w64((7 << 32) + 17));
    assert_eq!(hi, w64(0));
    // (2^64 - 1) * (2^32 - 1) + (2^64 - 1) = (2^64 - 1) * 2^32
    let (lo, hi) = w64(u64::MAX).mulc32(u32::MAX, w64(u64::MAX));
    assert_eq!(lo, w64(0xffff_ffff_0000_0000));
    assert_eq!(hi, w64(0xffff_ffff));
}

#[test]
fn double_divr32_matches_u64() {
    for a in samples() {
        for d in samples() {
            let (a, d) = (a as u64, d as u32);
            if d != 0 {
                assert_eq!(
                    w64(a).divr32(d),
                    Ok((w64(a / d as u64), (a % d as u64) as u32))
                );
            }
        }
    }
}

#[test]
fn quad_divr32_matches_u128() {
    for a in samples() {
        for d in samples() {
            let d = d as u32;
            if d != 0 {
                assert_eq!(
                    w128(a).divr32(d),
                    Ok((w128(a / d as u128), (a % d as u128) as u32))
                );
            }
        }
    }
}

#[test]
fn quad_divr32_exact_values() {
    // 10^30 = 10^9 * 10^21
    let a: u128 = 1_000_000_000_000_000_000_000_000_000_000;
    assert_eq!(
        w128(a).divr32(1_000_000_000),
        Ok((w128(1_000_000_000_000_000_000_000), 0))
    );
    assert_eq!(w128(u128::MAX).divr32(10), Ok((w128(u128::MAX / 10), 5)));
    assert_eq!(w128(7).divr32(u32::MAX), Ok((w128(0), 7)));
}

#[test]
fn double_divr32_by_zero_fails() {
    assert_eq!(w64(12345).divr32(0), Err(DivisionByZero));
    assert_eq!(w128(0).divr32(0), Err(DivisionByZero));
}

#[test]
fn double_divr32_step_takes_the_remainder_in() {
    // (6 * 2^64 + 5) / 7
    let n: u128 = (6 << 64) + 5;
    let (q, r) = w64(5).divr32_step(6, 7);
    assert_eq!(q, w64((n / 7) as u64));
    assert_eq!(r, (n % 7) as u32);
}

#[test]
fn double_zero_and_max_value() {
    assert_eq!(w64(42).zero(), w64(0));
    assert_eq!(w64(42).max_value(), w64(u64::MAX));
    assert_eq!(w128(42).zero(), w128(0));
    assert_eq!(w128(42).max_value(), w128(u128::MAX));
}

#[test]
fn double_augment_puts_zero_above() {
    let x = w64(0xdead_beef_0bad_cafe);
    assert_eq!(x.augment(), w128(0xdead_beef_0bad_cafe));
    assert_eq!(x.augment().hi, x.zero());
    assert_eq!(x.augment().lo, x);
    let y = from_u32(9).augment().augment();
    assert_eq!(y, w128(9));
}

#[test]
fn double_equality_compares_both_halves() {
    assert_eq!(w64(5), w64(5));
    assert_ne!(w64(5), w64(5 + (1 << 32)));
    assert_ne!(w64(5 << 32), w64(6 << 32));
    assert_ne!(w128(1), w128(1 << 64));
    assert_eq!(w64(77).clone(), w64(77));
}

#[test]
fn double_order_follows_the_numbers() {
    for a in samples() {
        for b in samples() {
            assert_eq!(w128(a).partial_cmp(&w128(b)), Some(a.cmp(&b)));
            assert_eq!(w128(a).cmp(&w128(b)), a.cmp(&b));
            assert_eq!(w128(a) < w128(b), a < b);
            assert_eq!(w128(a) <= w128(b), a <= b);
            assert_eq!(w128(a) > w128(b), a > b);
            assert_eq!(w128(a) >= w128(b), a >= b);
            assert_eq!(w128(a) == w128(b), a == b);
            let (a, b) = (a as u64, b as u64);
            assert_eq!(w64(a).partial_cmp(&w64(b)), Some(a.cmp(&b)));
        }
    }
}

#[test]
fn double_order_looks_at_the_high_half_first() {
    // high halves 1 < 2 decide, though the low halves are 9 > 0
    assert!(w64((1 << 32) + 9) < w64(2 << 32));
    assert!(w64(2 << 32) > w64((1 << 32) + 9));
    assert!(w64((1 << 32) + 3) < w64((1 << 32) + 4));
}
