// The exact logarithm must match the decimal-digit-count reference at every
// power-of-ten boundary, across the full width of both integer types.

use connector_mango::int_log;

fn digits_u128(n: u128) -> u32 {
    n.to_string().len() as u32 - 1
}

#[test]
fn u64_boundaries() {
    for k in 0..20u32 {
        let p = 10u128.pow(k);
        for cand in [p.wrapping_sub(1), p, p + 1] {
            if cand > 0 && cand <= u64::MAX as u128 {
                let v = cand as u64;
                assert_eq!(int_log::u64(v), digits_u128(cand), "at {}", v);
            }
        }
    }
    assert_eq!(int_log::u64(u64::MAX), 19);
    assert_eq!(int_log::u64(1), 0);
    assert_eq!(int_log::u64(9), 0);
    assert_eq!(int_log::u64(10), 1);
    assert_eq!(int_log::u64(100), 2);
}

#[test]
fn u128_boundaries() {
    for k in 0..39u32 {
        let p = 10u128.pow(k);
        for cand in [p.wrapping_sub(1), p, p + 1] {
            if cand > 0 {
                assert_eq!(int_log::u128(cand), digits_u128(cand), "at {}", cand);
            }
        }
    }
    assert_eq!(int_log::u128(u128::MAX), 38);
    assert_eq!(int_log::u128(1), 0);
}

#[test]
fn small_paths() {
    for k in 0..8u32 {
        let p = 10u32.pow(k);
        for cand in [p.wrapping_sub(1), p, p + 1] {
            if cand > 0 && cand < 100_000_000 {
                assert_eq!(int_log::less_than_8(cand), digits_u128(cand as u128));
            }
        }
    }
    for k in 0..16u32 {
        let p = 10u64.pow(k);
        for cand in [p.wrapping_sub(1), p, p + 1] {
            if cand > 0 && cand < 10_000_000_000_000_000 {
                assert_eq!(int_log::less_than_16(cand), digits_u128(cand as u128));
            }
        }
    }
}
