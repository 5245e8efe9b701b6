//! Exact floor(log10) for unsigned integers up to 128 bits, computed by
//! successive comparisons against powers of ten — no floating point, so the
//! digit count is right at every power-of-ten boundary.

use vstd::prelude::*;
use vstd::arithmetic::power::{lemma_pow_adds, lemma_pow_increases};
use crate::digits::{digit_count, log10, pow10, lemma_log10_digit_count, lemma_log10_from_bracket, lemma_pow10_small};

verus! {

/// Concrete values of the powers of ten the split points use.
proof fn lemma_pow10_concrete()
    ensures
        pow10(4) == 10000,
        pow10(8) == 100000000,
        pow10(16) == 10000000000000000,
        pow10(20) == 100000000000000000000,
        pow10(32) == 100000000000000000000000000000000,
        pow10(39) == 1000000000000000000000000000000000000000,
{
    lemma_pow10_small();
    lemma_pow_adds(10, 4, 4);
    lemma_pow_adds(10, 8, 8);
    lemma_pow_adds(10, 16, 16);
    lemma_pow_adds(10, 16, 4);
    lemma_pow_adds(10, 4, 3);
    lemma_pow_adds(10, 32, 7);
    assert(10000int * 10000 == 100000000) by (nonlinear_arith);
    assert(100000000int * 100000000 == 10000000000000000) by (nonlinear_arith);
    assert(10000000000000000int * 10000 == 100000000000000000000) by (nonlinear_arith);
    assert(10000000000000000int * 10000000000000000 == 100000000000000000000000000000000)
        by (nonlinear_arith);
    assert(10000int * 1000 == 10000000) by (nonlinear_arith);
    assert(100000000000000000000000000000000int * 10000000
        == 1000000000000000000000000000000000000000) by (nonlinear_arith);
}

/// floor(log10(val)) for 0 < val < 10^8.
pub fn less_than_8(val: u32) -> (r: u32)
    requires
        0 < val < 100_000_000,
    ensures
        r == log10(val as nat),
        r + 1 == digit_count(val as nat),
        pow10(r as nat) <= val < pow10(r as nat + 1),
        r <= 7,
{
    let mut v = val;
    let mut log: u32 = 0;
    if v >= 10_000 {
        v /= 10_000;
        log += 4;
    }
    let t: u32 = if v >= 1000 {
        3
    } else if v >= 100 {
        2
    } else if v >= 10 {
        1
    } else {
        0
    };
    proof {
        lemma_pow10_small();
        assert(pow10(t as nat) <= v < pow10(t as nat + 1));
        if log == 4 {
            lemma_pow_adds(10, 4, t as nat);
            lemma_pow_adds(10, 4, t as nat + 1);
            assert(pow10((log + t) as nat) <= val < pow10((log + t) as nat + 1));
        }
        lemma_log10_from_bracket(val as nat, (log + t) as nat);
        lemma_log10_digit_count(val as nat);
    }
    log + t
}

/// floor(log10(val)) for 0 < val < 10^16.
pub fn less_than_16(val: u64) -> (r: u32)
    requires
        0 < val < 10_000_000_000_000_000,
    ensures
        r == log10(val as nat),
        r + 1 == digit_count(val as nat),
        pow10(r as nat) <= val < pow10(r as nat + 1),
        r <= 15,
{
    let mut v = val;
    let mut log: u32 = 0;
    if v >= 100_000_000 {
        v /= 100_000_000;
        log += 8;
    }
    let t = less_than_8(v as u32);
    proof {
        lemma_pow10_concrete();
        if log == 8 {
            lemma_pow_adds(10, 8, t as nat);
            lemma_pow_adds(10, 8, t as nat + 1);
            assert(pow10((log + t) as nat) <= val < pow10((log + t) as nat + 1));
        }
        lemma_log10_from_bracket(val as nat, (log + t) as nat);
        lemma_log10_digit_count(val as nat);
    }
    log + t
}

/// floor(log10(val)) for any 0 < val <= u64::MAX.
pub fn u64(val: u64) -> (r: u32)
    requires
        val > 0,
    ensures
        r == log10(val as nat),
        r + 1 == digit_count(val as nat),
        pow10(r as nat) <= val < pow10(r as nat + 1),
        r <= 19,
{
    let mut v = val;
    let mut log: u32 = 0;
    if v >= 10_000_000_000_000_000 {
        v /= 10_000_000_000_000_000;
        log += 16;
    }
    let t = less_than_16(v);
    proof {
        lemma_pow10_concrete();
        if log == 16 {
            lemma_pow_adds(10, 16, t as nat);
            lemma_pow_adds(10, 16, t as nat + 1);
            assert(pow10((log + t) as nat) <= val < pow10((log + t) as nat + 1));
        }
        lemma_log10_from_bracket(val as nat, (log + t) as nat);
        lemma_log10_digit_count(val as nat);
        if log + t >= 20 {
            lemma_pow_increases(10, 20, (log + t) as nat);
        }
    }
    log + t
}

/// floor(log10(val)) for any 0 < val <= u128::MAX.
pub fn u128(val: u128) -> (r: u32)
    requires
        val > 0,
    ensures
        r == log10(val as nat),
        r + 1 == digit_count(val as nat),
        pow10(r as nat) <= val < pow10(r as nat + 1),
        r <= 38,
{
    if val >= 100_000_000_000_000_000_000_000_000_000_000 {
        let v = val / 100_000_000_000_000_000_000_000_000_000_000;
        let t = less_than_8(v as u32);
        proof {
            lemma_pow10_concrete();
            lemma_pow_adds(10, 32, t as nat);
            lemma_pow_adds(10, 32, t as nat + 1);
            assert(pow10((32 + t) as nat) <= val < pow10((32 + t) as nat + 1));
            lemma_log10_from_bracket(val as nat, (32 + t) as nat);
            lemma_log10_digit_count(val as nat);
            if 32 + t >= 39 {
                lemma_pow_increases(10, 39, (32 + t) as nat);
            }
        }
        return 32 + t;
    }
    let mut v = val;
    let mut log: u32 = 0;
    if v >= 10_000_000_000_000_000 {
        v /= 10_000_000_000_000_000;
        log += 16;
    }
    let t = less_than_16(v as u64);
    proof {
        lemma_pow10_concrete();
        if log == 16 {
            lemma_pow_adds(10, 16, t as nat);
            lemma_pow_adds(10, 16, t as nat + 1);
            assert(pow10((log + t) as nat) <= val < pow10((log + t) as nat + 1));
        }
        lemma_log10_from_bracket(val as nat, (log + t) as nat);
        lemma_log10_digit_count(val as nat);
    }
    log + t
}

} // verus!
