//! Decimal digit arithmetic: powers of ten, the exact integer logarithm,
//! and base-10000 digit groups with their reconstruction value.

use vstd::prelude::*;
use vstd::arithmetic::power::{
    pow, lemma_pow0, lemma_pow1, lemma_pow_adds, lemma_pow_increases, lemma_pow_multiplies,
    lemma_pow_positive,
};
use vstd::arithmetic::div_mod::{
    lemma_breakdown, lemma_fundamental_div_mod, lemma_fundamental_div_mod_converse_div,
    lemma_fundamental_div_mod_converse_mod, lemma_multiply_divide_lt,
};

verus! {

/// 10 to the power e.
pub open spec fn pow10(e: nat) -> int {
    pow(10, e)
}

/// 10000 to the power e: the place value of the digit group with weight e.
pub open spec fn pow10000(e: nat) -> int {
    pow(10000, e)
}

pub proof fn lemma_pow10000_pos(e: nat)
    ensures
        pow10000(e) >= 1,
{
    lemma_pow_positive(10000, e);
}

/// The first few powers of ten, by unfolding.
pub proof fn lemma_pow10_small()
    ensures
        pow10(0) == 1,
        pow10(1) == 10,
        pow10(2) == 100,
        pow10(3) == 1000,
        pow10(4) == 10000,
{
    lemma_pow0(10);
    lemma_pow1(10);
    lemma_pow_adds(10, 1, 1);
    lemma_pow_adds(10, 1, 2);
    lemma_pow_adds(10, 1, 3);
}

/// Peeling one factor of 10000 off a power.
pub proof fn lemma_pow10000_unfold(e: nat)
    requires
        e >= 1,
    ensures
        pow10000(e) == 10000 * pow10000((e - 1) as nat),
{
    lemma_pow1(10000);
    lemma_pow_adds(10000, 1, (e - 1) as nat);
}

/// Concrete values of the small group place values.
pub proof fn lemma_pow10000_concrete()
    ensures
        pow10000(0) == 1,
        pow10000(1) == 10000,
        pow10000(2) == 100000000,
        pow10000(4) == 10000000000000000,
        pow10000(8) == 100000000000000000000000000000000,
        pow10000(9) == 1000000000000000000000000000000000000,
{
    lemma_pow0(10000);
    lemma_pow1(10000);
    lemma_pow_adds(10000, 1, 1);
    lemma_pow_adds(10000, 2, 2);
    lemma_pow_adds(10000, 4, 4);
    lemma_pow_adds(10000, 8, 1);
    assert(10000int * 10000 == 100000000) by (nonlinear_arith);
    assert(100000000int * 100000000 == 10000000000000000) by (nonlinear_arith);
    assert(10000000000000000int * 10000000000000000 == 100000000000000000000000000000000)
        by (nonlinear_arith);
    assert(100000000000000000000000000000000int * 10000
        == 1000000000000000000000000000000000000) by (nonlinear_arith);
}

/// One digit group spans four decimal digits.
pub proof fn lemma_pow10000_is_pow10(e: nat)
    ensures
        pow10000(e) == pow10(4 * e),
{
    lemma_pow10_small();
    lemma_pow_multiplies(10, 4, e);
}

/// floor(log10(n)) for n >= 1 (and 0 for n == 0).
pub open spec fn log10(n: nat) -> nat
    decreases n,
{
    if n < 10 {
        0
    } else {
        1 + log10(n / 10)
    }
}

/// The number of decimal digits of n (1 for n == 0).
pub open spec fn digit_count(n: nat) -> nat
    decreases n,
{
    if n < 10 {
        1
    } else {
        1 + digit_count(n / 10)
    }
}

/// log10 brackets its argument between consecutive powers of ten.
pub proof fn lemma_log10_bracket(n: nat)
    requires
        n >= 1,
    ensures
        pow10(log10(n)) <= n < pow10(log10(n) + 1),
    decreases n,
{
    if n < 10 {
        lemma_pow10_small();
    } else {
        lemma_log10_bracket(n / 10);
        let l = log10(n / 10);
        assert(pow10(l + 1) == 10 * pow10(l) && pow10(l + 2) == 10 * pow10(l + 1)) by {
            lemma_pow_adds(10, 1, l);
            lemma_pow_adds(10, 1, l + 1);
            lemma_pow10_small();
        }
    }
}

/// The power-of-ten bracket determines the logarithm.
pub proof fn lemma_log10_from_bracket(n: nat, e: nat)
    requires
        pow10(e) <= n < pow10(e + 1),
    ensures
        log10(n) == e,
{
    lemma_pow_positive(10, e);
    lemma_log10_bracket(n);
    let l = log10(n);
    if l < e {
        lemma_pow_increases(10, l + 1, e);
    }
    if l > e {
        lemma_pow_increases(10, e + 1, l);
    }
}

/// The exact logarithm is one less than the decimal digit count.
pub proof fn lemma_log10_digit_count(n: nat)
    requires
        n >= 1,
    ensures
        digit_count(n) == log10(n) + 1,
    decreases n,
{
    if n >= 10 {
        lemma_log10_digit_count(n / 10);
    }
}

/// The n digit groups of m in base 10000, most significant first
/// (fixed width n: leading zero groups are kept).
pub open spec fn groups_fixed(m: int, n: nat) -> Seq<u16>
    decreases n,
{
    if n == 0 {
        Seq::empty()
    } else {
        groups_fixed(m / 10000, (n - 1) as nat).push((m % 10000) as u16)
    }
}

/// The value of a group sequence read back as a base-10000 number,
/// most significant group first.
pub open spec fn groups_value(s: Seq<u16>) -> int
    decreases s.len(),
{
    if s.len() == 0 {
        0
    } else {
        groups_value(s.drop_last()) * 10000 + s.last()
    }
}

pub proof fn lemma_groups_fixed_len(m: int, n: nat)
    ensures
        groups_fixed(m, n).len() == n,
    decreases n,
{
    if n > 0 {
        lemma_groups_fixed_len(m / 10000, (n - 1) as nat);
    }
}

/// Every digit group is a base-10000 digit.
pub proof fn lemma_groups_fixed_bounds(m: int, n: nat)
    ensures
        forall|i: int|
            0 <= i < groups_fixed(m, n).len() ==> (#[trigger] groups_fixed(m, n)[i]) < 10000,
    decreases n,
{
    if n > 0 {
        lemma_groups_fixed_bounds(m / 10000, (n - 1) as nat);
        lemma_groups_fixed_len(m / 10000, (n - 1) as nat);
    }
}

/// Reading the fixed-width groups of m back gives m modulo the covered range.
pub proof fn lemma_groups_fixed_value(m: int, n: nat)
    requires
        0 <= m,
    ensures
        groups_value(groups_fixed(m, n)) == m % pow10000(n),
    decreases n,
{
    if n == 0 {
        lemma_pow0(10000);
    } else {
        lemma_pow10000_unfold(n);
        let rest = groups_fixed(m / 10000, (n - 1) as nat);
        let s = groups_fixed(m, n);
        assert(s.drop_last() =~= rest);
        lemma_groups_fixed_value(m / 10000, (n - 1) as nat);
        lemma_pow_positive(10000, (n - 1) as nat);
        lemma_breakdown(m, 10000, pow10000((n - 1) as nat));
    }
}

/// Splitting a magnitude at a group boundary splits its group sequence:
/// the groups of a * 10000^k + b are the n groups of a followed by the
/// k groups of b, whenever b fits in k groups.
pub proof fn lemma_groups_fixed_concat(a: int, b: int, n: nat, k: nat)
    requires
        0 <= a,
        0 <= b < pow10000(k),
    ensures
        groups_fixed(a * pow10000(k) + b, n + k) == groups_fixed(a, n) + groups_fixed(b, k),
    decreases k,
{
    if k == 0 {
        lemma_pow0(10000);
        assert(groups_fixed(a, n) + groups_fixed(b, 0) =~= groups_fixed(a * pow10000(0) + b, n));
    } else {
        let p = pow10000((k - 1) as nat);
        lemma_pow_positive(10000, (k - 1) as nat);
        lemma_pow10000_unfold(k);
        let m = a * pow10000(k) + b;
        let q = a * p + b / 10000;
        assert(m == 10000 * q + b % 10000) by {
            lemma_fundamental_div_mod(b, 10000);
            assert(a * (10000 * p) == 10000 * (a * p)) by (nonlinear_arith);
        }
        assert(m / 10000 == q && m % 10000 == b % 10000) by {
            lemma_fundamental_div_mod_converse_div(m, 10000, q, b % 10000);
            lemma_fundamental_div_mod_converse_mod(m, 10000, q, b % 10000);
        }
        assert(b / 10000 < p) by {
            lemma_multiply_divide_lt(b, 10000, p);
        }
        lemma_groups_fixed_concat(a, b / 10000, n, (k - 1) as nat);
        let tail = (b % 10000) as u16;
        assert(groups_fixed(m, n + k) == groups_fixed(q, (n + k - 1) as nat).push(tail));
        assert(groups_fixed(b, k) == groups_fixed(b / 10000, (k - 1) as nat).push(tail));
        assert((groups_fixed(a, n) + groups_fixed(b / 10000, (k - 1) as nat)).push(tail)
            =~= groups_fixed(a, n) + groups_fixed(b / 10000, (k - 1) as nat).push(tail));
    }
}

} // verus!
