//! The NUMERIC wire record — header fields plus base-10000 digit groups —
//! its exact byte layout, and the digit-group decomposition that fills it.

use vstd::prelude::*;
use vstd::arithmetic::power::{lemma_pow0, lemma_pow_increases, lemma_pow_positive};
use vstd::arithmetic::div_mod::{
    lemma_breakdown, lemma_div_denominator, lemma_fundamental_div_mod_converse_div,
    lemma_fundamental_div_mod_converse_mod, lemma_mod_division_less_than_divisor,
};
use bytes::BytesMut;
use crate::buf::{buf_bytes, buf_put_slice, buf_reserve};
use crate::digits::{
    groups_fixed, groups_value, pow10000, lemma_groups_fixed_bounds, lemma_groups_fixed_len,
    lemma_groups_fixed_value, lemma_pow10000_unfold,
};

verus! {

/// One encoded NUMERIC value: the header fields and the digit groups,
/// most significant group first.
pub struct WireRecord {
    pub num_groups: u16,
    pub weight: i16,
    pub sign: u16,
    pub dscale: u16,
    pub groups: Vec<u16>,
}

impl WireRecord {
    /// Well-formed: the group count matches the header, at least one group is
    /// present, every group is a base-10000 digit, and the sign flag is one
    /// of the two legal values.
    pub open spec fn wf(self) -> bool {
        &&& self.num_groups == self.groups@.len()
        &&& self.groups@.len() >= 1
        &&& (forall|i: int| 0 <= i < self.groups@.len() ==> (#[trigger] self.groups@[i]) < 10000)
        &&& (self.sign == 0 || self.sign == 0x4000)
    }
}

/// Big-endian bytes of an unsigned 16-bit integer.
pub open spec fn be16(v: u16) -> Seq<u8> {
    seq![(v / 256) as u8, (v % 256) as u8]
}

/// Big-endian two's-complement bytes of a signed 16-bit integer.
pub open spec fn be16i(v: i16) -> Seq<u8> {
    if v >= 0 {
        be16(v as u16)
    } else {
        be16((v + 0x10000) as u16)
    }
}

/// The wire bytes of the digit groups, in order.
pub open spec fn groups_bytes(gs: Seq<u16>) -> Seq<u8>
    decreases gs.len(),
{
    if gs.len() == 0 {
        Seq::empty()
    } else {
        groups_bytes(gs.drop_last()) + be16(gs.last())
    }
}

/// The full wire layout of a record: four big-endian u16 header fields
/// (group count, weight, sign, dscale) followed by the groups.
pub open spec fn wire_bytes(gs: Seq<u16>, weight: i16, sign: u16, dscale: u16) -> Seq<u8> {
    be16(gs.len() as u16) + be16i(weight) + be16(sign) + be16(dscale) + groups_bytes(gs)
}

/// 10000^e, computed exactly.
pub fn pow10000_exec(e: usize) -> (r: u128)
    requires
        e <= 9,
    ensures
        r == pow10000(e as nat),
{
    proof {
        lemma_pow0(10000);
        crate::digits::lemma_pow10000_concrete();
    }
    let mut r: u128 = 1;
    let mut i: usize = 0;
    while i < e
        invariant
            i <= e <= 9,
            r == pow10000(i as nat),
            pow10000(9) == 1000000000000000000000000000000000000,
        decreases e - i,
    {
        proof {
            lemma_pow10000_unfold(i as nat + 1);
            lemma_pow_increases(10000, i as nat + 1, 9);
            lemma_pow_positive(10000, i as nat);
        }
        r = r * 10000;
        i += 1;
    }
    r
}

/// Split m into first_w + 1 base-10000 digit groups, most significant first:
/// group i holds the four decimal digits of weight first_w - i.
pub fn decompose(m: u128, first_w: usize) -> (gs: Vec<u16>)
    requires
        first_w <= 9,
        m < pow10000(first_w as nat + 1),
    ensures
        gs@ == groups_fixed(m as int, first_w as nat + 1),
        gs@.len() == first_w + 1,
        forall|i: int| 0 <= i < gs@.len() ==> (#[trigger] gs@[i]) < 10000,
        groups_value(gs@) == m,
{
    let n = first_w + 1;
    let mut gs: Vec<u16> = Vec::new();
    let mut rem = m;
    let mut k: usize = 0;
    proof {
        lemma_pow_positive(10000, n as nat);
        lemma_fundamental_div_mod_converse_mod(m as int, pow10000(n as nat), 0, m as int);
        assert(gs@ =~= groups_fixed((m as int) / pow10000((n - k) as nat), k as nat));
    }
    while k < n
        invariant
            1 <= n <= 10,
            k <= n,
            m < pow10000(n as nat),
            rem == (m as int) % pow10000((n - k) as nat),
            gs@ == groups_fixed((m as int) / pow10000((n - k) as nat), k as nat),
            gs@.len() == k,
        decreases n - k,
    {
        let w = n - k - 1;
        let shift = pow10000_exec(w);
        proof {
            lemma_pow_positive(10000, w as nat);
        }
        let g = rem / shift;
        proof {
            let mi = m as int;
            let p = pow10000(w as nat);
            lemma_pow10000_unfold((n - k) as nat);
            lemma_breakdown(mi, p, 10000);
            let q = (mi / p) % 10000;
            let r2 = mi % p;
            lemma_mod_division_less_than_divisor(mi, p);
            assert(rem == q * p + r2) by (nonlinear_arith)
                requires rem == p * q + r2,
            ;
            lemma_fundamental_div_mod_converse_div(rem as int, p, q, r2);
            lemma_fundamental_div_mod_converse_mod(rem as int, p, q, r2);
            assert(g == q && (rem as int) % p == r2);
            lemma_div_denominator(mi, p, 10000);
        }
        gs.push(g as u16);
        rem = rem % shift;
        k += 1;
        proof {
            let mi = m as int;
            let x = mi / pow10000((n - k) as nat);
            assert(gs@ =~= groups_fixed(x / 10000, (k - 1) as nat).push((x % 10000) as u16));
        }
    }
    proof {
        lemma_pow0(10000);
        lemma_groups_fixed_len(m as int, n as nat);
        lemma_groups_fixed_bounds(m as int, n as nat);
        lemma_groups_fixed_value(m as int, n as nat);
        lemma_fundamental_div_mod_converse_mod(m as int, pow10000(n as nat), 0, m as int);
    }
    gs
}

/// Push the big-endian bytes of x.
fn push_be16(v: &mut Vec<u8>, x: u16)
    ensures
        final(v)@ == old(v)@ + be16(x),
{
    v.push((x / 256) as u8);
    v.push((x % 256) as u8);
    proof {
        assert(v@ =~= old(v)@ + be16(x));
    }
}

/// Push the big-endian two's-complement bytes of x.
fn push_be16i(v: &mut Vec<u8>, x: i16)
    ensures
        final(v)@ == old(v)@ + be16i(x),
{
    if x >= 0 {
        push_be16(v, x as u16);
    } else {
        let y: u16 = ((x as i32) + 0x10000) as u16;
        push_be16(v, y);
    }
}

/// The record's wire bytes, in order.
pub fn record_bytes(r: &WireRecord) -> (v: Vec<u8>)
    requires
        r.wf(),
    ensures
        v@ == wire_bytes(r.groups@, r.weight, r.sign, r.dscale),
{
    let mut v: Vec<u8> = Vec::new();
    push_be16(&mut v, r.num_groups);
    push_be16i(&mut v, r.weight);
    push_be16(&mut v, r.sign);
    push_be16(&mut v, r.dscale);
    let ghost base = be16(r.groups@.len() as u16) + be16i(r.weight) + be16(r.sign) + be16(
        r.dscale,
    );
    proof {
        assert(r.num_groups == r.groups@.len() as u16);
        assert(r.groups@.subrange(0, 0) =~= Seq::<u16>::empty());
        assert(v@ =~= base + groups_bytes(r.groups@.subrange(0, 0)));
    }
    let mut i: usize = 0;
    while i < r.groups.len()
        invariant
            i <= r.groups@.len(),
            v@ == base + groups_bytes(r.groups@.subrange(0, i as int)),
        decreases r.groups@.len() - i,
    {
        push_be16(&mut v, r.groups[i]);
        i += 1;
        proof {
            let s = r.groups@.subrange(0, i as int);
            assert(s.drop_last() =~= r.groups@.subrange(0, i - 1));
            assert(s.last() == r.groups@[i - 1]);
            assert(v@ =~= base + groups_bytes(s));
        }
    }
    proof {
        assert(r.groups@.subrange(0, r.groups@.len() as int) =~= r.groups@);
        assert(v@ =~= wire_bytes(r.groups@, r.weight, r.sign, r.dscale));
    }
    v
}

/// Append the record's wire bytes to the output buffer.
pub fn write_record(r: &WireRecord, out: &mut BytesMut)
    requires
        r.wf(),
    ensures
        buf_bytes(*final(out)) == buf_bytes(*old(out)) + wire_bytes(
            r.groups@,
            r.weight,
            r.sign,
            r.dscale,
        ),
{
    buf_reserve(out, 8 + 2 * r.groups.len());
    let v = record_bytes(r);
    buf_put_slice(out, v.as_slice());
}

} // verus!
