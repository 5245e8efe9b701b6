//! The three NUMERIC encoders: unsigned 64-bit, signed 128-bit, and
//! fixed-point Q80.48 (a signed value stored as raw bits interpreted as
//! raw / 2^48). Each derives the header fields exactly — no floating point —
//! and decomposes the magnitude into base-10000 digit groups.

use vstd::prelude::*;
use vstd::arithmetic::power::{lemma_pow_adds, lemma_pow_increases};
use vstd::arithmetic::div_mod::{
    lemma_fundamental_div_mod_converse_div, lemma_fundamental_div_mod_converse_mod,
    lemma_multiply_divide_lt,
};
use bytes::BytesMut;
use crate::buf::buf_bytes;
use crate::digits::{
    groups_fixed, groups_value, log10, pow10000, lemma_groups_fixed_concat,
    lemma_groups_fixed_value, lemma_log10_bracket, lemma_pow10000_concrete,
    lemma_pow10000_is_pow10, lemma_pow10000_pos,
};
use crate::int_log;
use crate::wire::{decompose, wire_bytes, write_record, WireRecord};

verus! {

/// The raw unit of the Q80.48 fixed-point representation: 2^48.
pub const FRAC_UNIT: u128 = 0x1000000000000;

/// 10^16: the scale of the sixteen declared fractional decimal digits.
pub const TEN_POW_16: u128 = 10000000000000000;

/// Absolute value, as a mathematical integer.
pub open spec fn abs_of(v: i128) -> int {
    if v < 0 {
        -(v as int)
    } else {
        v as int
    }
}

/// The wire sign flag of a value: 0x4000 for negative, 0 otherwise.
pub open spec fn sign_of(v: i128) -> u16 {
    if v < 0 {
        0x4000
    } else {
        0
    }
}

/// Weight of the most significant digit group of a positive integer
/// magnitude: floor(log10(m) / 4).
pub open spec fn int_weight(m: int) -> nat {
    log10(m as nat) / 4
}

/// Digit groups of an integer magnitude, most significant first:
/// one group per weight from int_weight(m) down to 0, and a single zero
/// group for zero.
pub open spec fn int_groups(m: int) -> Seq<u16> {
    if m <= 0 {
        seq![0u16]
    } else {
        groups_fixed(m, int_weight(m) + 1)
    }
}

/// The header weight of an integer magnitude.
pub open spec fn int_weight16(m: int) -> i16 {
    if m <= 0 {
        0i16
    } else {
        int_weight(m) as i16
    }
}

/// A positive fixed-point magnitude truncated to 16 fractional decimal
/// digits and scaled to an integer: floor((m / 2^48) * 10^16).
pub open spec fn i80f48_scaled(m: int) -> int {
    (m * 10000000000000000) / 0x1000000000000
}

/// Header weight of a positive fixed-point magnitude: the weight of its
/// integer part, or 0 when the value is purely fractional.
pub open spec fn i80f48_weight(m: int) -> nat {
    if m / 0x1000000000000 > 0 {
        int_weight(m / 0x1000000000000)
    } else {
        0
    }
}

/// Digit groups of a positive fixed-point magnitude: integer groups for
/// weights i80f48_weight(m) down to 0, then four fractional groups
/// (weights -1 to -4, sixteen fractional decimal digits).
pub open spec fn i80f48_groups(m: int) -> Seq<u16> {
    groups_fixed(i80f48_scaled(m), i80f48_weight(m) + 5)
}

/// Digit groups of a fixed-point record (a single zero group for zero).
pub open spec fn i80f48_rec_groups(v: i128) -> Seq<u16> {
    if v == 0 {
        seq![0u16]
    } else {
        i80f48_groups(abs_of(v))
    }
}

/// Header weight of a fixed-point record.
pub open spec fn i80f48_rec_weight(v: i128) -> i16 {
    if v == 0 {
        0i16
    } else {
        i80f48_weight(abs_of(v)) as i16
    }
}

/// A single zero digit group holds the value zero.
proof fn lemma_zero_group()
    ensures
        groups_value(seq![0u16]) == 0,
{
    assert(groups_value(Seq::<u16>::empty()) == 0);
    assert(seq![0u16].drop_last() =~= Seq::<u16>::empty());
    assert(seq![0u16].last() == 0u16);
    assert(seq![0u16].len() == 1);
}

/// A positive integer magnitude fits in the groups its weight claims:
/// 10000^int_weight(m) <= m < 10000^(int_weight(m) + 1), so the leading
/// group is nonzero and the weight is the true order of magnitude.
pub proof fn lemma_int_weight_bracket(m: int)
    requires
        m >= 1,
    ensures
        pow10000(int_weight(m)) <= m < pow10000(int_weight(m) + 1),
{
    let lg = log10(m as nat);
    let fw = int_weight(m);
    lemma_log10_bracket(m as nat);
    lemma_pow10000_is_pow10(fw);
    lemma_pow10000_is_pow10(fw + 1);
    lemma_pow_increases(10, 4 * fw, lg);
    lemma_pow_increases(10, lg + 1, 4 * (fw + 1));
}

/// Round trip for integer magnitudes: reading the digit groups back as a
/// base-10000 number recovers the encoded magnitude exactly.
pub proof fn lemma_int_groups_round_trip(m: int)
    requires
        m >= 0,
    ensures
        groups_value(int_groups(m)) == m,
{
    if m == 0 {
        lemma_zero_group();
    } else {
        let fw = int_weight(m);
        lemma_int_weight_bracket(m);
        lemma_groups_fixed_value(m, fw + 1);
        lemma_pow10000_pos(fw + 1);
        lemma_fundamental_div_mod_converse_mod(m, pow10000(fw + 1), 0, m);
    }
}

/// The scaled fixed-point magnitude splits at the decimal point:
/// it is the integer part shifted up by 16 digits plus the scaled
/// fractional part, which fills exactly four groups.
pub proof fn lemma_i80f48_scaled_split(m: int)
    requires
        m >= 0,
    ensures
        i80f48_scaled(m) == (m / 0x1000000000000) * pow10000(4) + ((m % 0x1000000000000)
            * 10000000000000000) / 0x1000000000000,
        0 <= ((m % 0x1000000000000) * 10000000000000000) / 0x1000000000000 < pow10000(4),
{
    lemma_pow10000_concrete();
    let ip = m / 0x1000000000000;
    let fr = m % 0x1000000000000;
    let f = (fr * 10000000000000000) / 0x1000000000000;
    let r3 = (fr * 10000000000000000) % 0x1000000000000;
    assert(f < 10000000000000000) by {
        assert(fr * 10000000000000000 < 0x1000000000000 * 10000000000000000);
        lemma_multiply_divide_lt(fr * 10000000000000000, 0x1000000000000, 10000000000000000);
    }
    assert(m * 10000000000000000 == 0x1000000000000 * (ip * 10000000000000000 + f) + r3) by {
        assert(m == 0x1000000000000 * ip + fr);
        assert(fr * 10000000000000000 == 0x1000000000000 * f + r3);
        assert((0x1000000000000 * ip + fr) * 10000000000000000 == 0x1000000000000 * (ip
            * 10000000000000000) + fr * 10000000000000000) by (nonlinear_arith);
        assert(0x1000000000000 * (ip * 10000000000000000) + 0x1000000000000 * f == 0x1000000000000
            * (ip * 10000000000000000 + f)) by (nonlinear_arith);
    }
    lemma_fundamental_div_mod_converse_div(
        m * 10000000000000000,
        0x1000000000000,
        ip * 10000000000000000 + f,
        r3,
    );
}

/// Round trip for fixed-point magnitudes: the digit groups give the
/// magnitude truncated to 16 fractional decimal digits, scaled by 10^16.
pub proof fn lemma_i80f48_groups_round_trip(m: int)
    requires
        m >= 1,
    ensures
        groups_value(i80f48_groups(m)) == i80f48_scaled(m),
{
    let ip = m / 0x1000000000000;
    let fw = i80f48_weight(m);
    let s = i80f48_scaled(m);
    lemma_i80f48_scaled_split(m);
    lemma_pow10000_concrete();
    assert(ip < pow10000(fw + 1)) by {
        if ip > 0 {
            lemma_int_weight_bracket(ip);
        } else {
            lemma_pow10000_pos(fw + 1);
        }
    }
    assert(s < pow10000(fw + 5)) by {
        lemma_pow_adds(10000, fw + 1, 4);
        assert(ip * pow10000(4) + pow10000(4) == (ip + 1) * pow10000(4)) by (nonlinear_arith);
        assert((ip + 1) * pow10000(4) <= pow10000(fw + 1) * pow10000(4)) by (nonlinear_arith)
            requires ip + 1 <= pow10000(fw + 1), pow10000(4) > 0,
        ;
    }
    lemma_groups_fixed_value(s, fw + 5);
    lemma_pow10000_pos(fw + 5);
    lemma_fundamental_div_mod_converse_mod(s, pow10000(fw + 5), 0, s);
}

/// An unsigned 64-bit integer rendered as a binary NUMERIC value.
pub struct SqlNumericU64(pub u64);

/// A signed 128-bit integer rendered as a binary NUMERIC value.
pub struct SqlNumericI128(pub i128);

/// A signed fixed-point Q80.48 value — the raw 128-bit representation of
/// value * 2^48 — rendered as a binary NUMERIC value with 16 declared
/// fractional decimal digits.
pub struct SqlNumericI80F48(pub i128);

/// The canonical zero record: one zero group at weight 0, positive sign.
fn zero_record(sign: u16, dscale: u16) -> (r: WireRecord)
    requires
        sign == 0 || sign == 0x4000,
    ensures
        r.wf(),
        r.num_groups == 1,
        r.weight == 0,
        r.sign == sign,
        r.dscale == dscale,
        r.groups@ == seq![0u16],
        groups_value(r.groups@) == 0,
{
    let mut groups: Vec<u16> = Vec::new();
    groups.push(0);
    proof {
        assert(groups@ =~= seq![0u16]);
        lemma_zero_group();
    }
    WireRecord { num_groups: 1, weight: 0, sign, dscale, groups }
}

/// Build the record of a positive integer magnitude: its digit groups, with
/// the weight of the most significant group in the header.
fn int_record(m: u128, lg: u32, sign: u16) -> (r: WireRecord)
    requires
        m > 0,
        lg == log10(m as nat),
        lg <= 38,
        sign == 0 || sign == 0x4000,
    ensures
        r.wf(),
        r.dscale == 0,
        r.sign == sign,
        r.groups@ == int_groups(m as int),
        r.weight == int_weight16(m as int),
        r.weight + 1 == r.groups@.len(),
        groups_value(r.groups@) == m,
{
    let fw = (lg / 4) as usize;
    proof {
        lemma_log10_bracket(m as nat);
        lemma_pow10000_is_pow10((fw + 1) as nat);
        lemma_pow_increases(10, lg as nat + 1, 4 * (fw as nat + 1));
        lemma_int_groups_round_trip(m as int);
    }
    let groups = decompose(m, fw);
    WireRecord {
        num_groups: (fw + 1) as u16,
        weight: fw as i16,
        sign,
        dscale: 0,
        groups,
    }
}

impl SqlNumericU64 {
    /// The wire record of the value: dscale 0, positive sign, and the
    /// base-10000 digit groups of the value itself.
    pub fn to_record(&self) -> (r: WireRecord)
        ensures
            r.wf(),
            r.dscale == 0,
            r.sign == 0,
            r.groups@ == int_groups(self.0 as int),
            r.weight == int_weight16(self.0 as int),
            r.weight + 1 == r.groups@.len(),
            groups_value(r.groups@) == self.0,
            self.0 > 0 ==> pow10000((r.groups@.len() - 1) as nat) <= self.0 < pow10000(
                r.groups@.len() as nat,
            ),
            self.0 == 0 ==> r.groups@ == seq![0u16] && r.weight == 0,
    {
        proof {
            if self.0 > 0 {
                lemma_int_weight_bracket(self.0 as int);
            }
        }
        if self.0 == 0 {
            zero_record(0, 0)
        } else {
            let lg = int_log::u64(self.0);
            int_record(self.0 as u128, lg, 0)
        }
    }

    /// Append the value's NUMERIC wire bytes to the output buffer.
    pub fn encode(&self, out: &mut BytesMut)
        ensures
            buf_bytes(*final(out)) == buf_bytes(*old(out)) + wire_bytes(
                int_groups(self.0 as int),
                int_weight16(self.0 as int),
                0,
                0,
            ),
    {
        let r = self.to_record();
        write_record(&r, out);
    }
}

impl SqlNumericI128 {
    /// The wire record of the value: dscale 0, the sign flag of the value,
    /// and the base-10000 digit groups of its absolute value.
    pub fn to_record(&self) -> (r: WireRecord)
        ensures
            r.wf(),
            r.dscale == 0,
            r.sign == sign_of(self.0),
            r.groups@ == int_groups(abs_of(self.0)),
            r.weight == int_weight16(abs_of(self.0)),
            r.weight + 1 == r.groups@.len(),
            groups_value(r.groups@) == abs_of(self.0),
            self.0 != 0 ==> pow10000((r.groups@.len() - 1) as nat) <= abs_of(self.0) < pow10000(
                r.groups@.len() as nat,
            ),
            self.0 == 0 ==> r.groups@ == seq![0u16] && r.weight == 0,
    {
        let sign: u16 = if self.0 < 0 {
            0x4000
        } else {
            0
        };
        proof {
            if self.0 != 0 {
                lemma_int_weight_bracket(abs_of(self.0));
            }
        }
        if self.0 == 0 {
            zero_record(sign, 0)
        } else {
            let m: u128 = if self.0 >= 0 {
                self.0 as u128
            } else {
                ((-1 - self.0) as u128) + 1
            };
            let lg = int_log::u128(m);
            int_record(m, lg, sign)
        }
    }

    /// Append the value's NUMERIC wire bytes to the output buffer.
    pub fn encode(&self, out: &mut BytesMut)
        ensures
            buf_bytes(*final(out)) == buf_bytes(*old(out)) + wire_bytes(
                int_groups(abs_of(self.0)),
                int_weight16(abs_of(self.0)),
                sign_of(self.0),
                0,
            ),
    {
        let r = self.to_record();
        write_record(&r, out);
    }
}

impl SqlNumericI80F48 {
    /// The wire record of the value: dscale 16, the sign flag of the value,
    /// the integer part's digit groups down to weight 0, then exactly four
    /// fractional groups holding the first 16 fractional decimal digits.
    pub fn to_record(&self) -> (r: WireRecord)
        ensures
            r.wf(),
            r.dscale == 16,
            r.sign == sign_of(self.0),
            r.groups@ == i80f48_rec_groups(self.0),
            r.weight == i80f48_rec_weight(self.0),
            self.0 != 0 ==> r.weight + 5 == r.groups@.len(),
            self.0 != 0 ==> groups_value(r.groups@) == i80f48_scaled(abs_of(self.0)),
            self.0 == 0 ==> r.groups@ == seq![0u16] && r.weight == 0 && r.num_groups == 1,
    {
        let sign: u16 = if self.0 < 0 {
            0x4000
        } else {
            0
        };
        if self.0 == 0 {
            return zero_record(sign, 16);
        }
        let m: u128 = if self.0 >= 0 {
            self.0 as u128
        } else {
            ((-1 - self.0) as u128) + 1
        };
        let ip = m / FRAC_UNIT;
        let fr = m % FRAC_UNIT;
        let f = (fr * TEN_POW_16) / FRAC_UNIT;
        let fw: usize = if ip > 0 {
            let lg = int_log::u128(ip);
            proof {
                lemma_log10_bracket(ip as nat);
                lemma_pow10000_is_pow10((lg / 4 + 1) as nat);
                lemma_pow_increases(10, lg as nat + 1, 4 * (lg as nat / 4 + 1));
            }
            (lg / 4) as usize
        } else {
            0
        };
        proof {
            lemma_pow10000_concrete();
            lemma_i80f48_scaled_split(m as int);
            lemma_i80f48_groups_round_trip(m as int);
            assert(ip < pow10000(fw as nat + 1));
        }
        let mut groups = decompose(ip, fw);
        let mut tail = decompose(f, 3);
        groups.append(&mut tail);
        proof {
            lemma_groups_fixed_concat(ip as int, f as int, fw as nat + 1, 4);
            assert(groups@ == i80f48_groups(m as int));
        }
        WireRecord {
            num_groups: (fw + 5) as u16,
            weight: fw as i16,
            sign,
            dscale: 16,
            groups,
        }
    }

    /// Append the value's NUMERIC wire bytes to the output buffer.
    pub fn encode(&self, out: &mut BytesMut)
        ensures
            buf_bytes(*final(out)) == buf_bytes(*old(out)) + wire_bytes(
                i80f48_rec_groups(self.0),
                i80f48_rec_weight(self.0),
                sign_of(self.0),
                16,
            ),
    {
        let r = self.to_record();
        write_record(&r, out);
    }
}

} // verus!
