// Records and wire bytes of the three NUMERIC encoders: canonical zeros,
// concrete scenarios, round trips, and group-range checks.

use bytes::BytesMut;
use connector_mango::numeric::{SqlNumericI128, SqlNumericI80F48, SqlNumericU64};
use connector_mango::tables::{MangoAccountTable, MangoCacheTable, MangoGroupTable};
use connector_mango::wire::WireRecord;
use fixed::types::I80F48;

/// Read the groups back as one base-10000 number (the record's magnitude,
/// scaled by 10^16 for the fixed-point encoder).
fn reconstruct(groups: &[u16]) -> u128 {
    let mut acc: u128 = 0;
    for g in groups {
        acc = acc * 10000 + *g as u128;
    }
    acc
}

/// The base-10000 groups of a decimal magnitude string, most significant
/// first: an independent arbitrary-precision reference.
fn groups_from_string(dec: &str, width: usize) -> Vec<u16> {
    let padded = format!("{:0>width$}", dec, width = width * 4);
    padded
        .as_bytes()
        .chunks(4)
        .map(|c| std::str::from_utf8(c).unwrap().parse::<u16>().unwrap())
        .collect()
}

fn check_wf(r: &WireRecord) {
    assert_eq!(r.num_groups as usize, r.groups.len());
    assert!(r.groups.len() >= 1);
    for g in &r.groups {
        assert!(*g < 10000, "group {} out of range", g);
    }
    assert!(r.sign == 0 || r.sign == 0x4000);
}

#[test]
fn zero_records() {
    let r = SqlNumericU64(0).to_record();
    assert_eq!(
        (r.num_groups, r.weight, r.sign, r.dscale, r.groups.as_slice()),
        (1, 0, 0, 0, &[0u16][..])
    );
    let r = SqlNumericI128(0).to_record();
    assert_eq!(
        (r.num_groups, r.weight, r.sign, r.dscale, r.groups.as_slice()),
        (1, 0, 0, 0, &[0u16][..])
    );
    let r = SqlNumericI80F48(0).to_record();
    assert_eq!(
        (r.num_groups, r.weight, r.sign, r.dscale, r.groups.as_slice()),
        (1, 0, 0, 16, &[0u16][..])
    );
}

#[test]
fn fixed_point_one() {
    // +1 is raw 2^48.
    let r = SqlNumericI80F48(1i128 << 48).to_record();
    check_wf(&r);
    assert_eq!(r.weight, 0);
    assert_eq!(r.sign, 0);
    assert_eq!(r.dscale, 16);
    assert_eq!(r.groups.as_slice(), &[1, 0, 0, 0, 0]);

    let r = SqlNumericI80F48(-(1i128 << 48)).to_record();
    check_wf(&r);
    assert_eq!(r.weight, 0);
    assert_eq!(r.sign, 0x4000);
    assert_eq!(r.dscale, 16);
    assert_eq!(r.groups.as_slice(), &[1, 0, 0, 0, 0]);
}

#[test]
fn fixed_point_below_one() {
    // 0.5 has no integer digits: the weight stays 0 and the leading group
    // is the zero integer group.
    let r = SqlNumericI80F48(1i128 << 47).to_record();
    check_wf(&r);
    assert_eq!(r.weight, 0);
    assert_eq!(r.dscale, 16);
    assert_eq!(r.groups.as_slice(), &[0, 5000, 0, 0, 0]);
}

#[test]
fn i128_power_of_10000() {
    // An exact power of 10000 starts a new group.
    let r = SqlNumericI128(100_000_000).to_record();
    assert_eq!(r.weight, 2);
    assert_eq!(r.groups.as_slice(), &[1, 0, 0]);
    let r = SqlNumericI128(99_999_999).to_record();
    assert_eq!(r.weight, 1);
    assert_eq!(r.groups.as_slice(), &[9999, 9999]);
}

#[test]
fn i128_12345() {
    let r = SqlNumericI128(12345).to_record();
    check_wf(&r);
    assert_eq!(r.num_groups, 2);
    assert_eq!(r.weight, 1);
    assert_eq!(r.sign, 0);
    assert_eq!(r.dscale, 0);
    assert_eq!(r.groups.as_slice(), &[1, 2345]);
}

#[test]
fn i128_34_nines_negative() {
    // -(10^34 - 1): 34 nines, through the 128-bit logarithm path, checked
    // against a string-based reference.
    let m = 10i128.pow(34) - 1;
    let r = SqlNumericI128(-m).to_record();
    check_wf(&r);
    assert_eq!(r.sign, 0x4000);
    assert_eq!(r.dscale, 0);
    assert_eq!(r.num_groups, 9);
    assert_eq!(r.weight, 8);
    let expected = groups_from_string(&m.to_string(), 9);
    assert_eq!(r.groups.as_slice(), expected.as_slice());
}

#[test]
fn u64_round_trip() {
    for v in [
        0u64,
        1,
        9,
        10,
        9999,
        10000,
        10001,
        99999999,
        123456789,
        10u64.pow(16),
        u64::MAX,
    ] {
        let r = SqlNumericU64(v).to_record();
        check_wf(&r);
        assert_eq!(reconstruct(&r.groups), v as u128, "round trip of {}", v);
        assert_eq!(r.weight as usize + 1, r.groups.len());
        assert_eq!((r.sign, r.dscale), (0, 0));
        if v > 0 {
            assert!(r.groups[0] > 0, "leading zero group for {}", v);
        }
    }
}

#[test]
fn i128_round_trip() {
    for v in [
        0i128,
        1,
        -1,
        9999,
        -10000,
        12345,
        10i128.pow(33),
        -(10i128.pow(33)),
        i128::MAX,
        i128::MIN,
    ] {
        let r = SqlNumericI128(v).to_record();
        check_wf(&r);
        assert_eq!(reconstruct(&r.groups), v.unsigned_abs(), "round trip of {}", v);
        assert_eq!(r.weight as usize + 1, r.groups.len());
        assert_eq!(r.sign, if v < 0 { 0x4000 } else { 0 });
        assert_eq!(r.dscale, 0);
        if v != 0 {
            assert!(r.groups[0] > 0, "leading zero group for {}", v);
        }
    }
}

#[test]
fn fixed_point_round_trip() {
    // Raw values small enough that |raw| * 10^16 fits in u128, so the
    // expected truncation can be computed directly.
    for raw in [
        1i128,
        -1,
        (1i128 << 48) + (1 << 47),  // 1.5
        -((1i128 << 48) + (1 << 47)),
        (1i128 << 47),              // 0.5
        12345i128 << 48,
        (12345i128 << 48) + 99,
        (1i128 << 48) / 3,
    ] {
        let r = SqlNumericI80F48(raw).to_record();
        check_wf(&r);
        let m = raw.unsigned_abs();
        let expected = m * 10u128.pow(16) >> 48;
        assert_eq!(reconstruct(&r.groups), expected, "round trip of raw {}", raw);
        assert_eq!(r.weight as usize + 5, r.groups.len());
        assert_eq!(r.dscale, 16);
        assert_eq!(r.sign, if raw < 0 { 0x4000 } else { 0 });
    }
}

#[test]
fn fixed_point_crate_agrees() {
    // The raw form handed to the encoder is exactly the bit pattern of the
    // fixed crate's Q80.48 type.
    assert_eq!(I80F48::from_num(1).to_bits(), 1i128 << 48);
    assert_eq!(I80F48::from_num(-1).to_bits(), -(1i128 << 48));
    let v = I80F48::from_num(2.5);
    let r = SqlNumericI80F48(v.to_bits()).to_record();
    assert_eq!(r.groups.as_slice(), &[2, 5000, 0, 0, 0]);
    assert_eq!(r.weight, 0);
}

#[test]
fn group_ranges_full_width() {
    // Every group stays in [0, 9999] at the extremes of each source type.
    for v in [u64::MAX, u64::MAX - 1, 1, 10000, 9999] {
        check_wf(&SqlNumericU64(v).to_record());
    }
    for v in [i128::MAX, i128::MIN, i128::MIN + 1, -1, 1] {
        check_wf(&SqlNumericI128(v).to_record());
    }
    for raw in [i128::MAX, i128::MIN, i128::MIN + 1, -1, 1, i128::MAX / 3] {
        check_wf(&SqlNumericI80F48(raw).to_record());
    }
}

#[test]
fn wire_bytes_u64() {
    let mut out = BytesMut::new();
    SqlNumericU64(5).encode(&mut out);
    assert_eq!(&out[..], &[0, 1, 0, 0, 0, 0, 0, 0, 0, 5]);

    let mut out = BytesMut::new();
    SqlNumericU64(10000).encode(&mut out);
    assert_eq!(&out[..], &[0, 2, 0, 1, 0, 0, 0, 0, 0, 1, 0, 0]);
}

#[test]
fn wire_bytes_i128() {
    let mut out = BytesMut::new();
    out.extend_from_slice(&[0xAA]);
    SqlNumericI128(-12345).encode(&mut out);
    // Appends after existing bytes; 2345 = 0x0929.
    assert_eq!(
        &out[..],
        &[0xAA, 0, 2, 0, 1, 0x40, 0, 0, 0, 0, 1, 0x09, 0x29]
    );
}

#[test]
fn wire_bytes_fixed_point() {
    let mut out = BytesMut::new();
    SqlNumericI80F48(1i128 << 48).encode(&mut out);
    assert_eq!(
        &out[..],
        &[0, 5, 0, 0, 0, 0, 0, 16, 0, 1, 0, 0, 0, 0, 0, 0, 0, 0]
    );

    let mut out = BytesMut::new();
    SqlNumericI80F48(0).encode(&mut out);
    assert_eq!(&out[..], &[0, 1, 0, 0, 0, 0, 0, 16, 0, 0]);
}

#[test]
fn table_names() {
    assert_eq!(MangoAccountTable {}.table_name(), "mango_account_write");
    assert_eq!(MangoGroupTable {}.table_name(), "mango_group_write");
    assert_eq!(MangoCacheTable {}.table_name(), "mango_cache_write");
}
