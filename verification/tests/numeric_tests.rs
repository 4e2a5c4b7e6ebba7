use plat::numeric::{encode_bits, encode_int, parse_int};

#[test]
fn parse_int_reads_signs_and_digits() {
    assert_eq!(parse_int("0", false), Some(0));
    assert_eq!(parse_int("42", false), Some(42));
    assert_eq!(parse_int("+42", false), Some(42));
    assert_eq!(parse_int("-42", false), Some(-42));
    assert_eq!(parse_int("-0", false), Some(0));
    assert_eq!(parse_int("0000000000000000000000000007", false), Some(7));
}

#[test]
fn parse_int_rejects_what_is_no_integer() {
    assert_eq!(parse_int("", false), None);
    assert_eq!(parse_int("+", false), None);
    assert_eq!(parse_int("-", false), None);
    assert_eq!(parse_int("12a", false), None);
    assert_eq!(parse_int("1.5", false), None);
    assert_eq!(parse_int(" 1", false), None);
    assert_eq!(parse_int("x", true), None);
    assert_eq!(parse_int("--1", true), None);
    assert_eq!(parse_int("\u{0663}", true), None);
}

#[test]
fn parse_int_keeps_to_the_width() {
    assert_eq!(parse_int("2147483647", false), Some(2147483647));
    assert_eq!(parse_int("2147483648", false), None);
    assert_eq!(parse_int("-2147483648", false), Some(-2147483648));
    assert_eq!(parse_int("-2147483649", false), None);
    assert_eq!(parse_int("2147483648", true), Some(2147483648));
    assert_eq!(parse_int("9223372036854775807", true), Some(i64::MAX));
    assert_eq!(parse_int("9223372036854775808", true), None);
    assert_eq!(parse_int("-9223372036854775808", true), Some(i64::MIN));
    assert_eq!(parse_int("-9223372036854775809", true), None);
    assert_eq!(parse_int("99999999999999999999999999999999", true), None);
}

#[test]
fn encode_int_stops_at_the_first_zero_byte() {
    assert_eq!(encode_int(0, false), vec![0x00]);
    assert_eq!(encode_int(1, false), vec![0x01]);
    assert_eq!(encode_int(255, false), vec![0xFF]);
    assert_eq!(encode_int(0x0102, false), vec![0x02, 0x01]);
    assert_eq!(encode_int(0x01020304, false), vec![0x04, 0x03, 0x02, 0x01]);
    assert_eq!(encode_int(-1, false), vec![0xFF, 0xFF, 0xFF, 0xFF]);
    assert_eq!(encode_int(-1, true), vec![0xFF; 8]);
    assert_eq!(encode_int(-2147483648, false), vec![0x00]);
    assert_eq!(encode_int(i64::MIN, true), vec![0x00]);
    assert_eq!(encode_int(i64::MAX, true), vec![0xFF, 0xFF, 0xFF, 0xFF, 0xFF, 0xFF, 0xFF, 0x7F]);
}

#[test]
fn encode_int_loses_what_lies_above_a_zero_byte() {
    assert_eq!(encode_int(256, false), vec![0x00]);
    assert_eq!(encode_int(256, true), vec![0x00]);
    assert_eq!(encode_int(0x010001, false), vec![0x01]);
    assert_eq!(encode_int(0x01000203, true), vec![0x03, 0x02]);
    assert_eq!(encode_int(-256, false), vec![0x00]);
}

#[test]
fn encode_int_reads_back_where_no_zero_byte_lies_below_another() {
    for v in [1i64, 77, 255, 257, 0x7FFF, 0x010101, 0x7FFFFFFF, -1, -2] {
        let bytes = encode_int(v, false);
        let mut padded = [0u8; 4];
        padded[..bytes.len()].copy_from_slice(&bytes);
        assert_eq!(i32::from_le_bytes(padded) as i64, v);
    }
}

#[test]
fn encode_bits_writes_every_byte() {
    assert_eq!(encode_bits(0, false), vec![0, 0, 0, 0]);
    assert_eq!(encode_bits(0, true), vec![0; 8]);
    assert_eq!(encode_bits(0x3F800000, false), vec![0x00, 0x00, 0x80, 0x3F]);
    assert_eq!(
        encode_bits(0x0102030405060708, true),
        vec![0x08, 0x07, 0x06, 0x05, 0x04, 0x03, 0x02, 0x01]
    );
    assert_eq!(encode_bits(0x0102030405060708, false), vec![0x08, 0x07, 0x06, 0x05]);
}
