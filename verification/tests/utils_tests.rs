use aggregator::utils::{
    decimal_string, format_amount, format_amount_of, idl_to_string, idl_to_u64, idl_to_u8,
    MetadataValue, DAY_NS, MINUTE_NS, WEEK_NS, WEEK_SECS,
};
use candid::Nat;

#[test]
fn format_amount_basic() {
    assert_eq!(format_amount(Nat::from(1000u64), 0), "1000");
    assert_eq!(format_amount(Nat::from(12345u64), 2), "123.45");
    assert_eq!(format_amount(Nat::from(5u64), 3), "0.005");
}

#[test]
fn format_amount_of_zero() {
    assert_eq!(format_amount(Nat::from(0u64), 0), "0");
    assert_eq!(format_amount(Nat::from(0u64), 4), "0.0000");
}

#[test]
fn format_amount_keeps_every_digit_of_a_large_balance() {
    let n = Nat::parse(b"123456789012345678901234567890123456789").unwrap();
    assert_eq!(format_amount_of(&n, 18), "123456789012345678901.234567890123456789");
    assert_eq!(format_amount_of(&n, 0), "123456789012345678901234567890123456789");
}

#[test]
fn format_amount_with_more_decimals_than_digits() {
    assert_eq!(format_amount(Nat::from(7u64), 255).len(), 2 + 255);
    assert_eq!(format_amount(Nat::from(1234u64), 2), "12.34");
    assert_eq!(format_amount(Nat::from(100u64), 2), "1.00");
}

#[test]
fn decimal_string_of_numbers() {
    assert_eq!(decimal_string(0), "0");
    assert_eq!(decimal_string(9), "9");
    assert_eq!(decimal_string(10), "10");
    assert_eq!(decimal_string(u128::MAX), u128::MAX.to_string());
}

#[test]
fn idl_values_read_as_numbers() {
    assert_eq!(idl_to_u64(&MetadataValue::Nat(Nat::from(10u64))), Some(10));
    assert_eq!(idl_to_u64(&MetadataValue::Nat8(8)), Some(8));
    assert_eq!(idl_to_u64(&MetadataValue::Nat16(16)), Some(16));
    assert_eq!(idl_to_u64(&MetadataValue::Nat32(32)), Some(32));
    assert_eq!(idl_to_u64(&MetadataValue::Nat64(u64::MAX)), Some(u64::MAX));
    assert_eq!(idl_to_u64(&MetadataValue::Text("1".to_string())), None);
    assert_eq!(idl_to_u64(&MetadataValue::Other), None);
}

#[test]
fn idl_natural_beyond_64_bits_reads_as_zero() {
    let big = Nat::parse(b"18446744073709551616").unwrap();
    assert_eq!(idl_to_u64(&MetadataValue::Nat(big)), Some(0));
    let edge = Nat::parse(b"18446744073709551615").unwrap();
    assert_eq!(idl_to_u64(&MetadataValue::Nat(edge)), Some(u64::MAX));
}

#[test]
fn idl_to_u8_keeps_the_low_byte() {
    assert_eq!(idl_to_u8(&MetadataValue::Nat64(258)), Some(2));
    assert_eq!(idl_to_u8(&MetadataValue::Nat8(255)), Some(255));
    assert_eq!(idl_to_u8(&MetadataValue::Other), None);
}

#[test]
fn idl_to_string_reads_text_only() {
    assert_eq!(idl_to_string(&MetadataValue::Text("AAA".to_string())), Some("AAA".to_string()));
    assert_eq!(idl_to_string(&MetadataValue::Nat8(1)), None);
}

#[test]
fn time_constants() {
    assert_eq!(MINUTE_NS, 60 * 1_000_000_000);
    assert_eq!(DAY_NS, 24 * 60 * MINUTE_NS);
    assert_eq!(WEEK_NS, 7 * DAY_NS);
    assert_eq!(WEEK_SECS, 7 * 86_400);
}
