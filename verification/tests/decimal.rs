//! Decimal rendering, as the protocol writes a poll timeout into the URL and
//! a queue size into a response body.

use hazelcast_rest::digits::i32_to_decimal;
use hazelcast_rest::digits::u64_to_decimal;

#[test]
fn renders_zero() {
    assert_eq!(u64_to_decimal(0), "0");
}

#[test]
fn renders_single_digit() {
    assert_eq!(u64_to_decimal(7), "7");
}

#[test]
fn renders_multi_digit() {
    assert_eq!(u64_to_decimal(1234567890), "1234567890");
}

#[test]
fn renders_u64_max() {
    assert_eq!(u64_to_decimal(u64::MAX), "18446744073709551615");
}

#[test]
fn renders_positive_timeout() {
    assert_eq!(i32_to_decimal(10), "10");
}

#[test]
fn renders_negative_timeout() {
    assert_eq!(i32_to_decimal(-7), "-7");
}

#[test]
fn renders_i32_min() {
    assert_eq!(i32_to_decimal(i32::MIN), "-2147483648");
}

#[test]
fn renders_i32_max() {
    assert_eq!(i32_to_decimal(i32::MAX), "2147483647");
}
