use betrayal::memory::ReadFromBytes;

fn round_trip<T: ReadFromBytes + PartialEq + std::fmt::Debug>(v: T) {
    let bytes = v.write_bytes();
    let back = T::read_value(&bytes).unwrap();
    assert_eq!(back, v);
}

#[test]
fn test_round_trip_every_kind() {
    round_trip(0u8);
    round_trip(255u8);
    round_trip(-32768i16);
    round_trip(2137i16);
    round_trip(65535u16);
    round_trip(-2147483648i32);
    round_trip(2137i32);
    round_trip(4294967295u32);
    round_trip(-9223372036854775808i64);
    round_trip(2137i64);
    round_trip(18446744073709551615u64);
}

#[test]
fn test_little_endian_decode() {
    // 0xDEADBEEF little-endian
    let bytes = vec![0xEFu8, 0xBE, 0xAD, 0xDE];
    assert_eq!(u32::read_value(&bytes).unwrap(), 0xDEADBEEF);
    let bytes = vec![11u8, 0, 0, 0];
    assert_eq!(i32::read_value(&bytes).unwrap(), 11);
    let bytes = vec![7u8, 0];
    assert_eq!(u16::read_value(&bytes).unwrap(), 7);
}

#[test]
fn test_encode_is_little_endian() {
    assert_eq!(0xDEADBEEFu32.write_bytes(), vec![0xEF, 0xBE, 0xAD, 0xDE]);
    assert_eq!(513u16.write_bytes(), vec![1, 2]);
    assert_eq!((-1i16).write_bytes(), vec![0xFF, 0xFF]);
}

#[test]
fn test_candidate_enumeration_count() {
    // a span of n bytes yields n - size + 1 candidates
    let bytes: Vec<u8> = (0u8..=9).collect();
    assert_eq!(u8::possible_values(&bytes, 100).len(), 10);
    assert_eq!(u16::possible_values(&bytes, 100).len(), 9);
    assert_eq!(u32::possible_values(&bytes, 100).len(), 7);
    assert_eq!(u64::possible_values(&bytes, 100).len(), 3);
    // too short a span yields nothing
    let short = vec![1u8, 2, 3];
    assert_eq!(u32::possible_values(&short, 0).len(), 0);
    assert_eq!(u64::possible_values(&short, 0).len(), 0);
}

#[test]
fn test_candidate_enumeration_addresses_and_values() {
    let bytes = vec![1u8, 0, 2, 0, 3];
    let found = u16::possible_values(&bytes, 1000);
    assert_eq!(found, vec![(1000, 1u16), (1001, 512), (1002, 2), (1003, 768)]);
}

#[test]
fn test_parse_value_ranges() {
    assert_eq!(u8::parse_value("255"), Some(255));
    assert_eq!(u8::parse_value("256"), None);
    assert_eq!(i16::parse_value("-32768"), Some(-32768));
    assert_eq!(i16::parse_value("-32769"), None);
    assert_eq!(i32::parse_value("2137"), Some(2137));
    assert_eq!(i32::parse_value("xyz"), None);
    assert_eq!(u64::parse_value("18446744073709551615"), Some(u64::MAX));
    assert_eq!(u64::parse_value("18446744073709551616"), None);
    assert_eq!(u32::parse_value("-1"), None);
    assert_eq!(u32::parse_value("-0"), Some(0));
}

#[test]
fn test_value_arithmetic_wraps() {
    assert_eq!(255u8.value_add(&1), 0);
    assert_eq!(0u8.value_sub(&1), 255);
    assert_eq!(0xDEADBEF0u32.value_add(&u32::MAX), 0xDEADBEEF);
    assert_eq!(i32::MAX.value_add(&1), i32::MIN);
}

#[test]
fn test_value_comparisons() {
    assert!(3i32.value_le(&4));
    assert!(!4i32.value_le(&3));
    assert!((-5i16).value_le(&5));
    assert!(7u64.value_eq(&7));
    assert!(!7u64.value_eq(&8));
}

#[test]
fn test_usize_conversions() {
    assert_eq!(u32::from_usize(70000), Some(70000u32));
    assert_eq!(u8::from_usize(70000), None);
    assert_eq!((-1i32).to_usize(), None);
    assert_eq!(2137i64.to_usize(), Some(2137));
}
