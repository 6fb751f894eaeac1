use rgdb::number::{addr_to_u64, parse_u64, u64_to_string};
use rgdb::text::{apply_string_escapes, vec_string_to_string};

#[test]
fn test_addr_to_u64() {
    assert_eq!(addr_to_u64("0x1234"), Some(0x1234_u64));
    assert_eq!(addr_to_u64("0x00001234"), Some(0x1234_u64));
    assert_eq!(addr_to_u64("1234"), None);
}

#[test]
fn addresses_edge_cases() {
    assert_eq!(addr_to_u64("0x"), None);
    assert_eq!(addr_to_u64("0xffffffffffffffff"), Some(u64::MAX));
    assert_eq!(addr_to_u64("0x10000000000000000"), None);
    assert_eq!(addr_to_u64("0xAbC"), Some(0xabc));
    assert_eq!(addr_to_u64("0xg"), None);
}

#[test]
fn decimal_numbers() {
    assert_eq!(parse_u64("27"), Some(27));
    assert_eq!(parse_u64("+5"), Some(5));
    assert_eq!(parse_u64("+"), None);
    assert_eq!(parse_u64(""), None);
    assert_eq!(parse_u64("18446744073709551615"), Some(u64::MAX));
    assert_eq!(parse_u64("18446744073709551616"), None);
    assert_eq!(parse_u64("1a"), None);
    assert_eq!(u64_to_string(7519), "7519");
    assert_eq!(u64_to_string(0), "0");
}

#[test]
fn string_helpers() {
    assert_eq!(vec_string_to_string(vec!["ab".to_string(), "".to_string(), "c".to_string()]), "abc");
    assert_eq!(apply_string_escapes("a\"b\\c"), "a\\\"b\\\\c");
}
