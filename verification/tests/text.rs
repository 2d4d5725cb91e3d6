use serapod::text::{decimal, eq_ignore_ascii_case, parse_unsigned, strip_prefix, strip_suffix, take_chars, to_ascii_lower, to_hex_lower};

#[test]
fn unsigned_numbers_as_the_standard_parser_reads_them() {
    assert_eq!(parse_unsigned("0", 65535), Some(0));
    assert_eq!(parse_unsigned("+42", 65535), Some(42));
    assert_eq!(parse_unsigned("00065535", 65535), Some(65535));
    assert_eq!(parse_unsigned("65536", 65535), None);
    assert_eq!(parse_unsigned("", 65535), None);
    assert_eq!(parse_unsigned("+", 65535), None);
    assert_eq!(parse_unsigned("-1", 65535), None);
    assert_eq!(parse_unsigned("1 ", 65535), None);
    assert_eq!(parse_unsigned("18446744073709551615", u64::MAX), Some(u64::MAX));
    assert_eq!(parse_unsigned("18446744073709551616", u64::MAX), None);
}

#[test]
fn decimal_and_hex_text() {
    assert_eq!(decimal(0), "0");
    assert_eq!(decimal(1234567890), "1234567890");
    assert_eq!(decimal(u64::MAX), "18446744073709551615");
    assert_eq!(to_hex_lower(&[0x00, 0x0f, 0xa0, 0xff]), "000fa0ff");
    assert_eq!(to_hex_lower(&[]), "");
}

#[test]
fn affixes_and_case() {
    assert_eq!(strip_prefix("v1.0", "v"), Some("1.0".to_string()));
    assert_eq!(strip_prefix("1.0", "v"), None);
    assert_eq!(strip_suffix("a.exe", ".exe"), Some("a".to_string()));
    assert_eq!(strip_suffix("exe", ".exe"), None);
    assert_eq!(take_chars("héllo", 2), "hé");
    assert_eq!(take_chars("hi", 5), "hi");
    assert_eq!(to_ascii_lower("ÀbC"), "Àbc");
    assert!(eq_ignore_ascii_case("SERAPOD", "serapod"));
    assert!(!eq_ignore_ascii_case("é", "É"));
}
