use hull::mac::{format_mac, parse_mac};
use hull::text::{chars_of, format_ipv4, parse_ipv4, parse_unsigned, split_once, IntErrorKind, int_error_kind};
use hull::text::{contains_text, join_texts, push_decimal_u32, trim_ascii};

#[test]
fn ipv4_text_round_trip() {
    assert_eq!(parse_ipv4("10.1.2.3"), Some(0x0a01_0203));
    assert_eq!(format_ipv4(0x0a01_0203), "10.1.2.3");
    assert_eq!(format_ipv4(0), "0.0.0.0");
    assert_eq!(format_ipv4(u32::MAX), "255.255.255.255");
    for a in [0u32, 1, 0x7f00_0001, 0xc0a8_0101, u32::MAX] {
        assert_eq!(parse_ipv4(&format_ipv4(a)), Some(a));
    }
}

#[test]
fn ipv4_parse_refuses_malformed_text() {
    for text in ["1.2.3", "1.2.3.4.5", "256.0.0.1", "01.2.3.4", "1.2.3.", "", "a.b.c.d", "1..2.3", "+1.2.3.4"] {
        assert_eq!(parse_ipv4(text), None, "{text}");
    }
    assert_eq!(parse_ipv4("0.0.0.0"), Some(0));
}

#[test]
fn mac_text_round_trip() {
    assert_eq!(parse_mac("52:54:00:ab:CD:ef"), Some([0x52, 0x54, 0x00, 0xab, 0xcd, 0xef]));
    assert_eq!(format_mac([0x52, 0x54, 0x00, 0xab, 0xcd, 0xef]), "52:54:00:ab:cd:ef");
    assert_eq!(parse_mac("52:54:00:ab:cd"), None);
    assert_eq!(parse_mac("52:54:00:ab:cd:ef:01"), None);
    assert_eq!(parse_mac("52:54:00:ab:cd:xg"), None);
    assert_eq!(parse_mac("5:4:0:a:c:e"), Some([5, 4, 0, 0xa, 0xc, 0xe]));
    assert_eq!(parse_mac("+5:4:0:a:c:e"), Some([5, 4, 0, 0xa, 0xc, 0xe]));
    assert_eq!(parse_mac("105:4:0:a:c:e"), None);
}

#[test]
fn unsigned_parse_like_std() {
    let p = |s: &str, max: u64| parse_unsigned(&chars_of(s), max);
    assert_eq!(p("255", 255), Some(255));
    assert_eq!(p("+7", 255), Some(7));
    assert_eq!(p("007", 255), Some(7));
    assert_eq!(p("256", 255), None);
    assert_eq!(p("", 255), None);
    assert_eq!(p("4294967295", 0xffff_ffff), Some(4_294_967_295));
    assert_eq!(int_error_kind(&chars_of(""), 255), IntErrorKind::Empty);
    assert_eq!(int_error_kind(&chars_of("+"), 255), IntErrorKind::InvalidDigit);
    assert_eq!(int_error_kind(&chars_of("1x"), 255), IntErrorKind::InvalidDigit);
    assert_eq!(int_error_kind(&chars_of("300"), 255), IntErrorKind::PosOverflow);
}

#[test]
fn split_at_first_separator() {
    assert_eq!(split_once("10.0.0.0/24/1", '/'), ("10.0.0.0".to_string(), Some("24/1".to_string())));
    assert_eq!(split_once("abc", '/'), ("abc".to_string(), None));
    assert_eq!(split_once("/x", '/'), (String::new(), Some("x".to_string())));
}

#[test]
fn trimming_searching_and_joining() {
    assert_eq!(trim_ascii(" \t ab c\n"), "ab c");
    assert_eq!(trim_ascii("   "), "");
    assert!(contains_text("File exists", "exists"));
    assert!(contains_text("abc", ""));
    assert!(!contains_text("ab", "abc"));
    assert_eq!(join_texts(&vec!["a".to_string(), "b".to_string(), "c".to_string()], ","), "a,b,c");
    assert_eq!(join_texts(&vec![], ","), "");
    let mut s = String::from("p=");
    push_decimal_u32(&mut s, 4_000_000_123);
    assert_eq!(s, "p=4000000123");
    let mut z = String::new();
    push_decimal_u32(&mut z, 0);
    assert_eq!(z, "0");
}
