//! Documents and texts.

use serde_json::Value;

use dap_mux::json::{json_from_value, parse, print, value_from_json, Json};
use dap_mux::text::{contains, decimal_string, parse_unsigned, trim, NumberError};

fn round_trip(text: &str) {
    let value: Value = serde_json::from_str(text).unwrap();
    let json = json_from_value(value.clone());
    assert_eq!(value_from_json(&json), value);
    let printed = print(&json);
    assert_eq!(printed, serde_json::to_vec(&value).unwrap());
    assert_eq!(value_from_json(&parse(&printed).unwrap()), value);
    assert_eq!(value_from_json(&json.clone()), value);
}

#[test]
fn documents_survive() {
    round_trip("null");
    round_trip("[true, false, null, []]");
    round_trip(r#"{"a": {"b": [1, -2, 9223372036854775807, 18446744073709551615]}}"#);
    round_trip(r#"{"x": 1.5, "y": -0.25, "z": 1e300}"#);
    round_trip(r#""quote \" and \\ and é and 世""#);
}

#[test]
fn a_bad_document_is_refused() {
    assert!(parse(b"").is_err());
    assert!(parse(b"{\"a\":}").is_err());
    assert!(parse(b"1 2").is_err());
}

#[test]
fn members_are_read_and_set() {
    let mut json = parse(br#"{"a": "x", "b": 3, "c": true, "d": 1.5}"#).unwrap();
    assert_eq!(json.get_str("a"), Some("x"));
    assert_eq!(json.get_str("b"), None);
    assert_eq!(json.get_i64("b"), Some(3));
    assert_eq!(json.get_i64("d"), None);
    assert_eq!(json.get_i64("missing"), None);
    assert!(json.get_flag("c"));
    assert!(!json.get_flag("a"));
    assert!(json.has_text("a", "x"));
    assert!(!json.has_text("a", "y"));
    json.set("a", Json::integer(-7));
    json.set("e", Json::text("new"));
    assert_eq!(json.get_i64("a"), Some(-7));
    assert_eq!(json.get_str("e"), Some("new"));
    assert_eq!(json.get("c").unwrap().as_bool(), Some(true));
    assert_eq!(json.get("c").unwrap().as_str(), None);
    assert!(Json::Null.get("a").is_none());
    assert_eq!(print(&Json::object()), b"{}".to_vec());
}

#[test]
fn the_last_of_two_equal_keys_counts() {
    let json = parse(br#"{"a": 1, "a": 2}"#).unwrap();
    assert_eq!(json.get_i64("a"), Some(2));
}

#[test]
fn large_numbers_are_no_i64() {
    let json = parse(br#"{"a": 9223372036854775808, "b": -9223372036854775808}"#).unwrap();
    assert_eq!(json.get_i64("a"), None);
    assert_eq!(json.get_i64("b"), Some(i64::MIN));
}

#[test]
fn texts() {
    assert!(contains("not found", "found"));
    assert!(contains("x", ""));
    assert!(!contains("foun", "found"));
    assert_eq!(trim("\u{3000} a b\t\r\n"), "a b");
    assert_eq!(trim(" \n"), "");
    assert_eq!(decimal_string(0), "0");
    assert_eq!(decimal_string(u64::MAX), "18446744073709551615");
    assert_eq!(parse_unsigned("65535", 65535), Ok(65535));
    assert_eq!(parse_unsigned("+1", 9), Ok(1));
    assert_eq!(parse_unsigned("65536", 65535), Err(NumberError::TooLarge));
    assert_eq!(parse_unsigned("", 9), Err(NumberError::Empty));
    assert_eq!(parse_unsigned("+", 9), Err(NumberError::InvalidDigit));
    assert_eq!(parse_unsigned("1 ", 9), Err(NumberError::InvalidDigit));
}
