//! Tests for numeric value parsing and the text utilities.

use gcode_language_server::text::{split_lines, str_eq_ignore_case, to_upper};
use gcode_language_server::value::{parse_i64, Decimal};

#[test]
fn decimal_parse_exact_values() {
    assert_eq!(Decimal::parse("10.5").unwrap().units, 10_500_000_000);
    assert_eq!(Decimal::parse("-999.0").unwrap().units, -999_000_000_000);
    assert_eq!(Decimal::parse("0").unwrap().units, 0);
    assert_eq!(Decimal::parse("+3").unwrap().units, 3_000_000_000);
    assert_eq!(Decimal::parse(".5").unwrap().units, 500_000_000);
    assert_eq!(Decimal::parse("2.").unwrap().units, 2_000_000_000);
    assert_eq!(Decimal::parse("0.000000001").unwrap().units, 1);
}

#[test]
fn decimal_parse_rejects_bad_grammar() {
    assert!(Decimal::parse("").is_none());
    assert!(Decimal::parse("abc").is_none());
    assert!(Decimal::parse("10.5a").is_none());
    assert!(Decimal::parse("-").is_none());
    assert!(Decimal::parse(".").is_none());
    assert!(Decimal::parse("1.2.3").is_none());
    assert!(Decimal::parse("1e5").is_none());
}

#[test]
fn decimal_comparisons() {
    let a = Decimal::parse("1.25").unwrap();
    let b = Decimal::parse("1.3").unwrap();
    assert!(a.lt(&b));
    assert!(b.gt(&a));
    assert!(!a.gt(&b));
    assert_eq!(Decimal::parse("1.50").unwrap(), Decimal::parse("1.5").unwrap());
}

#[test]
fn parse_i64_values_and_limits() {
    assert_eq!(parse_i64("42"), Some(42));
    assert_eq!(parse_i64("-7"), Some(-7));
    assert_eq!(parse_i64("+0"), Some(0));
    assert_eq!(parse_i64("9223372036854775807"), Some(i64::MAX));
    assert_eq!(parse_i64("-9223372036854775808"), Some(i64::MIN));
    assert_eq!(parse_i64("9223372036854775808"), None);
    assert_eq!(parse_i64("10.5"), None);
    assert_eq!(parse_i64(""), None);
    assert_eq!(parse_i64("abc"), None);
}

#[test]
fn upper_casing_folds_ascii_only() {
    assert_eq!(to_upper("g1 x10"), "G1 X10");
    assert!(str_eq_ignore_case("TrUe", "true"));
    assert!(!str_eq_ignore_case("on", "off"));
}

#[test]
fn split_lines_matches_line_semantics() {
    let lines = split_lines("a\nb\r\nc");
    assert_eq!(lines, vec!["a".to_string(), "b".to_string(), "c".to_string()]);
    let lines = split_lines("a\n");
    assert_eq!(lines, vec!["a".to_string()]);
    let lines = split_lines("");
    assert!(lines.is_empty());
}
