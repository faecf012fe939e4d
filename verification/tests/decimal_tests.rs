use memebot::decimal::{fmt_price, fmt_u64, parse_price, Price, SCALE};

fn parse(s: &str) -> Option<Price> {
    parse_price(&s.as_bytes().to_vec())
}

#[test]
fn parses_plain_fractions() {
    assert_eq!(parse("0.75").unwrap().units, 75_000_000);
    assert_eq!(parse("1.2").unwrap().units, 120_000_000);
    assert_eq!(parse("0.80").unwrap().units, 80_000_000);
    assert_eq!(parse("1.21").unwrap().units, 121_000_000);
    assert_eq!(parse("0.00000001").unwrap().units, 1);
    assert_eq!(parse("1.12345678").unwrap().units, 112_345_678);
}

#[test]
fn parses_integers() {
    assert_eq!(parse("0").unwrap().units, 0);
    assert_eq!(parse("10").unwrap().units, 10 * SCALE);
    assert_eq!(parse("007").unwrap().units, 7 * SCALE);
    assert_eq!(
        parse("99999999999").unwrap().units,
        9_999_999_999_900_000_000
    );
}

#[test]
fn rejects_non_numeric_strings() {
    assert!(parse("").is_none());
    assert!(parse("abc").is_none());
    assert!(parse("1..2").is_none());
    assert!(parse("1.2.3").is_none());
    assert!(parse(".5").is_none());
    assert!(parse("5.").is_none());
    assert!(parse("-1").is_none());
    assert!(parse("1,5").is_none());
    assert!(parse(" 1").is_none());
}

#[test]
fn rejects_out_of_range_literals() {
    assert!(parse("1.123456789").is_none());
    assert!(parse("184467440737").is_none());
    assert!(parse("100000000000").is_none());
}

#[test]
fn formats_integers() {
    assert_eq!(fmt_u64(0), b"0".to_vec());
    assert_eq!(fmt_u64(7), b"7".to_vec());
    assert_eq!(fmt_u64(10), b"10".to_vec());
    assert_eq!(fmt_u64(1_700_000_000_123), b"1700000000123".to_vec());
    assert_eq!(fmt_u64(u64::MAX), b"18446744073709551615".to_vec());
}

#[test]
fn formats_prices_canonically() {
    assert_eq!(fmt_price(Price { units: 10 * SCALE }), b"10".to_vec());
    assert_eq!(fmt_price(Price { units: 75_000_000 }), b"0.75".to_vec());
    assert_eq!(fmt_price(Price { units: 150_000_000 }), b"1.5".to_vec());
    assert_eq!(fmt_price(Price { units: 1 }), b"0.00000001".to_vec());
    assert_eq!(fmt_price(Price { units: 120_000_000 }), b"1.2".to_vec());
    assert_eq!(fmt_price(Price { units: 0 }), b"0".to_vec());
}

#[test]
fn formatting_then_parsing_returns_the_value() {
    for units in [
        0u64,
        1,
        75_000_000,
        100_000_000,
        121_000_000,
        10 * SCALE,
        9_999_999_999_999_999_999,
    ] {
        let text = fmt_price(Price { units });
        assert_eq!(parse_price(&text).unwrap().units, units);
    }
}
