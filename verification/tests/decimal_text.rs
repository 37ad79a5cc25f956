use embed_wasm::decimal::{parse_u32, u32_to_decimal};

#[test]
fn formats_zero_and_extremes() {
    assert_eq!(u32_to_decimal(0), "0");
    assert_eq!(u32_to_decimal(7), "7");
    assert_eq!(u32_to_decimal(10), "10");
    assert_eq!(u32_to_decimal(4294967295), "4294967295");
}

#[test]
fn formats_like_display() {
    for n in [1u32, 9, 99, 100, 12345, 1000000, 4000000000] {
        assert_eq!(u32_to_decimal(n), format!("{}", n));
    }
}

#[test]
fn parses_like_from_str() {
    let cases = [
        "", "+", "-", "0", "+0", "007", "42", "+42", "-42", "4294967295", "4294967296",
        "99999999999999999999", "1a", " 1", "1 ", "++1", "0000000000000000000000012", "\u{663}",
    ];
    for c in cases {
        assert_eq!(parse_u32(c), c.parse::<u32>().ok(), "case {:?}", c);
    }
}

#[test]
fn parse_rejects_empty_and_sign_only() {
    assert_eq!(parse_u32(""), None);
    assert_eq!(parse_u32("+"), None);
    assert_eq!(parse_u32("-0"), None);
}

#[test]
fn parse_accepts_plus_and_leading_zeros() {
    assert_eq!(parse_u32("+17"), Some(17));
    assert_eq!(parse_u32("00017"), Some(17));
    assert_eq!(parse_u32("4294967295"), Some(u32::MAX));
    assert_eq!(parse_u32("4294967296"), None);
}

#[test]
fn decimal_round_trips() {
    for n in [0u32, 1, 10, 65535, 4294967295, 123456789] {
        assert_eq!(parse_u32(&u32_to_decimal(n)), Some(n));
    }
}
