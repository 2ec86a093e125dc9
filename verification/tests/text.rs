use m65_field_jacket::text::{parse_u64, trim, u64_to_decimal, IntErrorKind};
use m65_field_jacket::io::confirmation_matches;

#[test]
fn decimal_of_numbers() {
    assert_eq!(u64_to_decimal(0), "0");
    assert_eq!(u64_to_decimal(7), "7");
    assert_eq!(u64_to_decimal(1700000000), "1700000000");
    assert_eq!(u64_to_decimal(u64::MAX), "18446744073709551615");
}

#[test]
fn parse_accepts_what_std_accepts() {
    assert_eq!(parse_u64("0"), Ok(0));
    assert_eq!(parse_u64("+42"), Ok(42));
    assert_eq!(parse_u64("0012"), Ok(12));
    assert_eq!(parse_u64("18446744073709551615"), Ok(u64::MAX));
}

#[test]
fn parse_errors_match_std() {
    assert_eq!(parse_u64(""), Err(IntErrorKind::Empty));
    assert_eq!(parse_u64("+"), Err(IntErrorKind::InvalidDigit));
    assert_eq!(parse_u64("-"), Err(IntErrorKind::InvalidDigit));
    assert_eq!(parse_u64("-1"), Err(IntErrorKind::InvalidDigit));
    assert_eq!(parse_u64("12a"), Err(IntErrorKind::InvalidDigit));
    assert_eq!(parse_u64(" 1"), Err(IntErrorKind::InvalidDigit));
    assert_eq!(parse_u64("18446744073709551616"), Err(IntErrorKind::PosOverflow));
    for s in ["", "+", "-1", "12a", "18446744073709551616", "99", "+0"] {
        let ours = parse_u64(s).ok();
        let std = s.parse::<u64>().ok();
        assert_eq!(ours, std, "{s}");
    }
}

#[test]
fn decimal_parses_back() {
    for n in [0u64, 1, 9, 10, 99, 100, 123456789, u64::MAX - 1, u64::MAX] {
        assert_eq!(parse_u64(&u64_to_decimal(n)), Ok(n));
    }
}

#[test]
fn trim_like_std() {
    for s in ["", "  ", " a ", "\tab\n", "a b", "\u{3000}x\u{2028}", "\r\nname\r\n"] {
        assert_eq!(trim(s), s.trim(), "{s:?}");
    }
}

#[test]
fn confirmation_ignores_surrounding_whitespace() {
    assert!(confirmation_matches("shared\n", "shared"));
    assert!(confirmation_matches("  shared  \r\n", "shared"));
    assert!(!confirmation_matches("share\n", "shared"));
    assert!(!confirmation_matches("sha red\n", "sha  red"));
}
