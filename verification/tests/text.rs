use hackernews_mcp::text::{i64_to_decimal, parse_u64, u64_to_decimal};

#[test]
fn decimal_of_small_and_large_numbers() {
    assert_eq!(u64_to_decimal(0), "0");
    assert_eq!(u64_to_decimal(7), "7");
    assert_eq!(u64_to_decimal(10), "10");
    assert_eq!(u64_to_decimal(1234567890), "1234567890");
    assert_eq!(u64_to_decimal(u64::MAX), u64::MAX.to_string());
}

#[test]
fn decimal_of_signed_numbers() {
    assert_eq!(i64_to_decimal(0), "0");
    assert_eq!(i64_to_decimal(42), "42");
    assert_eq!(i64_to_decimal(-42), "-42");
    assert_eq!(i64_to_decimal(i64::MIN), i64::MIN.to_string());
    assert_eq!(i64_to_decimal(i64::MAX), i64::MAX.to_string());
}

#[test]
fn parse_accepts_what_std_accepts() {
    assert_eq!(parse_u64("42"), Some(42));
    assert_eq!(parse_u64("+7"), Some(7));
    assert_eq!(parse_u64("00012"), Some(12));
    assert_eq!(parse_u64("18446744073709551615"), Some(u64::MAX));
}

#[test]
fn parse_rejects_what_std_rejects() {
    for s in ["", "+", "-1", "-0", "12a", " 1", "1 ", "1_000", "18446744073709551616", "٣", "++1"] {
        assert_eq!(parse_u64(s), None, "input {s:?}");
        assert!(s.parse::<u64>().is_err(), "std disagrees on {s:?}");
    }
}

#[test]
fn parse_agrees_with_std_on_a_range() {
    for n in (0u64..2000).chain([u64::MAX - 1, u64::MAX / 3]) {
        let s = n.to_string();
        assert_eq!(parse_u64(&s), s.parse::<u64>().ok());
        assert_eq!(u64_to_decimal(n), s);
    }
}

#[test]
fn decimal_round_trips_through_parse() {
    for n in [0u64, 1, 9, 10, 99, 100, 8863, 40_000_000, u64::MAX] {
        assert_eq!(parse_u64(&u64_to_decimal(n)), Some(n));
    }
}
