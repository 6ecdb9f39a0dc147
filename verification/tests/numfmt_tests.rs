use order_server::numfmt::{parse_u64, u64_to_string};

#[test]
fn renders_decimals_exactly() {
    assert_eq!(u64_to_string(0), "0");
    assert_eq!(u64_to_string(7), "7");
    assert_eq!(u64_to_string(10), "10");
    assert_eq!(u64_to_string(305), "305");
    assert_eq!(u64_to_string(u64::MAX), "18446744073709551615");
}

#[test]
fn parses_digit_runs() {
    assert_eq!(parse_u64("0"), Some(0));
    assert_eq!(parse_u64("42"), Some(42));
    assert_eq!(parse_u64("007"), Some(7));
    assert_eq!(parse_u64("18446744073709551615"), Some(u64::MAX));
}

#[test]
fn rejects_what_is_no_numeral() {
    assert_eq!(parse_u64(""), None);
    assert_eq!(parse_u64("-1"), None);
    assert_eq!(parse_u64("12a"), None);
    assert_eq!(parse_u64(" 12"), None);
    assert_eq!(parse_u64("18446744073709551616"), None);
}

#[test]
fn rendering_then_parsing_round_trips() {
    for n in [0u64, 1, 9, 10, 99, 100, 12345, u64::MAX] {
        assert_eq!(parse_u64(&u64_to_string(n)), Some(n));
    }
}
