use helix_calc::decimal::Decimal;
use helix_calc::format::format_number;
use helix_calc::stack::{Op, Stack};

fn lit(s: &str) -> Decimal {
    Decimal::parse(s).unwrap()
}

#[test]
fn format_regular_number() {
    let n = lit("12345");
    assert_eq!(format_number(&n, 10, false), "12345");
}

#[test]
fn format_long_number() {
    let n = lit("123456789098");
    assert_eq!(format_number(&n, 10, false), "123~12~098");
    assert_eq!(format_number(&n, 11, false), "1234~12~098");
}

#[test]
fn format_long_negative_number() {
    let n = lit("-123456789098");
    assert_eq!(format_number(&n, 8, false), "-12~12~8");
    assert_eq!(format_number(&n, 7, false), "-1~12~8");
    // We need at least 7 characters for this...
    assert_eq!(format_number(&n, 6, false), "~");
}

#[test]
fn format_long_decimal_number() {
    let n = lit("12345678.34567");
    assert_eq!(format_number(&n, 7, false), "1~8~8.3");
}

#[test]
fn format_dont_overflow_decimal() {
    let n = lit("12345678909876543.21");
    assert_eq!(format_number(&n, 18, false), "12345~17~6543.21");
}

#[test]
fn format_long_negative_decimal_number() {
    let n = lit("-12345678.34567");
    assert_eq!(format_number(&n, 8, false), "-1~8~8.3");
}

#[test]
fn truncate_decimal_part() {
    let n = lit("0.123456789");
    assert_eq!(format_number(&n, 4, false), "0.1~");
    let n = lit("10.12345678");
    assert_eq!(format_number(&n, 4, false), "10.~");
}

#[test]
fn handle_negative_scale() {
    let n = lit("100000000000").normalized();
    assert_eq!(format_number(&n, 10, false), "100~12~000");
}

#[test]
fn validate_display_of_long_numbers() {
    let mut s = Stack::new();
    s.apply(Op::Push(lit("10000000"))).unwrap();
    s.apply(Op::Push(lit("100000000"))).unwrap();
    s.apply(Op::Multiply).unwrap();
    let top = &s.snapshot()[0];
    assert_eq!(*top, lit("1000000000000000"));
    assert_eq!(format_number(top, 14, false), "10000~16~00000");
}

#[test]
fn trim_unneeded_zeros() {
    let n = lit("0.000100000");
    assert_eq!(format_number(&n, 10, false), "0.0001");
    let n = lit("1e100");
    assert_eq!(format_number(&n, 10, false), "100~101~00");
}

#[test]
fn normalize_scientific_numbers() {
    let mut s = Stack::new();
    s.apply(Op::Push(lit("1e100"))).unwrap();
    assert_eq!(format_number(&s.snapshot()[0], 14, false), "10000~101~0000");
}

#[test]
fn twelve_digit_integer_at_width_ten() {
    for text in ["123456789098", "999999999999", "100000000001"] {
        let out = format_number(&lit(text), 10, false);
        assert_eq!(out.chars().count(), 10);
        assert_eq!(&out[3..7], "~12~");
    }
}

#[test]
fn width_zero_gives_marker() {
    assert_eq!(format_number(&lit("5"), 0, false), "~");
    assert_eq!(format_number(&lit("-1234567890123"), 6, false), "~");
}

#[test]
fn grouping_inserts_separators_when_they_fit() {
    let n = lit("-1234567.891");
    assert_eq!(format_number(&n, 20, true), "-1,234,567.891");
    // Grouped form too long: the plain form is used.
    assert_eq!(format_number(&n, 12, true), "-1234567.891");
    assert_eq!(format_number(&lit("123"), 5, true), "123");
    assert_eq!(format_number(&lit("1234"), 5, true), "1,234");
}

#[test]
fn zero_and_small_fractions() {
    assert_eq!(format_number(&lit("0.000"), 5, false), "0");
    assert_eq!(format_number(&lit("-0.5"), 4, false), "-0.5");
    assert_eq!(format_number(&lit("-0.123456"), 5, false), "-0.1~");
}

#[test]
fn zero_at_extreme_scale_shows_zero() {
    assert_eq!(format_number(&lit("0e9223372036854775808"), 5, false), "0");
}
