use helix_calc::decimal::Decimal;
use helix_calc::input::{input_is_valid, input_value, InputError};

#[test]
fn test_is_valid() {
    assert!(input_is_valid(""));
    assert_eq!(input_value(""), Err(InputError::Empty));

    assert!(input_is_valid("123"));
    assert_eq!(input_value("123"), Ok(Decimal::from_i64(123)));

    assert!(!input_is_valid("abc"));
    assert_eq!(input_value("abc"), Err(InputError::Invalid));
}

#[test]
fn test_underscore_is_negative() {
    assert!(input_is_valid("_123"));
    assert_eq!(input_value("_123"), Ok(Decimal::from_i64(-123)));
}

#[test]
fn decimal_arithmetic_is_exact() {
    let a = Decimal::parse("0.1").unwrap();
    let b = Decimal::parse("0.2").unwrap();
    assert_eq!(a.add(&b), Decimal::parse("0.3").unwrap());
    assert_eq!(a.multiply(&b).scale(), 2);
    assert_eq!(Decimal::parse("1.20").unwrap().normalized().scale(), 1);
    assert_eq!(Decimal::parse("1200").unwrap().normalized().scale(), -2);
    assert_eq!(Decimal::parse("0.00").unwrap().normalized().scale(), 0);
    assert_eq!(Decimal::parse("-1.5").unwrap().to_plain_chars().iter().collect::<String>(), "-1.5");
    assert_eq!(Decimal::parse("1e3").unwrap().to_plain_chars().iter().collect::<String>(), "1000");
    assert_eq!(Decimal::parse("5e-3").unwrap().to_plain_chars().iter().collect::<String>(), "0.005");
    assert!(Decimal::parse("-7").unwrap().is_negative());
    assert!(Decimal::parse("0.0").unwrap().is_zero());
    assert_eq!(Decimal::parse("1.99").unwrap().with_scale(1), Decimal::parse("1.9").unwrap());
    assert_eq!(Decimal::parse("-1.99").unwrap().with_scale(0), Decimal::from_i64(-1));
    assert_eq!(Decimal::from_i64(255).unscaled_bits(), 8);
    assert_eq!(Decimal::from_i64(-3).unscaled_pow(3), Decimal::from_i64(-27));
    assert_eq!(Decimal::parse("4.0").unwrap().to_u64(), Some(4));
    assert!(Decimal::parse("4.5").unwrap().is_integer() == false);
}
