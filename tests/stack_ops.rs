use helix_calc::decimal::Decimal;
use helix_calc::stack::{Op, Stack, StackError};
use helix_calc::state::{record_string, LoadError, State};

fn d(v: i64) -> Decimal {
    Decimal::from_i64(v)
}

fn lit(s: &str) -> Decimal {
    Decimal::parse(s).unwrap()
}

#[test]
fn addition() -> Result<(), StackError> {
    let mut s = Stack::new();
    s.apply(Op::Push(d(10)))?;
    s.apply(Op::Push(d(20)))?;
    s.apply(Op::Add)?;
    assert_eq!(s.snapshot(), vec![d(30)]);
    Ok(())
}

#[test]
fn subtract() -> Result<(), StackError> {
    let mut s = Stack::new();
    s.apply(Op::Push(d(10)))?;
    s.apply(Op::Push(d(20)))?;
    s.apply(Op::Subtract)?;
    assert_eq!(s.snapshot(), vec![d(-10)]);
    Ok(())
}

#[test]
fn mumltiply() -> Result<(), StackError> {
    let mut s = Stack::new();
    s.apply(Op::Push(d(10)))?;
    s.apply(Op::Push(d(20)))?;
    s.apply(Op::Multiply)?;
    assert_eq!(s.snapshot(), vec![d(200)]);
    Ok(())
}

#[test]
fn divide() -> Result<(), StackError> {
    let mut s = Stack::new();
    s.apply(Op::Push(d(20)))?;
    s.apply(Op::Push(d(10)))?;
    s.apply(Op::Divide)?;
    assert_eq!(s.snapshot(), vec![d(2)]);
    Ok(())
}

#[test]
fn divide_by_zero() -> Result<(), StackError> {
    let mut s = Stack::new();
    s.apply(Op::Push(d(20)))?;
    s.apply(Op::Push(d(0)))?;
    assert_eq!(
        s.apply(Op::Divide),
        Err(StackError::InvalidArgument("element 1 must be non-zero".into()))
    );
    assert_eq!(s.snapshot(), vec![d(0), d(20)]);
    Ok(())
}

#[test]
fn rem() -> Result<(), StackError> {
    let mut s = Stack::new();
    s.apply(Op::Push(d(7)))?;
    s.apply(Op::Push(d(3)))?;
    s.apply(Op::Modulo)?;
    assert_eq!(s.snapshot(), vec![d(1)]);
    Ok(())
}

#[test]
fn sqrt() -> Result<(), StackError> {
    let mut s = Stack::new();
    s.apply(Op::Push(d(4)))?;
    s.apply(Op::Sqrt)?;
    assert_eq!(s.snapshot(), vec![d(2)]);
    Ok(())
}

#[test]
fn sqrt_of_negative() -> Result<(), StackError> {
    let mut s = Stack::new();
    s.apply(Op::Push(d(-4)))?;
    assert_eq!(
        s.apply(Op::Sqrt),
        Err(StackError::InvalidArgument("element 1 must be positive".into()))
    );
    Ok(())
}

#[test]
fn pow() -> Result<(), StackError> {
    let mut s = Stack::new();
    s.apply(Op::Push(d(2)))?;
    s.apply(Op::Push(d(8)))?;
    s.apply(Op::Pow)?;
    assert_eq!(s.snapshot(), vec![d(256)]);
    Ok(())
}

#[test]
fn duplicate() -> Result<(), StackError> {
    let mut s = Stack::new();
    s.apply(Op::Push(d(1)))?;
    s.apply(Op::Duplicate)?;
    assert_eq!(s.snapshot(), vec![d(1), d(1)]);
    Ok(())
}

#[test]
fn pop() -> Result<(), StackError> {
    let mut s = Stack::new();
    s.apply(Op::Push(d(1)))?;
    s.apply(Op::Pop)?;
    assert!(s.snapshot().is_empty());
    Ok(())
}

#[test]
fn rotate() -> Result<(), StackError> {
    let mut s = Stack::new();
    s.apply(Op::Push(d(1)))?;
    s.apply(Op::Push(d(2)))?;
    s.apply(Op::Rotate)?;
    assert_eq!(s.snapshot(), vec![d(1), d(2)]);
    Ok(())
}

#[test]
fn precision() -> Result<(), StackError> {
    let mut s = Stack::new();
    s.apply(Op::Push(d(1234)))?;
    s.apply(Op::Push(d(2)))?;
    s.apply(Op::Precision)?;
    assert_eq!(s.precision(), 2);
    assert_eq!(s.snapshot()[0].to_string(), "1234");
    s.apply(Op::Push(d(3)))?;
    s.apply(Op::Divide)?;
    assert_eq!(s.snapshot()[0].to_string(), "411.33");
    Ok(())
}

#[test]
fn pow_cap() -> Result<(), StackError> {
    let mut s = Stack::new();
    s.apply(Op::Push(d(2)))?;
    s.apply(Op::Push(d(2000)))?;
    assert_eq!(
        s.apply(Op::Pow),
        Err(StackError::InvalidArgument("too big for me".into()))
    );
    assert_eq!(s.snapshot(), vec![d(2000), d(2)]);
    Ok(())
}

// The result is normalized: 10^2 is stored as 1 at scale -2.
#[test]
fn pow_representation() -> Result<(), StackError> {
    let mut s = Stack::new();
    s.apply(Op::Push(d(10)))?;
    s.apply(Op::Push(d(2)))?;
    s.apply(Op::Pow)?;
    let r = &s.snapshot()[0];
    assert_eq!(r.unscaled(), d(1));
    assert_eq!(r.scale(), -2);
    assert_eq!(*r, d(100));
    Ok(())
}

#[test]
fn push_shows_value_alone() -> Result<(), StackError> {
    for text in ["-17.25", "0.000000000001", "123456789012345678901234567890", "-1e40"] {
        let mut s = Stack::new();
        s.apply(Op::Push(lit(text)))?;
        assert_eq!(s.snapshot(), vec![lit(text)]);
        assert_eq!(s.snapshot()[0].scale(), lit(text).scale());
    }
    Ok(())
}

#[test]
fn snapshot_caps_scale_without_padding() -> Result<(), StackError> {
    let mut s = Stack::new();
    s.apply(Op::Push(lit("0.1234567890123456")))?;
    s.apply(Op::Push(lit("1.5")))?;
    let snap = s.snapshot();
    assert_eq!(snap[0].scale(), 1);
    assert_eq!(snap[1].scale(), 12);
    assert_eq!(snap[1], lit("0.123456789012"));
    // The stored value keeps every digit.
    assert_eq!(s.values()[1], lit("0.1234567890123456"));
    Ok(())
}

#[test]
fn binary_operations_take_lower_operand_first() -> Result<(), StackError> {
    let cases = [
        (Op::Add, "3.75"),
        (Op::Subtract, "-1.25"),
        (Op::Multiply, "3.125"),
        (Op::Divide, "0.5"),
        (Op::Modulo, "1.25"),
    ];
    for (op, expected) in cases {
        let mut s = Stack::new();
        s.apply(Op::Push(lit("1.25")))?;
        s.apply(Op::Push(lit("2.5")))?;
        s.apply(op)?;
        assert_eq!(s.snapshot(), vec![lit(expected)]);
    }
    Ok(())
}

#[test]
fn modulo_takes_sign_of_dividend() -> Result<(), StackError> {
    let mut s = Stack::new();
    s.apply(Op::Push(d(-7)))?;
    s.apply(Op::Push(d(3)))?;
    s.apply(Op::Modulo)?;
    assert_eq!(s.snapshot(), vec![d(-1)]);
    Ok(())
}

#[test]
fn modulo_by_zero_is_rejected() -> Result<(), StackError> {
    let mut s = Stack::new();
    s.apply(Op::Push(d(7)))?;
    s.apply(Op::Push(d(0)))?;
    assert!(matches!(s.apply(Op::Modulo), Err(StackError::InvalidArgument(_))));
    assert_eq!(s.snapshot(), vec![d(0), d(7)]);
    Ok(())
}

#[test]
fn missing_values_are_reported() {
    let mut s = Stack::new();
    assert_eq!(s.apply(Op::Add), Err(StackError::MissingValue(2)));
    assert_eq!(s.apply(Op::Sqrt), Err(StackError::MissingValue(1)));
    assert_eq!(s.apply(Op::Pop), Err(StackError::MissingValue(1)));
    assert_eq!(s.apply(Op::Precision), Err(StackError::MissingValue(1)));
    s.apply(Op::Push(d(1))).unwrap();
    assert_eq!(s.apply(Op::Rotate), Err(StackError::MissingValue(2)));
    assert_eq!(s.apply(Op::Pow), Err(StackError::MissingValue(2)));
    assert_eq!(s.snapshot(), vec![d(1)]);
}

#[test]
fn pow_rejects_bad_operands() -> Result<(), StackError> {
    for (a, b, msg) in [
        ("2", "0", "element 1 must be a positive integer"),
        ("2", "-3", "element 1 must be a positive integer"),
        ("2", "1.5", "element 1 must be a positive integer"),
        ("2.5", "2", "element 2 must be an integer"),
    ] {
        let mut s = Stack::new();
        s.apply(Op::Push(lit(a)))?;
        s.apply(Op::Push(lit(b)))?;
        assert_eq!(s.apply(Op::Pow), Err(StackError::InvalidArgument(msg.into())));
        assert_eq!(s.snapshot(), vec![lit(b), lit(a)]);
    }
    Ok(())
}

#[test]
fn pow_at_the_cap() -> Result<(), StackError> {
    let mut s = Stack::new();
    s.apply(Op::Push(d(2)))?;
    s.apply(Op::Push(d(512)))?;
    s.apply(Op::Pow)?;
    s.apply(Op::Push(d(2)))?;
    s.apply(Op::Push(d(513)))?;
    assert_eq!(s.apply(Op::Pow), Err(StackError::InvalidArgument("too big for me".into())));
    // Zero has no bits: any power of it is allowed.
    let mut z = Stack::new();
    z.apply(Op::Push(d(0)))?;
    z.apply(Op::Push(lit("100000000000000000000000")))?;
    z.apply(Op::Pow)?;
    assert_eq!(z.snapshot(), vec![d(0)]);
    Ok(())
}

#[test]
fn pow_of_negative_base() -> Result<(), StackError> {
    let mut s = Stack::new();
    s.apply(Op::Push(d(-3)))?;
    s.apply(Op::Push(d(3)))?;
    s.apply(Op::Pow)?;
    assert_eq!(s.snapshot(), vec![d(-27)]);
    Ok(())
}

#[test]
fn precision_rejects_bad_values() -> Result<(), StackError> {
    for text in ["0", "-2", "2.5", "9223372036854775808"] {
        let mut s = Stack::new();
        s.apply(Op::Push(lit(text)))?;
        assert_eq!(
            s.apply(Op::Precision),
            Err(StackError::InvalidArgument("element 1 must be a positive integer".into()))
        );
        assert_eq!(s.precision(), 12);
        assert_eq!(s.snapshot(), vec![lit(text)]);
    }
    let mut s = Stack::new();
    s.apply(Op::Push(lit("9223372036854775807")))?;
    s.apply(Op::Precision)?;
    assert_eq!(s.precision(), 9223372036854775807);
    Ok(())
}

#[test]
fn undo_and_redo_walk_the_history() -> Result<(), StackError> {
    let mut s = Stack::new();
    let mut snaps = vec![s.snapshot()];
    for op in [Op::Push(d(5)), Op::Push(d(7)), Op::Multiply, Op::Duplicate] {
        s.apply(op)?;
        snaps.push(s.snapshot());
    }
    for k in (0..4).rev() {
        s.apply(Op::Undo)?;
        assert_eq!(s.snapshot(), snaps[k]);
    }
    assert_eq!(
        s.apply(Op::Undo),
        Err(StackError::InvalidArgument("nothing to undo".into()))
    );
    s.apply(Op::Redo)?;
    assert_eq!(s.snapshot(), snaps[1]);
    s.apply(Op::Push(d(9)))?;
    assert_eq!(
        s.apply(Op::Redo),
        Err(StackError::InvalidArgument("nothing to redo".into()))
    );
    assert_eq!(s.snapshot(), vec![d(9), d(5)]);
    Ok(())
}

#[test]
fn failed_operation_records_nothing() -> Result<(), StackError> {
    let mut s = Stack::new();
    s.apply(Op::Push(d(1)))?;
    assert!(s.apply(Op::Add).is_err());
    s.apply(Op::Undo)?;
    assert!(s.snapshot().is_empty());
    assert!(s.apply(Op::Undo).is_err());
    Ok(())
}

#[test]
fn edit_top_records_a_state() -> Result<(), StackError> {
    let mut s = Stack::new();
    assert!(s.edit_top().is_none());
    s.apply(Op::Push(d(4)))?;
    s.apply(Op::Push(d(8)))?;
    assert_eq!(s.edit_top(), Some(d(8)));
    assert_eq!(s.snapshot(), vec![d(4)]);
    s.apply(Op::Undo)?;
    assert_eq!(s.snapshot(), vec![d(8), d(4)]);
    Ok(())
}

#[test]
fn state_round_trip() {
    let state = State {
        stack: vec!["1.50".to_string(), "-2e3".to_string(), "7".to_string()],
        precision: Some(4),
    };
    let s = Stack::try_from(&state).unwrap();
    assert_eq!(s.precision(), 4);
    assert_eq!(s.values(), vec![lit("1.50"), lit("-2e3"), d(7)]);
    let saved = State::from_stack(&s);
    assert_eq!(saved.precision, Some(4));
    let again = Stack::try_from(&saved).unwrap();
    let (a, b) = (s.values(), again.values());
    assert_eq!(a, b);
    for (x, y) in a.iter().zip(b.iter()) {
        assert_eq!(x.scale(), y.scale());
    }
}

#[test]
fn state_load_errors() {
    let bad = State {
        stack: vec!["1".to_string(), "x1".to_string()],
        precision: None,
    };
    assert!(matches!(Stack::try_from(&bad), Err(LoadError::InvalidNumber(1))));
    let zero = State {
        stack: vec!["1".to_string()],
        precision: Some(0),
    };
    assert_eq!(Stack::try_from(&zero).unwrap().precision(), 0);
    let huge = State {
        stack: vec![],
        precision: Some(u64::MAX),
    };
    assert_eq!(Stack::try_from(&huge).unwrap().precision(), i64::MAX as u64);
    let default = State {
        stack: vec![],
        precision: None,
    };
    assert_eq!(Stack::try_from(&default).unwrap().precision(), 12);
}

#[test]
fn record_text_keeps_scale() {
    assert_eq!(record_string(&lit("-2e3")), "-2e3");
    assert_eq!(record_string(&lit("0.00")), "0e-2");
    assert_eq!(record_string(&lit("1.50")), "150e-2");
    assert_eq!(record_string(&d(42)), "42e0");
    let zero = State {
        stack: vec![record_string(&lit("0.00"))],
        precision: None,
    };
    assert_eq!(Stack::try_from(&zero).unwrap().values()[0].scale(), 2);
}

#[test]
fn precision_zero_survives_save_and_load() {
    let s = Stack::with_precision(vec![lit("2.75"), d(3)], 0);
    assert_eq!(s.snapshot(), vec![d(2), d(3)]);
    let again = Stack::try_from(&State::from_stack(&s)).unwrap();
    assert_eq!(again.precision(), 0);
    assert_eq!(again.values(), s.values());
}

#[test]
fn divide_with_scale_at_the_edge_is_rejected() -> Result<(), StackError> {
    let mut s = Stack::new();
    s.apply(Op::Push(lit("1e-9223372036854775807")))?;
    s.apply(Op::Push(d(3)))?;
    assert_eq!(
        s.apply(Op::Divide),
        Err(StackError::InvalidArgument("scale out of range".into()))
    );
    assert_eq!(s.values(), vec![d(3), lit("1e-9223372036854775807")]);
    Ok(())
}

#[test]
fn huge_exponent_and_precision_are_rejected_cheaply() -> Result<(), StackError> {
    for text in ["1e9223372036854775807", "1e999999999999", "1e20"] {
        let mut s = Stack::new();
        s.apply(Op::Push(d(2)))?;
        s.apply(Op::Push(lit(text)))?;
        assert_eq!(s.apply(Op::Pow), Err(StackError::InvalidArgument("too big for me".into())));
        assert_eq!(
            s.apply(Op::Precision),
            Err(StackError::InvalidArgument("element 1 must be a positive integer".into()))
        );
        assert_eq!(s.values().len(), 2);
    }
    Ok(())
}

#[test]
fn sqrt_failure_keeps_the_operand() -> Result<(), StackError> {
    let mut s = Stack::new();
    s.apply(Op::Push(lit("-0.5")))?;
    assert!(s.apply(Op::Sqrt).is_err());
    assert_eq!(s.values(), vec![lit("-0.5")]);
    Ok(())
}
