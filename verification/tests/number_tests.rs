use lox::number::{decimal_text, ArithOp, Number};

fn num(x: f64) -> Number {
    Number::from_bits(x.to_bits())
}

fn samples() -> Vec<f64> {
    vec![
        0.0,
        -0.0,
        1.0,
        -1.0,
        0.5,
        -0.5,
        2.0,
        1e-310,
        -1e-310,
        5e-324,
        f64::MIN_POSITIVE,
        f64::MAX,
        f64::MIN,
        f64::INFINITY,
        f64::NEG_INFINITY,
        f64::NAN,
        -f64::NAN,
        3.141592653589793,
        -9.0,
        1e308,
        123456789.125,
    ]
}

#[test]
fn bits_round_trip() {
    assert_eq!(Number::from_bits(0x4008_0000_0000_0000).to_bits(), 0x4008_0000_0000_0000);
    assert_eq!(num(3.0).to_bits(), 0x4008_0000_0000_0000);
}

#[test]
fn nan_is_recognised() {
    for x in samples() {
        assert_eq!(num(x).nan(), x.is_nan(), "{}", x);
    }
    assert!(Number::from_bits(0x7FF0_0000_0000_0001).nan());
    assert!(Number::from_bits(0xFFF8_0000_0000_0000).nan());
    assert!(!Number::from_bits(0x7FF0_0000_0000_0000).nan());
    assert!(!Number::from_bits(0xFFF0_0000_0000_0000).nan());
}

#[test]
fn equality_agrees_with_doubles() {
    for x in samples() {
        for y in samples() {
            assert_eq!(num(x).equals(num(y)), x == y, "{} == {}", x, y);
        }
    }
}

#[test]
fn ordering_agrees_with_doubles() {
    for x in samples() {
        for y in samples() {
            assert_eq!(num(x).less(num(y)), x < y, "{} < {}", x, y);
            assert_eq!(num(x).less_equal(num(y)), x <= y, "{} <= {}", x, y);
            assert_eq!(num(x).greater(num(y)), x > y, "{} > {}", x, y);
            assert_eq!(num(x).greater_equal(num(y)), x >= y, "{} >= {}", x, y);
        }
    }
}

#[test]
fn zeros_are_equal_and_unordered() {
    assert!(num(0.0).equals(num(-0.0)));
    assert!(!num(0.0).less(num(-0.0)));
    assert!(!num(-0.0).less(num(0.0)));
    assert!(num(-0.0).less_equal(num(0.0)));
}

#[test]
fn nan_equals_nothing() {
    let nan = num(f64::NAN);
    assert!(!nan.equals(nan));
    assert!(!nan.equals(num(1.0)));
    assert!(!nan.less(num(1.0)));
    assert!(!nan.greater_equal(num(1.0)));
}

#[test]
fn negation_flips_the_sign() {
    for x in samples() {
        let negated = f64::from_bits(num(x).negated().to_bits());
        if x.is_nan() {
            assert!(negated.is_nan());
        } else {
            assert_eq!(negated.to_bits(), (-x).to_bits(), "{}", x);
            assert_eq!(negated.to_bits(), (x * -1.0).to_bits(), "{}", x);
        }
    }
    assert_eq!(num(3.0).negated().to_bits(), 0xC008_0000_0000_0000);
}

#[test]
fn decimal_text_adds_a_fraction_to_whole_numbers() {
    assert_eq!(decimal_text("1".to_string()), "1.0");
    assert_eq!(decimal_text("1.5".to_string()), "1.5");
    assert_eq!(decimal_text("100".to_string()), "100.0");
    assert_eq!(decimal_text("0.25".to_string()), "0.25");
    assert_eq!(decimal_text("inf".to_string()), "inf.0");
}

#[test]
fn arithmetic_operations_are_distinct() {
    assert_ne!(ArithOp::Add, ArithOp::Sub);
    assert_ne!(ArithOp::Mul, ArithOp::Div);
    assert_eq!(ArithOp::Add, ArithOp::Add);
}
