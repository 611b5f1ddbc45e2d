use rlox::number::{equal, greater, is_nan, less, negate};
use rlox::value::Value;

fn samples() -> Vec<f64> {
    vec![
        0.0,
        -0.0,
        1.0,
        -1.0,
        1.5,
        -1.5,
        5e-324,
        -5e-324,
        f64::MIN_POSITIVE,
        f64::MAX,
        f64::MIN,
        f64::INFINITY,
        f64::NEG_INFINITY,
        f64::NAN,
        -f64::NAN,
        f64::from_bits(0x7ff0_0000_0000_0001),
        f64::from_bits(0xfff0_0000_0000_0001),
        f64::from_bits(0x7fff_ffff_ffff_ffff),
    ]
}

#[test]
fn as_bool_gives_only_booleans() {
    assert_eq!(Value::Bool(true).as_bool(), Some(true));
    assert_eq!(Value::Bool(false).as_bool(), Some(false));
    assert_eq!(Value::Number(0).as_bool(), None);
    assert_eq!(Value::Nil.as_bool(), None);
}

#[test]
fn as_number_gives_only_numbers() {
    assert_eq!(Value::Number(2.5f64.to_bits()).as_number(), Some(2.5f64.to_bits()));
    assert_eq!(Value::Bool(true).as_number(), None);
    assert_eq!(Value::Nil.as_number(), None);
}

#[test]
fn only_nil_and_false_are_falsey() {
    assert!(Value::Nil.is_falsey());
    assert!(Value::Bool(false).is_falsey());
    assert!(!Value::Bool(true).is_falsey());
    assert!(!Value::Number(0.0f64.to_bits()).is_falsey());
    assert!(!Value::Number(f64::NAN.to_bits()).is_falsey());
}

#[test]
fn values_of_different_variants_differ() {
    assert!(Value::Nil == Value::Nil);
    assert!(Value::Number(0.0f64.to_bits()) != Value::Bool(false));
    assert!(Value::Nil != Value::Bool(false));
    assert!(Value::Nil != Value::Number(0));
    assert!(Value::Bool(true) == Value::Bool(true));
    assert!(Value::Bool(true) != Value::Bool(false));
}

#[test]
fn numbers_compare_as_doubles() {
    for a in samples() {
        for b in samples() {
            let (x, y) = (a.to_bits(), b.to_bits());
            assert_eq!(equal(x, y), a == b, "{} == {}", a, b);
            assert_eq!(less(x, y), a < b, "{} < {}", a, b);
            assert_eq!(greater(x, y), a > b, "{} > {}", a, b);
            assert_eq!(Value::Number(x) == Value::Number(y), a == b, "{} == {}", a, b);
        }
    }
}

#[test]
fn nan_and_sign_are_read_from_the_bits() {
    for a in samples() {
        assert_eq!(is_nan(a.to_bits()), a.is_nan(), "{}", a);
        assert_eq!(negate(a.to_bits()), (-a).to_bits(), "{}", a);
    }
}
