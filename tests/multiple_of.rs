use jsonschema_core::multiple_of::compile;
use jsonschema_core::{
    CompilationError, ErrorKind, JsonValue, MultipleOfFloatValidator, MultipleOfIntegerValidator,
    MultipleOfValidator, Number, PathSegment,
};

fn whole(n: i64) -> Number {
    Number::from_i64(n)
}

fn dec(negative: bool, digits: u64, scale: u8) -> Number {
    Number::new(negative, digits, -(scale as i16))
}

fn keyword(d: Number) -> MultipleOfValidator {
    compile(&JsonValue::Number(d)).unwrap()
}

fn accepts(d: Number, x: Number) -> bool {
    keyword(d).is_valid(&JsonValue::Number(x))
}

#[test]
fn integer_multiples_are_valid() {
    assert!(accepts(whole(5), whole(10)));
    assert!(accepts(whole(3), whole(-12)));
    assert!(accepts(whole(-4), whole(8)));
    assert!(accepts(whole(7), whole(0)));
    assert!(accepts(whole(1), whole(i64::MIN)));
    assert!(accepts(Number::from_u64(u64::MAX), Number::from_u64(u64::MAX)));
}

#[test]
fn integer_non_multiples_are_invalid() {
    assert!(!accepts(whole(5), whole(7)));
    assert!(!accepts(whole(2), whole(-3)));
    assert!(!accepts(Number::from_u64(u64::MAX), Number::from_u64(u64::MAX - 1)));
}

#[test]
fn zero_divisor_rejects_every_number() {
    assert!(!accepts(whole(0), whole(0)));
    assert!(!accepts(whole(0), whole(4)));
    assert!(!accepts(whole(0), dec(false, 15, 1)));
}

#[test]
fn integral_decimal_instance_takes_integer_path() {
    // 20.0 is the integer 20
    assert!(accepts(whole(4), dec(false, 200, 1)));
    assert!(!accepts(whole(3), dec(false, 200, 1)));
}

#[test]
fn fractional_instance_against_integer_divisor() {
    assert!(!accepts(whole(2), dec(false, 25, 1)));
    assert!(!accepts(whole(1), dec(true, 5, 1)));
}

#[test]
fn exact_rational_division_beats_float_noise() {
    // 0.1 / 0.01 = 10
    assert!(accepts(dec(false, 1, 2), dec(false, 1, 1)));
    // 0.3 / 0.1 = 3, which floating remainders get wrong
    assert!(accepts(dec(false, 1, 1), dec(false, 3, 1)));
    // 4.35 / 0.01 = 435
    assert!(accepts(dec(false, 1, 2), dec(false, 435, 2)));
    // 12.5 / 2.5 = 5
    assert!(accepts(dec(false, 25, 1), dec(true, 125, 1)));
}

#[test]
fn fractional_divisor_non_multiples() {
    assert!(!accepts(dec(false, 5, 1), dec(false, 125, 2)));
    assert!(!accepts(dec(false, 1, 1), dec(false, 35, 2)));
    assert!(accepts(dec(false, 5, 1), dec(false, 15, 1)));
    assert!(accepts(dec(true, 5, 1), whole(3)));
}

#[test]
fn very_small_scales_use_exact_fractions() {
    // 3e-30 / 1e-30 = 3
    assert!(accepts(dec(false, 1, 30), dec(false, 3, 30)));
    // 1e-30 / 3e-30 is not an integer
    assert!(!accepts(dec(false, 3, 30), dec(false, 1, 30)));
    // 7 / 1e-40 is an integer
    assert!(accepts(dec(false, 1, 40), whole(7)));
}

#[test]
fn non_numbers_always_satisfy() {
    let v = keyword(whole(5));
    assert!(v.is_valid(&JsonValue::String("abc".to_string())));
    assert!(v.is_valid(&JsonValue::Null));
    assert!(v.is_valid(&JsonValue::Bool(false)));
    assert!(v.is_valid(&JsonValue::Array(vec![JsonValue::Number(whole(3))])));
    assert!(v.is_valid(&JsonValue::Object(vec![])));
    let w = keyword(dec(false, 5, 1));
    assert!(w.is_valid(&JsonValue::String("abc".to_string())));
    assert!(w.validate(&JsonValue::String("abc".to_string()), &vec![]).is_empty());
}

#[test]
fn non_numeric_divisor_is_a_schema_error() {
    assert!(matches!(
        compile(&JsonValue::String("5".to_string())),
        Err(CompilationError::SchemaError)
    ));
    assert!(matches!(compile(&JsonValue::Null), Err(CompilationError::SchemaError)));
    assert!(matches!(compile(&JsonValue::Bool(true)), Err(CompilationError::SchemaError)));
}

#[test]
fn compile_picks_variant_by_fractional_part() {
    assert!(matches!(keyword(whole(3)), MultipleOfValidator::Integer(_)));
    assert!(matches!(keyword(dec(false, 30, 1)), MultipleOfValidator::Integer(_)));
    assert!(matches!(keyword(dec(false, 35, 1)), MultipleOfValidator::Float(_)));
}

#[test]
fn validate_reports_one_error_with_path() {
    let v = keyword(whole(3));
    let path = vec![PathSegment::Key("a".to_string()), PathSegment::Index(2)];
    let errors = v.validate(&JsonValue::Number(whole(7)), &path);
    assert_eq!(errors.len(), 1);
    assert_eq!(errors[0].instance_path, path);
    assert_eq!(errors[0].kind, ErrorKind::MultipleOf { value: whole(7), multiple_of: whole(3) });
    assert!(v.validate(&JsonValue::Number(whole(9)), &path).is_empty());
}

#[test]
fn fast_and_diagnostic_modes_agree_on_keyword() {
    let divisors = [whole(3), whole(0), dec(false, 25, 2), dec(true, 1, 1)];
    let instances = [
        JsonValue::Number(whole(9)),
        JsonValue::Number(whole(10)),
        JsonValue::Number(dec(false, 75, 2)),
        JsonValue::Number(dec(false, 3, 1)),
        JsonValue::Null,
        JsonValue::String("x".to_string()),
    ];
    for d in divisors {
        let v = keyword(d);
        for i in instances.iter() {
            assert_eq!(v.is_valid(i), v.validate(i, &vec![]).is_empty());
        }
    }
}

#[test]
fn large_and_tiny_magnitudes() {
    let e = |digits: u64, exponent: i16| Number::new(false, digits, exponent);
    // 1e20 against 5: integral, beyond 64 bits
    assert!(accepts(whole(5), e(1, 20)));
    assert!(!accepts(whole(3), e(1, 20)));
    // 1e308 against 0.5
    assert!(accepts(dec(false, 5, 1), e(1, 308)));
    // 1.7976931348623157e308 against 1e292
    assert!(accepts(e(1, 292), e(17976931348623157, 292)));
    assert!(!accepts(e(1, 293), e(17976931348623157, 292)));
    // 5e-324 against 5e-324 and 1e-324
    assert!(accepts(e(5, -324), e(5, -324)));
    assert!(accepts(e(1, -324), e(5, -324)));
    assert!(!accepts(e(2, -324), e(5, -324)));
    // 1e-300 as a divisor of 1
    assert!(accepts(e(1, -300), whole(1)));
    // 1e20 against 1e19 and the integer 7 against 1e20
    assert!(accepts(e(1, 19), e(1, 20)));
    assert!(!accepts(e(1, 20), whole(7)));
    // a zero instance with a huge exponent
    assert!(accepts(whole(9), e(0, 30000)));
}

#[test]
fn divisors_of_any_magnitude_compile() {
    for (digits, exponent) in [(1u64, 20i16), (1, -300), (17976931348623157, 292), (5, -324)] {
        assert!(compile(&JsonValue::Number(Number::new(false, digits, exponent))).is_ok());
    }
    assert!(matches!(
        compile(&JsonValue::Number(Number::new(false, 1, 20))).unwrap(),
        MultipleOfValidator::Integer(_)
    ));
    assert!(matches!(
        compile(&JsonValue::Number(Number::new(false, 1, -300))).unwrap(),
        MultipleOfValidator::Float(_)
    ));
}

#[test]
fn variant_constructors_store_any_divisor() {
    let half = Number::new(false, 5, -1);
    assert_eq!(MultipleOfIntegerValidator::compile(half).multiple_of, half);
    assert_eq!(MultipleOfFloatValidator::compile(whole(4)).multiple_of, whole(4));
}

#[test]
fn integral_magnitude_of_numbers() {
    assert_eq!(dec(false, 1200, 2).integral_magnitude(), Some(12));
    assert_eq!(dec(false, 1250, 2).integral_magnitude(), None);
    assert_eq!(dec(true, 0, 40).integral_magnitude(), Some(0));
    assert_eq!(dec(false, 5, 40).integral_magnitude(), None);
    assert_eq!(Number::new(false, 12, 3).integral_magnitude(), Some(12_000));
    assert_eq!(Number::new(false, 1, 20).integral_magnitude(), None);
    assert_eq!(Number::new(false, 1, 19).integral_magnitude(), Some(10_000_000_000_000_000_000));
    assert!(Number::new(false, 1, 20).has_no_fraction());
    assert!(!Number::new(false, 15, -1).has_no_fraction());
    assert_eq!(whole(i64::MIN).integral_magnitude(), Some(9_223_372_036_854_775_808));
}
