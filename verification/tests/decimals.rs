use pydantic_sifr_core::decimals::{
    validate_decimal, validate_decimal_bounds, validate_decimal_digits, validate_decimal_text, DecimalConstraints,
    DecimalNumber,
};
use pydantic_sifr_core::error::ValidationError;
use pydantic_sifr_core::input::InputValue;
use pydantic_sifr_core::options::InputProfile;
use pydantic_sifr_core::values::ValidatedValue;

fn number(text: &str) -> DecimalNumber {
    DecimalNumber::parse(text).unwrap()
}

fn float_text(bits: u64) -> String {
    f64::from_bits(bits).to_string()
}

fn code<T: std::fmt::Debug>(result: Result<T, ValidationError>) -> &'static str {
    result.unwrap_err().details()[0].code
}

#[test]
fn decimal_texts_are_read_and_written_by_bigdecimal() {
    let none = DecimalConstraints::default();
    assert_eq!(validate_decimal_text("1.50", &none).unwrap(), ValidatedValue::Decimal("1.50".to_string()));
    assert_eq!(validate_decimal_text("-12", &none).unwrap(), ValidatedValue::Decimal("-12".to_string()));
    let error = validate_decimal_text("abc", &none).unwrap_err();
    assert_eq!(error.details()[0].code, "decimal_parsing");
    assert_eq!(error.details()[0].expected, "decimal");
    assert!(DecimalNumber::parse("1.2.3").is_none());
    assert_eq!(number("2.5").text(), "2.5");
}

#[test]
fn decimal_bounds_are_checked_in_order() {
    let constraints = DecimalConstraints {
        greater_than: Some(number("0")),
        less_or_equal: Some(number("10.5")),
        multiple_of: Some(number("0.25")),
        ..DecimalConstraints::default()
    };
    assert!(validate_decimal_bounds(&number("10.50"), &constraints).is_ok());
    let error = validate_decimal_bounds(&number("0.00"), &constraints).unwrap_err();
    assert_eq!(error.details()[0].code, "greater_than");
    assert_eq!(error.details()[0].message, "Input violates a decimal constraint");
    assert_eq!(error.details()[0].context_value("bound").map(String::as_str), Some("0"));
    assert_eq!(code(validate_decimal_bounds(&number("10.75"), &constraints)), "less_than_equal");
    let error = validate_decimal_bounds(&number("1.1"), &constraints).unwrap_err();
    assert_eq!(error.details()[0].code, "multiple_of");
    assert_eq!(error.details()[0].context_value("bound").map(String::as_str), Some("0.25"));
    let zero_step = DecimalConstraints { multiple_of: Some(number("0.00")), ..DecimalConstraints::default() };
    let error = validate_decimal_bounds(&number("1"), &zero_step).unwrap_err();
    assert_eq!(error.details()[0].code, "schema_invalid");
    assert_eq!(error.details()[0].expected, "nonzero decimal");
    let strict_bounds = DecimalConstraints {
        greater_or_equal: Some(number("1")),
        less_than: Some(number("2")),
        ..DecimalConstraints::default()
    };
    assert!(validate_decimal_bounds(&number("1.000"), &strict_bounds).is_ok());
    assert_eq!(code(validate_decimal_bounds(&number("0.999"), &strict_bounds)), "greater_than_equal");
    assert_eq!(code(validate_decimal_bounds(&number("2.0"), &strict_bounds)), "less_than");
}

#[test]
fn digit_limits_allow_trailing_zeros() {
    let three = DecimalConstraints { max_digits: Some(3), ..DecimalConstraints::default() };
    assert!(validate_decimal_digits(&number("1.2300"), &three).is_ok());
    let error = validate_decimal_digits(&number("1.234"), &three).unwrap_err();
    assert_eq!(error.details()[0].code, "decimal_max_digits");
    assert_eq!(error.details()[0].message, "Decimal digit constraint failed");
    assert_eq!(error.details()[0].context_value("max_digits").map(String::as_str), Some("3"));
    let places = DecimalConstraints { decimal_places: Some(1), ..DecimalConstraints::default() };
    assert!(validate_decimal_digits(&number("2.50"), &places).is_ok());
    assert_eq!(code(validate_decimal_digits(&number("2.55"), &places)), "decimal_max_places");
    let both = DecimalConstraints { max_digits: Some(4), decimal_places: Some(2), ..DecimalConstraints::default() };
    assert!(validate_decimal_digits(&number("12.34"), &both).is_ok());
    let error = validate_decimal_digits(&number("123.4"), &both).unwrap_err();
    assert_eq!(error.details()[0].code, "decimal_whole_digits");
    assert_eq!(error.details()[0].context_value("whole_digits").map(String::as_str), Some("2"));
    assert!(validate_decimal_digits(&number("0.000"), &both).is_ok());
}

#[test]
fn decimal_inputs_by_kind() {
    let none = DecimalConstraints::default();
    let run = |input: InputValue, strict: bool, profile: InputProfile| {
        validate_decimal(&input, strict, profile, &none, &float_text)
    };
    assert_eq!(run(InputValue::Decimal("3.14".to_string()), true, InputProfile::Native).unwrap(), ValidatedValue::Decimal("3.14".to_string()));
    assert_eq!(run(InputValue::Integer("7".to_string()), false, InputProfile::Native).unwrap(), ValidatedValue::Decimal("7".to_string()));
    assert_eq!(code(run(InputValue::Integer("7".to_string()), true, InputProfile::Native)), "decimal_type");
    assert_eq!(run(InputValue::String("7.5".to_string()), true, InputProfile::Json).unwrap(), ValidatedValue::Decimal("7.5".to_string()));
    assert_eq!(run(InputValue::Float(0.5f64.to_bits()), false, InputProfile::Json).unwrap(), ValidatedValue::Decimal("0.5".to_string()));
    assert_eq!(code(run(InputValue::Float(0.5f64.to_bits()), true, InputProfile::Json)), "decimal_type");
    assert_eq!(code(run(InputValue::Float(f64::INFINITY.to_bits()), false, InputProfile::Json)), "decimal_type");
    assert_eq!(code(run(InputValue::Bool(true), false, InputProfile::Json)), "decimal_type");
}
