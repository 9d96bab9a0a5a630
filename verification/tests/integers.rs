use pydantic_sifr_core::constraints::{IntegerConstraints, IntegerTarget};
use pydantic_sifr_core::error::ValidationError;
use pydantic_sifr_core::input::InputValue;
use pydantic_sifr_core::integers::{exact_integer, validate_integer, validate_integer_constraints};
use pydantic_sifr_core::options::InputProfile;
use pydantic_sifr_core::values::ValidatedValue;

fn text(value: &str) -> String {
    value.to_string()
}

fn float(value: f64) -> InputValue {
    InputValue::Float(value.to_bits())
}

fn code(error: &ValidationError) -> &'static str {
    error.details()[0].code
}

fn context(error: &ValidationError, key: &str) -> Option<String> {
    error.details()[0].context_value(key).cloned()
}

#[test]
fn integral_floats_become_integers() {
    let lax = |input: InputValue| exact_integer(&input, false, InputProfile::Native);
    assert_eq!(lax(float(3.0)).unwrap(), "3");
    assert_eq!(lax(float(-42.0)).unwrap(), "-42");
    assert_eq!(lax(float(-0.0)).unwrap(), "0");
    assert_eq!(lax(float(9_007_199_254_740_992.0)).unwrap(), "9007199254740992");
    assert_eq!(lax(float(-9_007_199_254_740_992.0)).unwrap(), "-9007199254740992");
    assert_eq!(lax(float(4_503_599_627_370_497.0)).unwrap(), "4503599627370497");
    assert_eq!(lax(float(1024.0)).unwrap(), "1024");
    for refused in [0.5, 1.5, 9_007_199_254_740_994.0, f64::NAN, f64::INFINITY, 1e-310] {
        let error = lax(float(refused)).unwrap_err();
        assert_eq!(code(&error), "int_parsing");
        assert_eq!(error.details()[0].message, "Input must be a valid integer");
    }
}

#[test]
fn exact_integers_from_other_inputs() {
    assert_eq!(exact_integer(&InputValue::Bool(true), false, InputProfile::Json).unwrap(), "1");
    assert_eq!(exact_integer(&InputValue::Bool(false), false, InputProfile::Json).unwrap(), "0");
    assert_eq!(exact_integer(&InputValue::String(text("-17")), true, InputProfile::Strings).unwrap(), "-17");
    let error = exact_integer(&InputValue::String(text("017")), false, InputProfile::Native).unwrap_err();
    assert_eq!(error.details()[0].message, "Input must be a canonical integer");
    let error = exact_integer(&InputValue::String(text("17")), true, InputProfile::Json).unwrap_err();
    assert_eq!(code(&error), "int_type");
    let error = exact_integer(&InputValue::Null, false, InputProfile::Json).unwrap_err();
    assert_eq!(code(&error), "int_parsing");
    assert_eq!(
        exact_integer(&InputValue::Integer(text("123456789012345678901234567890")), true, InputProfile::Native).unwrap(),
        "123456789012345678901234567890"
    );
}

#[test]
fn fixed_targets_refuse_values_out_of_range() {
    let none = IntegerConstraints::default();
    let value = validate_integer(&InputValue::Integer(text("-128")), true, InputProfile::Native, IntegerTarget::I8, &none).unwrap();
    assert_eq!(value, ValidatedValue::FixedInt { kind: "int8", value: text("-128") });
    let error = validate_integer(&InputValue::Integer(text("128")), true, InputProfile::Native, IntegerTarget::I8, &none).unwrap_err();
    assert_eq!(code(&error), "integer_overflow");
    assert_eq!(error.details()[0].message, "Input does not fit int8");
    assert_eq!(error.details()[0].expected, "int8");
    assert_eq!(context(&error, "minimum").as_deref(), Some("-128"));
    assert_eq!(context(&error, "maximum").as_deref(), Some("127"));
    assert_eq!(context(&error, "target").as_deref(), Some("int8"));
    let error = validate_integer(&InputValue::Integer(text("18446744073709551616")), true, InputProfile::Native, IntegerTarget::U64, &none).unwrap_err();
    assert_eq!(context(&error, "maximum").as_deref(), Some("18446744073709551615"));
    let big = validate_integer(&InputValue::Integer(text("18446744073709551616")), true, InputProfile::Native, IntegerTarget::Exact, &none).unwrap();
    assert_eq!(big, ValidatedValue::ExactInt(text("18446744073709551616")));
    assert_eq!(IntegerTarget::I64.bounds(), Some((i64::MIN, i64::MAX as u64)));
    assert_eq!(IntegerTarget::Exact.bounds(), None);
}

#[test]
fn integer_bounds_are_checked_in_order() {
    let constraints = IntegerConstraints {
        greater_than: Some(text("-10")),
        greater_or_equal: Some(text("0")),
        less_than: Some(text("100")),
        less_or_equal: Some(text("50")),
        multiple_of: Some(text("5")),
    };
    assert!(validate_integer_constraints("25", &constraints).is_ok());
    let error = validate_integer_constraints("-10", &constraints).unwrap_err();
    assert_eq!(code(&error), "greater_than");
    assert_eq!(context(&error, "bound").as_deref(), Some("-10"));
    assert_eq!(code(&validate_integer_constraints("-1", &constraints).unwrap_err()), "greater_than_equal");
    assert_eq!(code(&validate_integer_constraints("100", &constraints).unwrap_err()), "less_than");
    let error = validate_integer_constraints("55", &constraints).unwrap_err();
    assert_eq!(code(&error), "less_than_equal");
    assert_eq!(error.details()[0].message, "Input must be less than or equal");
    let error = validate_integer_constraints("12", &constraints).unwrap_err();
    assert_eq!(code(&error), "multiple_of");
    assert_eq!(context(&error, "multiple_of").as_deref(), Some("5"));
    assert_eq!(error.details()[0].expected, "");
}

#[test]
fn a_zero_step_is_a_schema_error() {
    let zero = IntegerConstraints { multiple_of: Some(text("0")), ..IntegerConstraints::default() };
    let error = validate_integer_constraints("3", &zero).unwrap_err();
    assert_eq!(code(&error), "schema_invalid");
    assert_eq!(error.details()[0].expected, "nonzero integer");
    let huge = IntegerConstraints { multiple_of: Some(text("-7")), ..IntegerConstraints::default() };
    assert!(validate_integer_constraints("-700000000000000000000000000000000000014", &huge).is_ok());
}
