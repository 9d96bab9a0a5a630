use pydantic_sifr_core::constraints::IntegerConstraints;
use pydantic_sifr_core::error::ValidationError;
use pydantic_sifr_core::fractions::{rational_from_decimal, rational_from_parts, validate_fraction};
use pydantic_sifr_core::input::InputValue;
use pydantic_sifr_core::options::InputProfile;
use pydantic_sifr_core::values::ValidatedValue;

fn text(value: &str) -> String {
    value.to_string()
}

fn fraction(numerator: &str, denominator: &str) -> ValidatedValue {
    ValidatedValue::Fraction { numerator: text(numerator), denominator: text(denominator) }
}

fn code<T: std::fmt::Debug>(result: Result<T, ValidationError>) -> &'static str {
    result.unwrap_err().details()[0].code
}

#[test]
fn fractions_are_put_in_lowest_terms() {
    assert_eq!(rational_from_parts("6", "-8").unwrap(), (text("-3"), text("4")));
    assert_eq!(rational_from_parts("0", "5").unwrap(), (text("0"), text("1")));
    let error = rational_from_parts("1", "0").unwrap_err();
    assert_eq!(error.details()[0].code, "fraction_zero_denominator");
    assert_eq!(error.details()[0].expected, "nonzero denominator");
    assert_eq!(code(rational_from_parts("01", "2")), "int_parsing");
}

#[test]
fn decimals_become_fractions() {
    assert_eq!(rational_from_decimal("1.25").unwrap(), (text("5"), text("4")));
    assert_eq!(rational_from_decimal("-0.5").unwrap(), (text("-1"), text("2")));
    assert_eq!(rational_from_decimal("12e3").unwrap(), (text("12000"), text("1")));
    assert_eq!(code(rational_from_decimal("x")), "fraction_parsing");
    let error = rational_from_decimal("1e-9999999999").unwrap_err();
    assert_eq!(error.details()[0].message, "Decimal exponent is too large");
}

#[test]
fn fraction_inputs_by_kind() {
    let none = IntegerConstraints::default();
    let run = |input: InputValue, strict: bool, profile: InputProfile| validate_fraction(&input, strict, profile, &none);
    assert_eq!(
        run(InputValue::Fraction { numerator: text("2"), denominator: text("4") }, true, InputProfile::Native).unwrap(),
        fraction("1", "2")
    );
    assert_eq!(run(InputValue::Integer(text("3")), false, InputProfile::Native).unwrap(), fraction("3", "1"));
    assert_eq!(code(run(InputValue::Integer(text("3")), true, InputProfile::Native)), "fraction_type");
    assert_eq!(run(InputValue::Decimal(text("0.75")), false, InputProfile::Native).unwrap(), fraction("3", "4"));
    assert_eq!(code(run(InputValue::Decimal(text("0.75")), true, InputProfile::Json)), "fraction_type");
    assert_eq!(run(InputValue::String(text("10/-4")), false, InputProfile::Json).unwrap(), fraction("-5", "2"));
    assert_eq!(run(InputValue::String(text("2.5")), true, InputProfile::Strings).unwrap(), fraction("5", "2"));
    assert_eq!(run(InputValue::String(text("7")), false, InputProfile::Json).unwrap(), fraction("7", "1"));
    assert_eq!(code(run(InputValue::String(text("1/2/3")), false, InputProfile::Json)), "int_parsing");
    assert_eq!(code(run(InputValue::String(text("7")), true, InputProfile::Json)), "fraction_type");
    assert_eq!(code(run(InputValue::Bool(true), false, InputProfile::Json)), "fraction_type");
}

#[test]
fn fraction_numerators_keep_integer_constraints() {
    let positive = IntegerConstraints { greater_than: Some(text("0")), ..IntegerConstraints::default() };
    let error = validate_fraction(&InputValue::String(text("-1/2")), false, InputProfile::Json, &positive).unwrap_err();
    assert_eq!(error.details()[0].code, "greater_than");
    assert!(validate_fraction(&InputValue::String(text("1/2")), false, InputProfile::Json, &positive).is_ok());
}

#[test]
fn fraction_normalizes_sign_and_common_factors() {
    let value = pydantic_sifr_core::numeric::Fraction::new("6", "-8")
        .unwrap_or_else(|error| panic!("fraction failed: {}", error.message()));
    assert_eq!(value.text(), "-3/4");
    assert!(pydantic_sifr_core::numeric::Fraction::new("1", "0").is_err());
}

#[test]
fn integral_fractions_are_written_as_integers() {
    let value = pydantic_sifr_core::numeric::Fraction::new("-12", "4").unwrap();
    assert_eq!(value.text(), "-3");
    assert_eq!(value.numerator(), "-3");
    assert_eq!(value.denominator(), "1");
}
