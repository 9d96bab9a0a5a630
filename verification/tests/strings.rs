use pydantic_sifr_core::error::ValidationError;
use pydantic_sifr_core::input::InputValue;
use pydantic_sifr_core::strings::{validate_string, StringConstraints, StringPattern};
use pydantic_sifr_core::values::ValidatedValue;

fn float_text(bits: u64) -> String {
    f64::from_bits(bits).to_string()
}

fn text(value: &str) -> String {
    value.to_string()
}

fn run(input: InputValue, strict: bool, constraints: &StringConstraints) -> Result<ValidatedValue, ValidationError> {
    validate_string(&input, strict, constraints, &float_text)
}

fn code(result: Result<ValidatedValue, ValidationError>) -> &'static str {
    result.unwrap_err().details()[0].code
}

#[test]
fn strings_are_trimmed_checked_and_converted() {
    let constraints = StringConstraints {
        strip_whitespace: true,
        to_upper: true,
        min_length: Some(2),
        ..StringConstraints::default()
    };
    assert_eq!(run(InputValue::String(text("  héllo \n")), true, &constraints).unwrap(), ValidatedValue::String(text("HÉLLO")));
    let lower = StringConstraints { to_lower: true, ..StringConstraints::default() };
    assert_eq!(run(InputValue::String(text("MiXeD")), false, &lower).unwrap(), ValidatedValue::String(text("mixed")));
}

#[test]
fn conflicting_case_conversions_are_a_schema_error() {
    let both = StringConstraints { to_upper: true, to_lower: true, ..StringConstraints::default() };
    let error = run(InputValue::String(text("x")), false, &both).unwrap_err();
    assert_eq!(error.details()[0].code, "schema_invalid");
    assert_eq!(error.details()[0].expected, "one case conversion");
}

#[test]
fn lax_strings_come_from_bytes_and_numbers() {
    let plain = StringConstraints::default();
    assert_eq!(run(InputValue::Bytes(b"abc".to_vec()), false, &plain).unwrap(), ValidatedValue::String(text("abc")));
    assert_eq!(code(run(InputValue::Bytes(vec![0xff]), false, &plain)), "string_unicode");
    assert_eq!(code(run(InputValue::Bytes(b"abc".to_vec()), true, &plain)), "string_type");
    assert_eq!(code(run(InputValue::Integer(text("12")), false, &plain)), "string_type");
    let numbers = StringConstraints { coerce_numbers_to_str: true, ..StringConstraints::default() };
    assert_eq!(run(InputValue::Integer(text("12")), false, &numbers).unwrap(), ValidatedValue::String(text("12")));
    assert_eq!(run(InputValue::Decimal(text("1.50")), false, &numbers).unwrap(), ValidatedValue::String(text("1.50")));
    assert_eq!(run(InputValue::Float(2.5f64.to_bits()), false, &numbers).unwrap(), ValidatedValue::String(text("2.5")));
    assert_eq!(code(run(InputValue::Float(f64::NAN.to_bits()), false, &numbers)), "string_type");
    assert_eq!(code(run(InputValue::Integer(text("12")), true, &numbers)), "string_type");
}

#[test]
fn ascii_length_and_pattern_checks() {
    let ascii = StringConstraints { ascii_only: true, ..StringConstraints::default() };
    assert_eq!(code(run(InputValue::String(text("é")), false, &ascii)), "string_not_ascii");
    let short = StringConstraints { max_length: Some(2), ..StringConstraints::default() };
    let error = run(InputValue::String(text("ééé")), false, &short).unwrap_err();
    assert_eq!(error.details()[0].code, "too_long");
    assert_eq!(error.details()[0].message, "string is too long");
    assert!(run(InputValue::String(text("éé")), false, &short).is_ok());
    let pattern = StringPattern::compile(text("^[a-z]+$")).unwrap();
    assert_eq!(pattern.source(), "^[a-z]+$");
    let matching = StringConstraints { pattern: Some(pattern), ..StringConstraints::default() };
    assert!(run(InputValue::String(text("abc")), false, &matching).is_ok());
    let error = run(InputValue::String(text("abc1")), false, &matching).unwrap_err();
    assert_eq!(error.details()[0].code, "string_pattern_mismatch");
    assert_eq!(error.details()[0].context_value("pattern").map(String::as_str), Some("^[a-z]+$"));
    assert!(StringPattern::compile(text("(")).is_err());
}

#[test]
fn trimming_removes_unicode_white_space_only() {
    let strip = StringConstraints { strip_whitespace: true, ..StringConstraints::default() };
    assert_eq!(
        run(InputValue::String("\u{3000} a b\u{a0}\n\t".to_string()), false, &strip).unwrap(),
        ValidatedValue::String("a b".to_string())
    );
    assert_eq!(
        run(InputValue::String("\u{200b}x\u{200b}".to_string()), false, &strip).unwrap(),
        ValidatedValue::String("\u{200b}x\u{200b}".to_string())
    );
}
