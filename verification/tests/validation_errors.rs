use pydantic_sifr_core::error::validator_callback_error;

#[test]
fn callback_error_preserves_the_checked_error_as_context() {
    let error = validator_callback_error("code is rejected");
    let detail = &error.details()[0];

    assert_eq!(detail.code, "validator_error");
    assert_eq!(
        detail.message,
        "Validator callback failed: code is rejected"
    );
    assert_eq!(detail.expected, "successful checked validator");
    assert_eq!(
        detail.context_value("error").map(String::as_str),
        Some("code is rejected")
    );
}

use pydantic_sifr_core::error::{type_error, validate_length, ErrorDetail, LocationItem, ValidationError};

#[test]
fn details_record_context_keys_once() {
    let detail = ErrorDetail::new("code", "message".to_string())
        .expected("expectation".to_string())
        .context("a", "1".to_string())
        .context("b", "2".to_string())
        .context("a", "3".to_string());
    assert_eq!(detail.context_value("a").map(String::as_str), Some("3"));
    assert_eq!(detail.context_value("b").map(String::as_str), Some("2"));
    assert_eq!(detail.context_value("c"), None);
    assert_eq!(detail.context.len(), 2);
    assert_eq!(detail.expected, "expectation");
}

#[test]
fn locations_are_prefixed() {
    let error = type_error("int_type", "Input must be an integer", "int")
        .at(LocationItem::Index(1))
        .at(LocationItem::Field("items".to_string()));
    assert!(matches!(&error.details()[0].location[..], [LocationItem::Field(name), LocationItem::Index(1)] if name == "items"));
}

#[test]
fn appended_errors_respect_the_limit() {
    let mut error = type_error("a", "first", "x");
    let mut other = type_error("b", "second", "x");
    other.append(type_error("c", "third", "x"), 3);
    error.append(other, 2);
    assert_eq!(error.details().len(), 2);
    assert_eq!(error.details()[1].code, "b");
    assert!(error.is_truncated());
    assert!(error.is_full(2));
    assert!(!error.is_full(3));
    let mut full = type_error("a", "first", "x");
    full.append(type_error("b", "second", "x"), 1);
    assert_eq!(full.details().len(), 1);
    assert!(full.is_truncated());
}

#[test]
fn truncation_marks_stick() {
    let mut error = ValidationError::one(ErrorDetail::new("a", "m".to_string()));
    assert!(!error.is_truncated());
    error.mark_truncated();
    assert!(error.is_truncated());
    assert_eq!(error.details().len(), 1);
}

#[test]
fn error_text_uses_the_first_detail() {
    assert_eq!(type_error("int_type", "Input must be an integer", "int").text(), "int_type: Input must be an integer");
}

#[test]
fn lengths_are_checked_against_inclusive_bounds() {
    assert!(validate_length(3, Some(3), Some(3), "list").is_ok());
    let short = validate_length(1, Some(2), None, "list").unwrap_err();
    assert_eq!(short.details()[0].code, "too_short");
    assert_eq!(short.details()[0].message, "list is too short");
    assert_eq!(short.details()[0].context_value("minimum").map(String::as_str), Some("2"));
    let long = validate_length(10, None, Some(4), "string").unwrap_err();
    assert_eq!(long.details()[0].code, "too_long");
    assert_eq!(long.details()[0].context_value("maximum").map(String::as_str), Some("4"));
}

#[test]
fn appending_one_detail_under_a_wide_limit_keeps_both() {
    let mut error = type_error("a", "first", "x");
    error.append(type_error("b", "second", "x"), 128);
    assert_eq!(error.details().len(), 2);
    assert_eq!(error.details()[0].code, "a");
    assert_eq!(error.details()[1].code, "b");
    assert!(!error.is_truncated());
}
