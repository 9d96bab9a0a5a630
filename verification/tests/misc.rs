use pydantic_sifr_core::adapter::{invalid_schema, invalid_serialization_plan, TypeAdapterBuildErrorKind};
use pydantic_sifr_core::canonical::payload_sha256;
use pydantic_sifr_core::constraints::{IntegerTarget, TemporalKind, TemporalSchema};
use pydantic_sifr_core::error::type_error;
use pydantic_sifr_core::json_schema::{schema_error, JsonSchemaErrorKind};
use pydantic_sifr_core::numeric::FractionError;
use pydantic_sifr_core::serializer::{plan_error, validation_error};

#[test]
fn payload_digest_is_lowercase_sha256_hex() {
    assert_eq!(payload_sha256(b"abc"), "ba7816bf8f01cfea414140de5dae2223b00361a396177a9cb410ff61f20015ad");
    assert_eq!(payload_sha256(b""), "e3b0c44298fc1c149afbf4c8996fb92427ae41e4649b934ca495991b7852b855");
}

#[test]
fn integer_targets_have_two_names() {
    assert_eq!(IntegerTarget::U16.name(), "uint16");
    assert_eq!(IntegerTarget::U16.structural_name(), "u16");
    assert_eq!(IntegerTarget::Exact.name(), "int");
    let schema = TemporalSchema { kind: TemporalKind::DateTime, relative: None };
    assert_eq!(schema.structural_name(), "pydantic_sifr.DateTime");
}

#[test]
fn build_errors_carry_the_failure_text() {
    let error = invalid_schema(type_error("schema_invalid", "Broken", "valid"));
    assert_eq!(error.kind(), TypeAdapterBuildErrorKind::InvalidSchema);
    assert_eq!(error.message(), "schema_invalid: Broken");
    let error = invalid_serialization_plan(plan_error("plan broke".to_string()));
    assert_eq!(error.kind(), TypeAdapterBuildErrorKind::InvalidSerializationPlan);
    assert_eq!(error.message(), "plan broke");
    let plan = validation_error(type_error("a", "b", "c"));
    assert_eq!(plan.message(), "a: b");
    let schema = schema_error(type_error("x", "y", "z"));
    assert_eq!(schema.kind(), JsonSchemaErrorKind::UnsupportedSchema);
    assert_eq!(schema.message(), "x: y");
    assert_eq!(FractionError.message(), "fraction denominator must not be zero");
}
