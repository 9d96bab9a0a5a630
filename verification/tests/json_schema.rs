use pydantic_sifr_core::constraints::{AliasPath, AliasSegment};
use pydantic_sifr_core::json_schema::{
    escape_json_pointer, field_name, integer_bounds, integer_schema, is_javascript_safe_range, model_field_name,
    JsonIntegerProfile, JsonSchemaErrorKind, JsonSchemaMode, JsonSchemaOptions, SchemaScalar,
};
use pydantic_sifr_core::{IntegerConstraints, IntegerTarget};

fn serialization(by_alias: bool) -> JsonSchemaOptions {
    JsonSchemaOptions::new(JsonSchemaMode::Serialization, by_alias)
}

fn validation() -> JsonSchemaOptions {
    JsonSchemaOptions::new(JsonSchemaMode::Validation, false)
}

#[test]
fn json_pointer_tokens_escape_tilde_then_slash() {
    assert_eq!(escape_json_pointer("a~b/c"), "a~0b~1c");
    assert_eq!(escape_json_pointer("~1"), "~01");
    assert_eq!(escape_json_pointer("plain"), "plain");
    assert_eq!(escape_json_pointer("é/ü"), "é~1ü");
    assert_eq!(escape_json_pointer(""), "");
}

#[test]
fn serialization_names_use_the_alias_when_asked() {
    assert_eq!(model_field_name(false, "name", Some("alias"), &[], serialization(true)).unwrap(), "alias");
    assert_eq!(model_field_name(false, "name", Some("alias"), &[], serialization(false)).unwrap(), "name");
    assert_eq!(model_field_name(false, "name", None, &[], serialization(true)).unwrap(), "name");
    let error = model_field_name(false, "name", Some(""), &[], serialization(true)).unwrap_err();
    assert_eq!(error.kind(), JsonSchemaErrorKind::UnsupportedSchema);
    assert_eq!(error.message(), "serialization alias must not be empty");
    assert_eq!(error.diagnostic_code(), None);
    assert_eq!(field_name(false, "name", Some(String::new()), &[], serialization(true)).unwrap(), "");
}

#[test]
fn validation_names_use_one_field_alias() {
    let alias = [AliasPath::field("wire")];
    assert_eq!(model_field_name(false, "name", None, &alias, validation()).unwrap(), "wire");
    assert_eq!(field_name(false, "name", None, &alias, validation()).unwrap(), "wire");
    assert_eq!(model_field_name(false, "name", None, &[], validation()).unwrap(), "name");
    let message = "validation aliases need one field alias with populate_by_name disabled";
    assert_eq!(model_field_name(true, "name", None, &alias, validation()).unwrap_err().message(), message);
    let two = [AliasPath::field("a"), AliasPath::field("b")];
    assert_eq!(field_name(false, "name", None, &two, validation()).unwrap_err().message(), message);
    let indexed = [AliasPath { segments: vec![AliasSegment::Index(0)] }];
    assert_eq!(model_field_name(false, "name", None, &indexed, validation()).unwrap_err().message(), message);
    let empty = [AliasPath::field("")];
    assert_eq!(
        model_field_name(false, "name", None, &empty, validation()).unwrap_err().message(),
        "validation alias must not be empty"
    );
}

#[test]
fn integer_bounds_narrow_the_target_range() {
    let constraints = IntegerConstraints {
        greater_than: Some("-5".to_string()),
        greater_or_equal: None,
        less_than: Some("50".to_string()),
        less_or_equal: Some("100".to_string()),
        multiple_of: None,
    };
    assert_eq!(
        integer_bounds(IntegerTarget::I8, &constraints),
        (Some("-4".to_string()), Some("49".to_string()))
    );
    let open = IntegerConstraints {
        greater_than: None,
        greater_or_equal: Some("-3".to_string()),
        less_than: None,
        less_or_equal: None,
        multiple_of: None,
    };
    assert_eq!(integer_bounds(IntegerTarget::U8, &open), (Some("0".to_string()), Some("255".to_string())));
    assert_eq!(integer_bounds(IntegerTarget::Exact, &open), (Some("-3".to_string()), None));
    let none = IntegerConstraints {
        greater_than: None,
        greater_or_equal: None,
        less_than: None,
        less_or_equal: None,
        multiple_of: None,
    };
    assert_eq!(integer_bounds(IntegerTarget::Exact, &none), (None, None));
    assert_eq!(
        integer_bounds(IntegerTarget::I64, &none),
        (Some("-9223372036854775808".to_string()), Some("9223372036854775807".to_string()))
    );
}

#[test]
fn javascript_safe_ranges_need_both_bounds_within_two_to_the_fifty_three() {
    let lo = Some("-9007199254740991".to_string());
    let hi = Some("9007199254740991".to_string());
    assert!(is_javascript_safe_range(&lo, &hi));
    assert!(!is_javascript_safe_range(&lo, &Some("9007199254740992".to_string())));
    assert!(!is_javascript_safe_range(&Some("-9007199254740992".to_string()), &hi));
    assert!(!is_javascript_safe_range(&None, &hi));
}

#[test]
fn integer_schemas_follow_the_integer_profile() {
    let text = |s: &str| SchemaScalar::Text(s.to_string());
    let number = |s: &str| SchemaScalar::Number(s.to_string());
    let lo = Some("-4".to_string());
    let hi = Some("49".to_string());
    let exact = integer_schema(JsonSchemaMode::Validation, JsonIntegerProfile::Exact, &lo, &hi, &Some("3".to_string())).unwrap();
    assert_eq!(
        exact,
        vec![
            ("type", text("integer")),
            ("minimum", number("-4")),
            ("maximum", number("49")),
            ("multipleOf", number("3")),
            ("x-sifr-integer-profile", text("exact")),
            ("x-sifr-generated-client-warning", text("client must use an exact integer JSON parser for this field")),
        ]
    );
    let web = integer_schema(JsonSchemaMode::Validation, JsonIntegerProfile::Web, &lo, &hi, &None).unwrap();
    assert_eq!(web.last().unwrap(), &("x-sifr-integer-profile", text("web")));
    assert_eq!(web.len(), 4);
    let refused = integer_schema(JsonSchemaMode::Validation, JsonIntegerProfile::Web, &None, &hi, &None).unwrap_err();
    assert_eq!(refused.kind(), JsonSchemaErrorKind::IntegerPolicy);
    assert_eq!(refused.diagnostic_code(), Some("SIFR-INT-0009"));
    let strings = integer_schema(JsonSchemaMode::Serialization, JsonIntegerProfile::StringInts, &lo, &None, &None).unwrap();
    assert_eq!(
        strings,
        vec![
            ("type", text("string")),
            ("pattern", text("^-?[0-9]+$")),
            ("x-sifr-format", text("integer-decimal-string")),
            ("x-sifr-integer-profile", text("string_ints")),
            ("x-sifr-minimum", number("-4")),
        ]
    );
    let validating = integer_schema(JsonSchemaMode::Validation, JsonIntegerProfile::StringInts, &lo, &None, &None).unwrap();
    assert_eq!(validating[0], ("type", text("integer")));
}
