use pydantic_sifr_core::constraints::{AliasPath, AliasSegment};
use pydantic_sifr_core::error::{type_error, LocationItem};
use pydantic_sifr_core::input::{InputId, JsonInputError, NativeInputError};
use pydantic_sifr_core::reports::{
    arena_capacity_error, at_path, decimal_digit_error, json_input_error, native_input_error, reference_target_error,
    top_level_index,
};

#[test]
fn json_input_errors_keep_their_path_as_location() {
    let error = json_input_error(JsonInputError {
        code: "json_invalid",
        message: "duplicate object key `k`".to_string(),
        offset: 0,
        line: 3,
        column: 14,
        path: vec!["outer".to_string(), "inner".to_string()],
    });
    let detail = &error.details()[0];
    assert_eq!(detail.code, "json_invalid");
    assert_eq!(detail.message, "duplicate object key `k`");
    assert_eq!(detail.expected, "valid bounded JSON");
    assert_eq!(detail.context_value("line").map(String::as_str), Some("3"));
    assert_eq!(detail.context_value("column").map(String::as_str), Some("14"));
    assert!(matches!(&detail.location[..], [LocationItem::Field(a), LocationItem::Field(b)] if a == "outer" && b == "inner"));
}

#[test]
fn native_input_errors_carry_their_text() {
    let error = native_input_error(NativeInputError::Limit("maximum depth"));
    let detail = &error.details()[0];
    assert_eq!(detail.code, "input_limit_exceeded");
    assert_eq!(detail.message, "Native input could not be bounded");
    assert_eq!(detail.expected, "bounded structural input");
    assert_eq!(
        detail.context_value("error").map(String::as_str),
        Some("native input limit exceeded: maximum depth")
    );
}

#[test]
fn paths_are_prefixed_in_order() {
    let error = at_path(
        type_error("int_type", "Input must be an integer", "int"),
        &[LocationItem::Field("a".to_string()), LocationItem::Index(2)],
    );
    assert!(matches!(&error.details()[0].location[..], [LocationItem::Field(a), LocationItem::Index(2)] if a == "a"));
}

#[test]
fn top_level_alias_finds_the_first_matching_entry() {
    let id = InputId::from_usize(0).unwrap();
    let entries = vec![("x".to_string(), id), ("y".to_string(), id), ("y".to_string(), id)];
    assert_eq!(top_level_index(&AliasPath::field("y"), &entries), Some(1));
    assert_eq!(top_level_index(&AliasPath::field("z"), &entries), None);
    assert_eq!(top_level_index(&AliasPath { segments: vec![AliasSegment::Index(0)] }, &entries), None);
    assert_eq!(top_level_index(&AliasPath { segments: vec![] }, &entries), None);
}

#[test]
fn fixed_errors_have_their_texts() {
    let error = decimal_digit_error("decimal_max_digits", "max_digits", 5);
    let detail = &error.details()[0];
    assert_eq!(detail.code, "decimal_max_digits");
    assert_eq!(detail.message, "Decimal digit constraint failed");
    assert_eq!(detail.context_value("max_digits").map(String::as_str), Some("5"));
    assert_eq!(arena_capacity_error().details()[0].message, "Validated arena capacity exceeded");
    assert_eq!(reference_target_error().details()[0].expected, "non-flattened definition target");
}
