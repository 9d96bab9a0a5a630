use pydantic_sifr_core::arena::ArenaId;
use pydantic_sifr_core::error::ValidationLimits;
use pydantic_sifr_core::input::JsonLimits;
use pydantic_sifr_core::input_checks::{check_collection_limit, check_input_limits, check_strings_profile};
use pydantic_sifr_core::json::parse_json;

fn code_and_message(error: &pydantic_sifr_core::error::ValidationError) -> (&'static str, String) {
    let detail = &error.details()[0];
    (detail.code, detail.message.clone())
}

#[test]
fn limit_walk_accepts_bounded_input() {
    let arena = parse_json(br#"{"ab": ["cd", {"e": 1}]}"#, JsonLimits::default()).unwrap();
    assert!(check_input_limits(&arena, arena.root(), 0, ValidationLimits::default()).is_ok());
}

#[test]
fn limit_walk_refuses_deep_input() {
    let arena = parse_json(b"[[1]]", JsonLimits::default()).unwrap();
    let mut limits = ValidationLimits::default();
    limits.max_depth = 1;
    let error = check_input_limits(&arena, arena.root(), 0, limits).unwrap_err();
    assert_eq!(code_and_message(&error), ("recursion_limit", "Validation recursion limit exceeded".to_string()));
    assert_eq!(error.details()[0].expected, "bounded input");
    assert!(check_input_limits(&arena, arena.root(), 0, ValidationLimits { max_depth: 2, ..limits }).is_ok());
    assert!(check_input_limits(&arena, arena.root(), 1, ValidationLimits { max_depth: 2, ..limits }).is_err());
}

#[test]
fn limit_walk_refuses_large_collections_and_strings() {
    let arena = parse_json(b"[1, 2, 3]", JsonLimits::default()).unwrap();
    let mut limits = ValidationLimits::default();
    limits.max_collection_items = 2;
    let error = check_input_limits(&arena, arena.root(), 0, limits).unwrap_err();
    assert_eq!(code_and_message(&error), ("resource_limit", "Validation collection item limit exceeded".to_string()));

    let arena = parse_json(br#"{"ab": "cd"}"#, JsonLimits::default()).unwrap();
    let mut limits = ValidationLimits::default();
    limits.max_string_bytes = 3;
    let error = check_input_limits(&arena, arena.root(), 0, limits).unwrap_err();
    assert_eq!(code_and_message(&error), ("resource_limit", "Validation string byte limit exceeded".to_string()));
    limits.max_string_bytes = 4;
    assert!(check_input_limits(&arena, arena.root(), 0, limits).is_ok());
}

#[test]
fn limit_walk_counts_mapping_keys_and_values() {
    let value = pydantic_sifr_core::native::NativeValue::Mapping(vec![(
        pydantic_sifr_core::native::NativeValue::String("abc".to_string()),
        pydantic_sifr_core::native::NativeValue::String("de".to_string()),
    )]);
    let arena = pydantic_sifr_core::native::build_native_input(&value, JsonLimits::default()).unwrap();
    let mut limits = ValidationLimits::default();
    limits.max_string_bytes = 5;
    assert!(check_input_limits(&arena, arena.root(), 0, limits).is_ok());
    limits.max_string_bytes = 4;
    assert!(check_input_limits(&arena, arena.root(), 0, limits).is_err());
}

#[test]
fn limit_walk_refuses_a_missing_root() {
    let arena = parse_json(b"1", JsonLimits::default()).unwrap();
    let error = check_input_limits(&arena, ArenaId::from_usize(99).unwrap(), 0, ValidationLimits::default())
        .unwrap_err();
    assert_eq!(code_and_message(&error), ("internal_input", "Input arena index is invalid".to_string()));
}

#[test]
fn strings_profile_needs_string_leaves() {
    let arena = parse_json(br#"{"a": ["x", "y"], "b": {"c": "d"}}"#, JsonLimits::default()).unwrap();
    assert!(check_strings_profile(&arena, arena.root()).is_ok());
    let arena = parse_json(br#"{"a": ["x", 1]}"#, JsonLimits::default()).unwrap();
    let error = check_strings_profile(&arena, arena.root()).unwrap_err();
    assert_eq!(
        code_and_message(&error),
        ("strings_type", "Strings profile requires string scalar leaves".to_string())
    );
    assert_eq!(error.details()[0].expected, "structural strings");
    let missing = check_strings_profile(&arena, ArenaId::from_usize(50).unwrap()).unwrap_err();
    assert_eq!(missing.details()[0].code, "internal_input");
}

#[test]
fn collection_limit_is_inclusive() {
    let mut limits = ValidationLimits::default();
    limits.max_collection_items = 3;
    assert!(check_collection_limit(3, limits).is_ok());
    assert!(check_collection_limit(4, limits).is_err());
}
