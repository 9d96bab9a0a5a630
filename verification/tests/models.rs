use pydantic_sifr_core::arena::ArenaId;
use pydantic_sifr_core::input::JsonLimits;
use pydantic_sifr_core::json::parse_json;
use pydantic_sifr_core::error::LocationItem;
use pydantic_sifr_core::models::{forbid_extra_entries, model_input, order_model_fields};
use pydantic_sifr_core::native::{build_native_input, NativeValue};
use pydantic_sifr_core::options::{InputProfile, ValidationOptions};

fn options(strict: bool, profile: InputProfile) -> ValidationOptions {
    ValidationOptions { strict, profile, ..ValidationOptions::default() }
}

#[test]
fn strict_models_take_the_object_kind_of_their_profile() {
    let json = parse_json(br#"{"a": 1, "b": 2}"#, JsonLimits::default()).unwrap();
    let entries = model_input(&json, json.root(), options(true, InputProfile::Json)).unwrap();
    let names: Vec<&str> = entries.iter().map(|(name, _)| name.as_str()).collect();
    assert_eq!(names, vec!["a", "b"]);
    let error = model_input(&json, json.root(), options(true, InputProfile::Native)).unwrap_err();
    assert_eq!(error.details()[0].code, "model_type");
    assert_eq!(error.details()[0].message, "Object kind does not match the input profile");
    assert_eq!(error.details()[0].expected, "profile object");
    assert!(model_input(&json, json.root(), options(false, InputProfile::Native)).is_ok());

    let native = build_native_input(
        &NativeValue::Object(vec![("x".to_string(), NativeValue::Bool(true))]),
        JsonLimits::default(),
    )
    .unwrap();
    assert_eq!(model_input(&native, native.root(), options(true, InputProfile::Strings)).unwrap().len(), 1);
    assert!(model_input(&native, native.root(), options(true, InputProfile::Json)).is_err());
    let overridden = ValidationOptions { strict_override: Some(false), ..options(true, InputProfile::Json) };
    assert!(model_input(&native, native.root(), overridden).is_ok());
}

#[test]
fn models_need_objects() {
    let arena = build_native_input(&NativeValue::Bool(true), JsonLimits::default()).unwrap();
    let error = model_input(&arena, arena.root(), options(false, InputProfile::Native)).unwrap_err();
    assert_eq!(error.details()[0].message, "Input must be an object");
    assert_eq!(error.details()[0].expected, "object");
    let missing = ArenaId::from_usize(9).unwrap();
    let error = model_input(&arena, missing, options(false, InputProfile::Native)).unwrap_err();
    assert_eq!(error.details()[0].code, "internal_input");
}

#[test]
fn fields_come_out_in_declaration_order() {
    let a = ArenaId::from_usize(1).unwrap();
    let b = ArenaId::from_usize(2).unwrap();
    let fields = vec![("first", false), ("later", true), ("second", false)];
    let values = vec![("second", b), ("first", a)];
    assert_eq!(order_model_fields(&fields, &values).unwrap(), vec![("first", a), ("second", b)]);
    let error = order_model_fields(&vec![("first", false), ("gone", false)], &values).unwrap_err();
    assert_eq!(error.details()[0].code, "schema_invalid");
    assert_eq!(error.details()[0].message, "A non-input model field has no value source");
}

#[test]
fn unconsumed_entries_are_forbidden_extras() {
    let id = ArenaId::from_usize(0).unwrap();
    let entries = vec![("a".to_string(), id), ("b".to_string(), id), ("c".to_string(), id)];
    let mut errors = None;
    forbid_extra_entries(&entries, &vec![1], &mut errors, 10);
    let error = errors.unwrap();
    assert_eq!(error.details().len(), 2);
    assert_eq!(error.details()[0].code, "extra_forbidden");
    assert_eq!(error.details()[0].message, "Extra inputs are not permitted");
    assert_eq!(error.details()[0].expected, "declared model field");
    assert!(matches!(&error.details()[0].location[..], [LocationItem::Field(name)] if name == "a"));
    assert!(matches!(&error.details()[1].location[..], [LocationItem::Field(name)] if name == "c"));
    assert!(!error.is_truncated());
    let mut capped = None;
    forbid_extra_entries(&entries, &vec![1], &mut capped, 1);
    let capped = capped.unwrap();
    assert_eq!(capped.details().len(), 1);
    assert!(capped.is_truncated());
    let mut none = None;
    forbid_extra_entries(&entries, &vec![0, 1, 2], &mut none, 10);
    assert!(none.is_none());
}
