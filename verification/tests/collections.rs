use pydantic_sifr_core::arena::ArenaId;
use pydantic_sifr_core::collections::{sequence_input, stop_after_error_cap};
use pydantic_sifr_core::error::{ErrorDetail, ValidationError};
use pydantic_sifr_core::input::{JsonLimits, SequenceKind};
use pydantic_sifr_core::json::parse_json;
use pydantic_sifr_core::native::{build_native_input, NativeValue};
use pydantic_sifr_core::options::{InputProfile, ValidationOptions};

fn ints(values: &[&str]) -> Vec<NativeValue> {
    values.iter().map(|v| NativeValue::Integer(v.to_string())).collect()
}

fn options(strict: bool, profile: InputProfile) -> ValidationOptions {
    ValidationOptions { strict, profile, ..ValidationOptions::default() }
}

#[test]
fn lax_sequences_hand_out_their_items_whatever_their_kind() {
    let arena = build_native_input(&NativeValue::Tuple(ints(&["1", "2"])), JsonLimits::default()).unwrap();
    let items = sequence_input(&arena, arena.root(), "list", SequenceKind::List, options(false, InputProfile::Native))
        .unwrap();
    assert_eq!(items.iter().map(|id| id.raw()).collect::<Vec<_>>(), vec![0, 1]);
}

#[test]
fn strict_native_sequences_must_match_the_kind() {
    let arena = build_native_input(&NativeValue::Tuple(ints(&["1"])), JsonLimits::default()).unwrap();
    let error = sequence_input(&arena, arena.root(), "list", SequenceKind::List, options(true, InputProfile::Native))
        .unwrap_err();
    assert_eq!(error.details()[0].code, "collection_type");
    assert_eq!(error.details()[0].message, "Native collection kind does not match the schema");
    assert_eq!(error.details()[0].expected, "list");
    let same = sequence_input(&arena, arena.root(), "tuple", SequenceKind::Tuple, options(true, InputProfile::Native));
    assert_eq!(same.unwrap().len(), 1);
}

#[test]
fn strict_json_sequences_must_be_arrays() {
    let arena = parse_json(b"[1, 2, 3]", JsonLimits::default()).unwrap();
    let items = sequence_input(&arena, arena.root(), "set", SequenceKind::MutableSet, options(true, InputProfile::Json))
        .unwrap();
    assert_eq!(items.len(), 3);
}

#[test]
fn non_sequences_and_bad_indices_are_refused() {
    let arena = build_native_input(&NativeValue::Bool(true), JsonLimits::default()).unwrap();
    let error = sequence_input(&arena, arena.root(), "list", SequenceKind::List, options(false, InputProfile::Native))
        .unwrap_err();
    assert_eq!(error.details()[0].message, "Input must be a sequence");
    let missing = ArenaId::from_usize(5).unwrap();
    let error = sequence_input(&arena, missing, "list", SequenceKind::List, options(false, InputProfile::Native))
        .unwrap_err();
    assert_eq!(error.details()[0].code, "internal_input");
    assert_eq!(error.details()[0].expected, "valid input arena");
}

#[test]
fn the_error_cap_truncates_only_when_more_children_remain() {
    let mut none: Option<ValidationError> = None;
    assert!(!stop_after_error_cap(&mut none, 1, true));
    assert!(none.is_none());

    let mut full = Some(ValidationError::one(ErrorDetail::new("a", "first".to_string())));
    assert!(stop_after_error_cap(&mut full, 1, false));
    assert!(!full.as_ref().unwrap().is_truncated());
    assert!(stop_after_error_cap(&mut full, 1, true));
    assert!(full.as_ref().unwrap().is_truncated());

    let mut room = Some(ValidationError::one(ErrorDetail::new("a", "first".to_string())));
    assert!(!stop_after_error_cap(&mut room, 2, true));
    assert!(!room.unwrap().is_truncated());
}
