use pydantic_sifr_core::arena::ArenaId;
use pydantic_sifr_core::input::JsonLimits;
use pydantic_sifr_core::json::parse_json;
use pydantic_sifr_core::native::{build_native_input, NativeValue};
use pydantic_sifr_core::readback::native_value;
use pydantic_sifr_core::serializer::SerializationErrorKind;

#[test]
fn reading_back_a_built_value_gives_it_back() {
    let value = NativeValue::Object(vec![(
        "a".to_string(),
        NativeValue::Mapping(vec![(
            NativeValue::Integer("1".to_string()),
            NativeValue::Tuple(vec![
                NativeValue::Bytes(vec![1, 2]),
                NativeValue::MutableSet(vec![]),
                NativeValue::Fraction { numerator: "-3".to_string(), denominator: "4".to_string() },
                NativeValue::Complex { real: 1, imaginary: 2 },
            ]),
        )]),
    )]);
    let arena = build_native_input(&value, JsonLimits::default()).unwrap();
    let back = native_value(&arena, arena.root()).unwrap();
    assert_eq!(format!("{back:?}"), format!("{value:?}"));
}

#[test]
fn json_arrays_and_objects_read_back_as_lists_and_objects() {
    let arena = parse_json(br#"{"k": [true, null, "s"]}"#, JsonLimits::default()).unwrap();
    let back = native_value(&arena, arena.root()).unwrap();
    let expected = NativeValue::Object(vec![(
        "k".to_string(),
        NativeValue::List(vec![NativeValue::Bool(true), NativeValue::Null, NativeValue::String("s".to_string())]),
    )]);
    assert_eq!(format!("{back:?}"), format!("{expected:?}"));
}

#[test]
fn reading_outside_the_arena_is_refused() {
    let arena = parse_json(b"1", JsonLimits::default()).unwrap();
    let error = native_value(&arena, ArenaId::from_usize(5).unwrap()).unwrap_err();
    assert_eq!(error.kind(), SerializationErrorKind::InvalidProjection);
    assert_eq!(error.message(), "structural projection references a missing value");
}
