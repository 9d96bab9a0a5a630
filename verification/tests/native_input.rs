use pydantic_sifr_core::input::{InputValue, JsonLimits, NativeInputError, ObjectKind, SequenceKind};
use pydantic_sifr_core::native::{build_native_input, NativeValue};

fn text(value: &str) -> String {
    value.to_string()
}

#[test]
fn native_values_are_stored_children_first() {
    let value = NativeValue::Object(vec![(
        text("a"),
        NativeValue::List(vec![NativeValue::Integer(text("1")), NativeValue::String(text("x"))]),
    )]);
    let arena = build_native_input(&value, JsonLimits::default()).unwrap();
    assert_eq!(arena.len(), 4);
    assert_eq!(arena.root().raw(), 3);
    match arena.get(arena.root()).unwrap() {
        InputValue::Object { kind, entries } => {
            assert_eq!(*kind, ObjectKind::Object);
            assert_eq!(entries[0].0, "a");
            match arena.get(entries[0].1).unwrap() {
                InputValue::Sequence { kind, items } => {
                    assert_eq!(*kind, SequenceKind::List);
                    assert_eq!(items.iter().map(|id| id.raw()).collect::<Vec<_>>(), vec![0, 1]);
                }
                other => panic!("unexpected list {other:?}"),
            }
        }
        other => panic!("unexpected root {other:?}"),
    }
}

#[test]
fn native_mappings_store_each_key_before_its_value() {
    let value = NativeValue::Mapping(vec![
        (NativeValue::Integer(text("1")), NativeValue::Bool(true)),
        (NativeValue::Integer(text("2")), NativeValue::Null),
    ]);
    let arena = build_native_input(&value, JsonLimits::default()).unwrap();
    match arena.get(arena.root()).unwrap() {
        InputValue::Mapping(pairs) => {
            let raw: Vec<(u32, u32)> = pairs.iter().map(|(k, v)| (k.raw(), v.raw())).collect();
            assert_eq!(raw, vec![(0, 1), (2, 3)]);
        }
        other => panic!("unexpected mapping {other:?}"),
    }
}

#[test]
fn native_integer_digits_ignore_signs() {
    let mut limits = JsonLimits::default();
    limits.max_integer_digits = 4;
    assert!(build_native_input(&NativeValue::Integer(text("-1234")), limits).is_ok());
    assert_eq!(
        build_native_input(&NativeValue::Integer(text("-12345")), limits).unwrap_err(),
        NativeInputError::Limit("maximum integer digits")
    );
    assert!(build_native_input(
        &NativeValue::Fraction { numerator: text("+1234"), denominator: text("-5") },
        limits
    )
    .is_ok());
    assert_eq!(
        build_native_input(&NativeValue::Decimal(text("12.345e10")), limits).unwrap_err(),
        NativeInputError::Limit("maximum numeric digits")
    );
    assert!(build_native_input(&NativeValue::Decimal(text("1.234e99999")), limits).is_ok());
}

#[test]
fn native_limits_are_checked() {
    let mut limits = JsonLimits::default();
    limits.max_string_bytes = 3;
    assert_eq!(
        build_native_input(&NativeValue::String(text("é€")), limits).unwrap_err(),
        NativeInputError::Limit("total string bytes")
    );
    let mut shallow = JsonLimits::default();
    shallow.max_depth = 1;
    let nested = NativeValue::List(vec![NativeValue::List(vec![NativeValue::Null])]);
    assert_eq!(build_native_input(&nested, shallow).unwrap_err(), NativeInputError::Limit("maximum depth"));
    let mut zero = JsonLimits::default();
    zero.max_collection_items = 0;
    assert_eq!(
        build_native_input(&NativeValue::Null, zero).unwrap_err(),
        NativeInputError::Limit("limits must be greater than zero")
    );
    let mut few = JsonLimits::default();
    few.max_collection_items = 1;
    let pair = NativeValue::Tuple(vec![NativeValue::Null, NativeValue::Null]);
    assert_eq!(build_native_input(&pair, few).unwrap_err(), NativeInputError::Limit("maximum collection items"));
}

#[test]
fn native_input_error_text() {
    assert_eq!(NativeInputError::Limit("maximum depth").text(), "native input limit exceeded: maximum depth");
    assert_eq!(
        NativeInputError::Arena(pydantic_sifr_core::arena::ArenaError::CapacityExceeded).text(),
        "arena capacity exceeds the compact index range"
    );
    assert_eq!(NativeInputError::Projection("bad edge").text(), "structural input is invalid: bad edge");
}
