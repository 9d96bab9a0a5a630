use pydantic_sifr_core::arena::{Arena, ArenaId};
use pydantic_sifr_core::chain::validated_input;
use pydantic_sifr_core::input::{InputArena, InputValue, ObjectKind, SequenceKind};
use pydantic_sifr_core::options::InputProfile;
use pydantic_sifr_core::values::{DateValue, ModelValue, ValidatedArena, ValidatedValue};

fn float_text(bits: u64) -> String {
    f64::from_bits(bits).to_string()
}

fn complex_text(real: u64, imaginary: u64) -> String {
    format!("{}+{}j", f64::from_bits(real), f64::from_bits(imaginary))
}

fn arena(values: Vec<ValidatedValue>) -> ValidatedArena {
    let mut arena = Arena::new();
    let mut last = None;
    for value in values {
        last = Some(arena.push(value).unwrap());
    }
    ValidatedArena::new(last.unwrap(), arena)
}

fn id(raw: usize) -> ArenaId {
    ArenaId::from_usize(raw).unwrap()
}

fn hand_on(source: &ValidatedArena, profile: InputProfile) -> InputArena {
    validated_input(source, profile, &float_text, &complex_text).unwrap()
}

fn failure(source: &ValidatedArena, profile: InputProfile) -> String {
    let error = validated_input(source, profile, &float_text, &complex_text).unwrap_err();
    assert_eq!(error.details()[0].code, "schema_invalid");
    error.details()[0].message.clone()
}

fn root(input: &InputArena) -> &InputValue {
    input.get(input.root()).unwrap()
}

#[test]
fn models_become_objects_of_fields_then_extras() {
    let source = arena(vec![
        ValidatedValue::ExactInt("7".to_string()),
        ValidatedValue::String("s".to_string()),
        ValidatedValue::Model(ModelValue::new("m.M", vec![("a", id(0))], vec![("x".to_string(), id(1))], 1)),
    ]);
    let input = hand_on(&source, InputProfile::Native);
    let InputValue::Object { kind, entries } = root(&input) else { panic!("not an object") };
    assert_eq!(*kind, ObjectKind::Object);
    assert_eq!(entries.len(), 2);
    assert_eq!(entries[0].0, "a");
    assert_eq!(entries[1].0, "x");
    assert!(matches!(input.get(entries[0].1), Some(InputValue::Integer(t)) if t == "7"));
    assert!(matches!(input.get(entries[1].1), Some(InputValue::String(t)) if t == "s"));
    let json = hand_on(&source, InputProfile::Json);
    assert!(matches!(root(&json), InputValue::Object { kind: ObjectKind::JsonObject, .. }));
}

#[test]
fn sequences_keep_their_kind_except_under_json() {
    let source = arena(vec![ValidatedValue::Bool(true), ValidatedValue::Tuple(vec![id(0), id(0)])]);
    let input = hand_on(&source, InputProfile::Native);
    let InputValue::Sequence { kind, items } = root(&input) else { panic!("not a sequence") };
    assert_eq!(*kind, SequenceKind::Tuple);
    assert_eq!(items.len(), 2);
    assert_eq!(items[0], items[1], "a shared value is converted once");
    assert_eq!(input.len(), 2);
    let json = hand_on(&source, InputProfile::Json);
    assert!(matches!(root(&json), InputValue::Sequence { kind: SequenceKind::JsonArray, .. }));
}

#[test]
fn wrappers_hand_on_what_they_wrap() {
    let source = arena(vec![
        ValidatedValue::Decimal("1.50".to_string()),
        ValidatedValue::Nullable(Some(id(0))),
        ValidatedValue::Nullable(None),
        ValidatedValue::Sequence(vec![id(1), id(2)]),
    ]);
    let input = hand_on(&source, InputProfile::Strings);
    let InputValue::Sequence { kind, items } = root(&input) else { panic!("not a sequence") };
    assert_eq!(*kind, SequenceKind::List);
    assert!(matches!(input.get(items[0]), Some(InputValue::Decimal(t)) if t == "1.50"));
    assert!(matches!(input.get(items[1]), Some(InputValue::Null)));
}

#[test]
fn scalars_are_written_as_text_where_input_holds_text() {
    let source = arena(vec![
        ValidatedValue::Date(DateValue { year: 2024, month: 1, day: 2 }),
        ValidatedValue::Uuid([0x12, 0x34, 0x56, 0x78, 0x9a, 0xbc, 0xde, 0xf0, 0, 1, 2, 3, 4, 5, 6, 7]),
        ValidatedValue::Fraction { numerator: "-3".to_string(), denominator: "4".to_string() },
        ValidatedValue::Float(2.5f64.to_bits()),
        ValidatedValue::Sequence(vec![id(0), id(1), id(2), id(3)]),
    ]);
    let input = hand_on(&source, InputProfile::Native);
    let InputValue::Sequence { items, .. } = root(&input) else { panic!("not a sequence") };
    assert!(matches!(input.get(items[0]), Some(InputValue::Date(t)) if t == "2024-01-02"));
    assert!(matches!(input.get(items[1]), Some(InputValue::Uuid(t)) if t == "12345678-9abc-def0-0001-020304050607"));
    assert!(
        matches!(input.get(items[2]), Some(InputValue::Fraction { numerator, denominator }) if numerator == "-3" && denominator == "4")
    );
    assert!(matches!(input.get(items[3]), Some(InputValue::Float(bits)) if *bits == 2.5f64.to_bits()));
}

#[test]
fn json_mapping_keys_are_written_as_text() {
    let source = arena(vec![
        ValidatedValue::Bool(true),
        ValidatedValue::ExactInt("12".to_string()),
        ValidatedValue::Float(0.5f64.to_bits()),
        ValidatedValue::Fraction { numerator: "3".to_string(), denominator: "4".to_string() },
        ValidatedValue::Fraction { numerator: "5".to_string(), denominator: "1".to_string() },
        ValidatedValue::Bytes(b"raw".to_vec()),
        ValidatedValue::Nullable(Some(id(1))),
        ValidatedValue::Null,
        ValidatedValue::Mapping(vec![
            (id(0), id(7)),
            (id(1), id(7)),
            (id(2), id(7)),
            (id(3), id(7)),
            (id(4), id(7)),
            (id(5), id(7)),
            (id(6), id(7)),
        ]),
    ]);
    let input = hand_on(&source, InputProfile::Json);
    let InputValue::Object { kind, entries } = root(&input) else { panic!("not an object") };
    assert_eq!(*kind, ObjectKind::JsonObject);
    let keys: Vec<&str> = entries.iter().map(|entry| entry.0.as_str()).collect();
    assert_eq!(keys, ["true", "12", "0.5", "3/4", "5", "raw", "12"]);
    let native = hand_on(&source, InputProfile::Native);
    let InputValue::Mapping(pairs) = root(&native) else { panic!("not a mapping") };
    assert_eq!(pairs.len(), 7);
    assert!(matches!(native.get(pairs[6].0), Some(InputValue::Integer(t)) if t == "12"));
}

#[test]
fn keys_that_are_not_text_are_refused_under_json() {
    let null_key = arena(vec![ValidatedValue::Null, ValidatedValue::Mapping(vec![(id(0), id(0))])]);
    assert_eq!(failure(&null_key, InputProfile::Json), "Typed chain output cannot represent this JSON mapping key");
    assert!(validated_input(&null_key, InputProfile::Native, &float_text, &complex_text).is_ok());
    let bad_bytes = arena(vec![ValidatedValue::Bytes(vec![0xff]), ValidatedValue::Mapping(vec![(id(0), id(0))])]);
    assert_eq!(failure(&bad_bytes, InputProfile::Json), "Typed chain JSON mapping key is not valid UTF-8");
}

#[test]
fn broken_results_are_refused() {
    let cyclic = arena(vec![ValidatedValue::Sequence(vec![id(0)])]);
    assert_eq!(failure(&cyclic, InputProfile::Native), "Typed chain output contains a cycle");
    let dangling = arena(vec![ValidatedValue::Sequence(vec![id(5)])]);
    assert_eq!(failure(&dangling, InputProfile::Native), "Typed chain output index is invalid");
}

#[test]
fn results_deeper_than_the_limit_are_refused() {
    let mut values = vec![ValidatedValue::Null];
    for k in 0..256 {
        values.push(ValidatedValue::Nullable(Some(id(k))));
    }
    let deep_enough = arena(values.clone());
    assert!(matches!(root(&hand_on(&deep_enough, InputProfile::Native)), InputValue::Null));
    values.push(ValidatedValue::Nullable(Some(id(256))));
    let too_deep = arena(values);
    assert_eq!(failure(&too_deep, InputProfile::Native), "Typed chain output exceeds the handoff depth limit");
}
