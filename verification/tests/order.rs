use std::cmp::Ordering;

use pydantic_sifr_core::arena::{Arena, ArenaId};
use pydantic_sifr_core::input::{InputValue, ObjectKind, SequenceKind};
use pydantic_sifr_core::order::compare_input_ids;

fn push(arena: &mut Arena<InputValue>, value: InputValue) -> ArenaId {
    arena.push(value).unwrap()
}

#[test]
fn values_of_different_kinds_order_by_kind() {
    let mut arena = Arena::new();
    let null = push(&mut arena, InputValue::Null);
    let flag = push(&mut arena, InputValue::Bool(true));
    let int = push(&mut arena, InputValue::Integer("1".to_string()));
    let text = push(&mut arena, InputValue::String("a".to_string()));
    assert_eq!(compare_input_ids(&arena, null, flag), Ordering::Less);
    assert_eq!(compare_input_ids(&arena, int, flag), Ordering::Greater);
    assert_eq!(compare_input_ids(&arena, int, text), Ordering::Less);
    assert_eq!(compare_input_ids(&arena, text, text), Ordering::Equal);
}

#[test]
fn booleans_put_false_first() {
    let mut arena = Arena::new();
    let no = push(&mut arena, InputValue::Bool(false));
    let yes = push(&mut arena, InputValue::Bool(true));
    assert_eq!(compare_input_ids(&arena, no, yes), Ordering::Less);
    assert_eq!(compare_input_ids(&arena, yes, no), Ordering::Greater);
}

#[test]
fn integers_and_strings_compare_as_text() {
    let mut arena = Arena::new();
    let ten = push(&mut arena, InputValue::Integer("10".to_string()));
    let nine = push(&mut arena, InputValue::Integer("9".to_string()));
    let ab = push(&mut arena, InputValue::String("ab".to_string()));
    let a = push(&mut arena, InputValue::String("a".to_string()));
    let e_acute = push(&mut arena, InputValue::String("\u{e9}".to_string()));
    assert_eq!(compare_input_ids(&arena, ten, nine), Ordering::Less);
    assert_eq!(compare_input_ids(&arena, a, ab), Ordering::Less);
    assert_eq!(compare_input_ids(&arena, e_acute, ab), Ordering::Greater);
}

#[test]
fn floats_follow_the_total_order() {
    let mut arena = Arena::new();
    let neg_two = push(&mut arena, InputValue::Float((-2.0f64).to_bits()));
    let neg_one = push(&mut arena, InputValue::Float((-1.0f64).to_bits()));
    let neg_zero = push(&mut arena, InputValue::Float((-0.0f64).to_bits()));
    let zero = push(&mut arena, InputValue::Float(0.0f64.to_bits()));
    let one = push(&mut arena, InputValue::Float(1.0f64.to_bits()));
    let nan = push(&mut arena, InputValue::Float(f64::NAN.to_bits()));
    assert_eq!(compare_input_ids(&arena, neg_two, neg_one), Ordering::Less);
    assert_eq!(compare_input_ids(&arena, neg_one, neg_zero), Ordering::Less);
    assert_eq!(compare_input_ids(&arena, neg_zero, zero), Ordering::Less);
    assert_eq!(compare_input_ids(&arena, one, zero), Ordering::Greater);
    assert_eq!(compare_input_ids(&arena, nan, one), Ordering::Greater);
    assert_eq!(
        compare_input_ids(&arena, one, zero),
        1.0f64.total_cmp(&0.0f64)
    );
}

#[test]
fn bytes_compare_lexicographically() {
    let mut arena = Arena::new();
    let short = push(&mut arena, InputValue::Bytes(vec![1, 2]));
    let long = push(&mut arena, InputValue::Bytes(vec![1, 2, 0]));
    let high = push(&mut arena, InputValue::Bytes(vec![3]));
    assert_eq!(compare_input_ids(&arena, short, long), Ordering::Less);
    assert_eq!(compare_input_ids(&arena, high, long), Ordering::Greater);
}

#[test]
fn sequences_compare_by_kind_then_items_then_length() {
    let mut arena = Arena::new();
    let one = push(&mut arena, InputValue::Integer("1".to_string()));
    let two = push(&mut arena, InputValue::Integer("2".to_string()));
    let list_12 = push(&mut arena, InputValue::Sequence { kind: SequenceKind::List, items: vec![one, two] });
    let list_2 = push(&mut arena, InputValue::Sequence { kind: SequenceKind::List, items: vec![two] });
    let list_1 = push(&mut arena, InputValue::Sequence { kind: SequenceKind::List, items: vec![one] });
    let tuple_1 = push(&mut arena, InputValue::Sequence { kind: SequenceKind::Tuple, items: vec![one] });
    assert_eq!(compare_input_ids(&arena, list_12, list_2), Ordering::Less);
    assert_eq!(compare_input_ids(&arena, list_1, list_12), Ordering::Less);
    assert_eq!(compare_input_ids(&arena, tuple_1, list_12), Ordering::Greater);
    assert_eq!(compare_input_ids(&arena, list_12, list_12), Ordering::Equal);
}

#[test]
fn objects_compare_by_names_then_values() {
    let mut arena = Arena::new();
    let one = push(&mut arena, InputValue::Integer("1".to_string()));
    let two = push(&mut arena, InputValue::Integer("2".to_string()));
    let a1 = push(
        &mut arena,
        InputValue::Object { kind: ObjectKind::Object, entries: vec![("a".to_string(), one)] },
    );
    let a2 = push(
        &mut arena,
        InputValue::Object { kind: ObjectKind::Object, entries: vec![("a".to_string(), two)] },
    );
    let b1 = push(
        &mut arena,
        InputValue::Object { kind: ObjectKind::Object, entries: vec![("b".to_string(), one)] },
    );
    let json_b1 = push(
        &mut arena,
        InputValue::Object { kind: ObjectKind::JsonObject, entries: vec![("b".to_string(), one)] },
    );
    assert_eq!(compare_input_ids(&arena, a1, a2), Ordering::Less);
    assert_eq!(compare_input_ids(&arena, b1, a2), Ordering::Greater);
    assert_eq!(compare_input_ids(&arena, json_b1, a1), Ordering::Less);
}

#[test]
fn mappings_compare_by_keys_then_values() {
    let mut arena = Arena::new();
    let one = push(&mut arena, InputValue::Integer("1".to_string()));
    let two = push(&mut arena, InputValue::Integer("2".to_string()));
    let m11 = push(&mut arena, InputValue::Mapping(vec![(one, one)]));
    let m12 = push(&mut arena, InputValue::Mapping(vec![(one, two)]));
    let m21 = push(&mut arena, InputValue::Mapping(vec![(two, one)]));
    let empty = push(&mut arena, InputValue::Mapping(vec![]));
    assert_eq!(compare_input_ids(&arena, m11, m12), Ordering::Less);
    assert_eq!(compare_input_ids(&arena, m21, m12), Ordering::Greater);
    assert_eq!(compare_input_ids(&arena, empty, m11), Ordering::Less);
}

#[test]
fn positions_outside_the_arena_compare_by_position() {
    let mut arena = Arena::new();
    let one = push(&mut arena, InputValue::Integer("1".to_string()));
    let missing = ArenaId::from_usize(7).unwrap();
    assert_eq!(compare_input_ids(&arena, one, missing), Ordering::Less);
    assert_eq!(compare_input_ids(&arena, missing, missing), Ordering::Equal);
}

#[test]
fn comparing_the_other_way_reverses_the_outcome() {
    let mut arena = Arena::new();
    let one = push(&mut arena, InputValue::Integer("1".to_string()));
    let text = push(&mut arena, InputValue::String("x".to_string()));
    let list = push(&mut arena, InputValue::Sequence { kind: SequenceKind::FrozenSet, items: vec![one, text] });
    let pairs = [(one, text), (text, list), (list, one), (one, one)];
    for (a, b) in pairs {
        assert_eq!(compare_input_ids(&arena, a, b), compare_input_ids(&arena, b, a).reverse());
    }
}

#[test]
fn sorting_by_the_order_is_consistent() {
    let mut arena = Arena::new();
    let mut ids = Vec::new();
    ids.push(push(&mut arena, InputValue::String("b".to_string())));
    ids.push(push(&mut arena, InputValue::Integer("3".to_string())));
    ids.push(push(&mut arena, InputValue::Null));
    ids.push(push(&mut arena, InputValue::String("a".to_string())));
    ids.push(push(&mut arena, InputValue::Bool(false)));
    ids.push(push(&mut arena, InputValue::Float(2.5f64.to_bits())));
    let first = ids[0];
    let second = ids[3];
    ids.push(push(&mut arena, InputValue::Sequence { kind: SequenceKind::List, items: vec![first, second] }));
    ids.push(push(&mut arena, InputValue::Sequence { kind: SequenceKind::List, items: vec![second] }));
    let mut sorted = ids.clone();
    sorted.sort_by(|a, b| compare_input_ids(&arena, *a, *b));
    for i in 0..sorted.len() {
        for j in i..sorted.len() {
            assert_ne!(compare_input_ids(&arena, sorted[i], sorted[j]), Ordering::Greater);
        }
    }
    assert_eq!(sorted[0], ids[2]);
    assert_eq!(sorted[1], ids[4]);
}
