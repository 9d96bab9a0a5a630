use pydantic_sifr_core::arena::{Arena, ArenaId};
use pydantic_sifr_core::input::InputValue;
use pydantic_sifr_core::sorting::{sort_mapping_entries, sort_set_items};

fn push(arena: &mut Arena<InputValue>, value: InputValue) -> ArenaId {
    arena.push(value).unwrap()
}

#[test]
fn set_items_are_sorted_into_the_input_order() {
    let mut arena = Arena::new();
    let three = push(&mut arena, InputValue::Integer("3".to_string()));
    let one = push(&mut arena, InputValue::Integer("1".to_string()));
    let text = push(&mut arena, InputValue::String("a".to_string()));
    let two = push(&mut arena, InputValue::Integer("2".to_string()));
    let null = push(&mut arena, InputValue::Null);
    let again = push(&mut arena, InputValue::Integer("1".to_string()));
    let sorted = sort_set_items(&arena, vec![three, text, one, two, null, again]);
    assert_eq!(sorted, vec![null, one, again, two, three, text]);
    assert!(sort_set_items(&arena, Vec::new()).is_empty());
}

#[test]
fn mapping_entries_sort_by_key_then_value() {
    let mut arena = Arena::new();
    let b = push(&mut arena, InputValue::String("b".to_string()));
    let a = push(&mut arena, InputValue::String("a".to_string()));
    let two = push(&mut arena, InputValue::Integer("2".to_string()));
    let one = push(&mut arena, InputValue::Integer("1".to_string()));
    let sorted = sort_mapping_entries(&arena, vec![(b, one), (a, two), (a, one)]);
    assert_eq!(sorted, vec![(a, one), (a, two), (b, one)]);
}

#[test]
fn sorting_sorted_items_changes_nothing() {
    let mut arena = Arena::new();
    let one = push(&mut arena, InputValue::Integer("1".to_string()));
    let two = push(&mut arena, InputValue::Integer("2".to_string()));
    let text = push(&mut arena, InputValue::String("z".to_string()));
    let once = sort_set_items(&arena, vec![text, two, one]);
    assert_eq!(once, vec![one, two, text]);
    assert_eq!(sort_set_items(&arena, once.clone()), once);
}
