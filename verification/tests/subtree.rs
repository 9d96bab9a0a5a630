use pydantic_sifr_core::arena::{Arena, ArenaError, ArenaId};
use pydantic_sifr_core::values::{ModelValue, ValidatedArena, ValidatedValue};

#[test]
fn tuple_root_clones_the_second_item_into_distinct_storage() {
    let mut values = Arena::new();
    let field = values
        .push(ValidatedValue::String("value".to_owned()))
        .unwrap_or_else(|error| panic!("test field does not fit in the arena: {error:?}"));
    let model = values
        .push(ValidatedValue::Model(ModelValue::new("test.Model", vec![("value", field)], Vec::new(), 1)))
        .unwrap_or_else(|error| panic!("test model does not fit in the arena: {error:?}"));
    let input = ValidatedArena::new(model, values);

    let tuple = input
        .tuple_root_with_cloned_item(model, field)
        .unwrap_or_else(|error| panic!("test tuple does not fit in the arena: {error:?}"));
    let ValidatedValue::Tuple(items) = tuple.get(tuple.root()).unwrap_or_else(|| panic!("tuple root is not addressable"))
    else {
        panic!("tuple helper must append a tuple root");
    };

    assert_eq!(items[0], model);
    assert_ne!(items[1], field);
    assert_eq!(tuple.get(items[1]), tuple.get(field));
    assert_eq!(tuple.len(), 4, "only the selected subtree is cloned");
}

#[test]
fn a_shared_child_is_copied_once() {
    let mut values = Arena::new();
    let leaf = values.push(ValidatedValue::Bool(true)).unwrap();
    let pair = values.push(ValidatedValue::Sequence(vec![leaf, leaf])).unwrap();
    let unrelated = values.push(ValidatedValue::Null).unwrap();
    let input = ValidatedArena::new(unrelated, values);

    let tuple = input.tuple_root_with_cloned_item(unrelated, pair).unwrap();
    assert_eq!(tuple.len(), 6);
    let ValidatedValue::Tuple(items) = tuple.get(tuple.root()).unwrap() else {
        panic!("tuple root expected");
    };
    assert_eq!(items[0], unrelated);
    let ValidatedValue::Sequence(copied) = tuple.get(items[1]).unwrap() else {
        panic!("copied sequence expected");
    };
    assert_eq!(copied[0], copied[1]);
    assert_ne!(copied[0], leaf);
    assert_eq!(tuple.get(copied[0]), Some(&ValidatedValue::Bool(true)));
    assert_eq!(input.get(pair), tuple.get(pair));
}

#[test]
fn ids_outside_the_arena_are_refused() {
    let mut values = Arena::new();
    let only = values.push(ValidatedValue::Null).unwrap();
    let input = ValidatedArena::new(only, values);
    let missing = ArenaId::from_usize(3).unwrap();
    assert_eq!(input.tuple_root_with_cloned_item(missing, only).unwrap_err(), ArenaError::CapacityExceeded);
    assert_eq!(input.tuple_root_with_cloned_item(only, missing).unwrap_err(), ArenaError::CapacityExceeded);
}

#[test]
fn selecting_a_root_keeps_every_value() {
    let mut values = Arena::new();
    let first = values.push(ValidatedValue::String("a".to_owned())).unwrap();
    let second = values.push(ValidatedValue::Sequence(vec![first])).unwrap();
    let input = ValidatedArena::new(second, values);
    let selected = input.selected(first).unwrap();
    assert_eq!(selected.root(), first);
    assert_eq!(selected.len(), 2);
    assert_eq!(selected.get(second), input.get(second));
    assert!(input.selected(ArenaId::from_usize(2).unwrap()).is_none());
}
