use pydantic_sifr_core::arena::{Arena, ArenaId};
use pydantic_sifr_core::error::LocationItem;
use pydantic_sifr_core::error::type_error;
use pydantic_sifr_core::keys::{canonical_key, collect_mapping_entry, unique_set_items, KeyUse};
use pydantic_sifr_core::values::{DateValue, ValidatedArena, ValidatedValue, ValueId};

fn arena_of(values: Vec<ValidatedValue>) -> (ValidatedArena, Vec<ValueId>) {
    let mut arena = Arena::new();
    let mut ids = Vec::new();
    for value in values {
        ids.push(arena.push(value).unwrap());
    }
    let root = ids[0];
    (ValidatedArena::new(root, arena), ids)
}

fn key_of(value: ValidatedValue) -> Vec<u8> {
    let (arena, ids) = arena_of(vec![value]);
    canonical_key(&arena, ids[0], KeyUse::SetItem).unwrap()
}

#[test]
fn both_zeros_share_a_key() {
    let positive = key_of(ValidatedValue::Float(0.0f64.to_bits()));
    let negative = key_of(ValidatedValue::Float((-0.0f64).to_bits()));
    assert_eq!(positive, negative);
    assert_eq!(positive, vec![3, 0, 0, 0, 0, 0, 0, 0, 0]);
    assert_ne!(
        key_of(ValidatedValue::Float(1.0f64.to_bits())),
        key_of(ValidatedValue::Float((-1.0f64).to_bits()))
    );
}

#[test]
fn exact_and_fixed_integers_share_a_key() {
    let exact = key_of(ValidatedValue::ExactInt("5".to_string()));
    let fixed = key_of(ValidatedValue::FixedInt { kind: "i64", value: "5".to_string() });
    assert_eq!(exact, fixed);
    assert_eq!(exact, vec![2, 0, 0, 0, 0, 0, 0, 0, 1, 5]);
}

#[test]
fn true_is_not_the_integer_one() {
    let truth = key_of(ValidatedValue::Bool(true));
    let one = key_of(ValidatedValue::ExactInt("1".to_string()));
    assert_eq!(truth, vec![1, 1]);
    assert_eq!(one, vec![2, 0, 0, 0, 0, 0, 0, 0, 1, 1]);
    assert_ne!(truth, one);
}

#[test]
fn integers_use_shortest_twos_complement() {
    assert_eq!(
        key_of(ValidatedValue::ExactInt("-1".to_string())),
        vec![2, 0, 0, 0, 0, 0, 0, 0, 1, 255]
    );
    assert_eq!(
        key_of(ValidatedValue::ExactInt("128".to_string())),
        vec![2, 0, 0, 0, 0, 0, 0, 0, 2, 0, 128]
    );
    assert_eq!(
        key_of(ValidatedValue::ExactInt("0".to_string())),
        vec![2, 0, 0, 0, 0, 0, 0, 0, 1, 0]
    );
}

#[test]
fn decimals_are_keyed_by_their_normal_form() {
    let key = key_of(ValidatedValue::Decimal("1.50".to_string()));
    assert_eq!(key, vec![4, 0, 0, 0, 0, 0, 0, 0, 3, b'1', b'.', b'5']);
    assert_eq!(key, key_of(ValidatedValue::Decimal("1.5".to_string())));
}

#[test]
fn fractions_dates_and_strings_have_exact_layouts() {
    assert_eq!(
        key_of(ValidatedValue::Fraction { numerator: "1".to_string(), denominator: "3".to_string() }),
        vec![5, 0, 0, 0, 0, 0, 0, 0, 1, 1, 0, 0, 0, 0, 0, 0, 0, 1, 3]
    );
    assert_eq!(
        key_of(ValidatedValue::Date(DateValue { year: 2024, month: 2, day: 29 })),
        vec![9, 0x07, 0xE8, 2, 29]
    );
    assert_eq!(
        key_of(ValidatedValue::String("ab".to_string())),
        vec![7, 0, 0, 0, 0, 0, 0, 0, 2, b'a', b'b']
    );
    assert_eq!(key_of(ValidatedValue::Null), vec![0]);
    assert_eq!(key_of(ValidatedValue::Nullable(None)), vec![16]);
}

#[test]
fn present_nullables_wrap_their_value_key() {
    let (arena, ids) = arena_of(vec![ValidatedValue::Bool(false), ValidatedValue::Nullable(None)]);
    let mut values = Arena::new();
    values.push(ValidatedValue::Bool(false)).unwrap();
    let outer = values.push(ValidatedValue::Nullable(Some(ids[0]))).unwrap();
    let wrapped = ValidatedArena::new(outer, values);
    assert_eq!(canonical_key(&wrapped, outer, KeyUse::MappingKey).unwrap(), vec![17, 1, 0]);
    assert_eq!(canonical_key(&arena, ids[1], KeyUse::MappingKey).unwrap(), vec![16]);
}

#[test]
fn containers_are_refused_by_use() {
    let (arena, ids) = arena_of(vec![ValidatedValue::Sequence(Vec::new())]);
    let set_error = canonical_key(&arena, ids[0], KeyUse::SetItem).unwrap_err();
    assert_eq!(set_error.details()[0].code, "set_item_unhashable");
    assert_eq!(set_error.details()[0].message, "Set items must be scalar values");
    let map_error = canonical_key(&arena, ids[0], KeyUse::MappingKey).unwrap_err();
    assert_eq!(map_error.details()[0].code, "mapping_key_unhashable");
    assert_eq!(map_error.details()[0].expected, "hashable scalar");
}

#[test]
fn unknown_ids_are_internal_errors() {
    let (arena, _) = arena_of(vec![ValidatedValue::Null]);
    let mut other = Arena::new();
    other.push(ValidatedValue::Null).unwrap();
    let far = other.push(ValidatedValue::Null).unwrap();
    let error = canonical_key(&arena, far, KeyUse::SetItem).unwrap_err();
    assert_eq!(error.details()[0].code, "internal_output");
}

#[test]
fn sets_keep_the_first_of_equal_items() {
    let (arena, ids) = arena_of(vec![
        ValidatedValue::ExactInt("1".to_string()),
        ValidatedValue::FixedInt { kind: "i32", value: "1".to_string() },
        ValidatedValue::Bool(true),
        ValidatedValue::Float(0.0f64.to_bits()),
        ValidatedValue::Float((-0.0f64).to_bits()),
        ValidatedValue::String("a".to_string()),
        ValidatedValue::Bool(true),
    ]);
    let kept = unique_set_items(&arena, &ids, KeyUse::SetItem, 10).unwrap();
    assert_eq!(kept, vec![ids[0], ids[2], ids[3], ids[5]]);
}

#[test]
fn unhashable_set_items_are_reported_at_their_index() {
    let (arena, ids) = arena_of(vec![
        ValidatedValue::Null,
        ValidatedValue::Sequence(Vec::new()),
        ValidatedValue::Tuple(Vec::new()),
    ]);
    let error = unique_set_items(&arena, &ids, KeyUse::SetItem, 10).unwrap_err();
    assert_eq!(error.details().len(), 2);
    assert_eq!(error.details()[0].code, "set_item_unhashable");
    assert!(matches!(&error.details()[0].location[..], [LocationItem::Index(1)]));
    assert!(matches!(&error.details()[1].location[..], [LocationItem::Index(2)]));
    assert!(!error.is_truncated());
    let capped = unique_set_items(&arena, &ids, KeyUse::SetItem, 1).unwrap_err();
    assert_eq!(capped.details().len(), 1);
    assert!(capped.is_truncated());
}

#[test]
fn mapping_entries_keep_new_keys_and_report_duplicates() {
    let (arena, ids) = arena_of(vec![
        ValidatedValue::String("a".to_string()),
        ValidatedValue::Bool(true),
        ValidatedValue::String("a".to_string()),
        ValidatedValue::Sequence(Vec::new()),
    ]);
    let mut output = Vec::new();
    let mut seen = Vec::new();
    let mut errors = None;
    collect_mapping_entry(&arena, 0, Ok(ids[0]), Ok(ids[1]), &mut output, &mut seen, &mut errors, 10);
    assert_eq!(output, vec![(ids[0], ids[1])]);
    assert!(errors.is_none());
    collect_mapping_entry(&arena, 1, Ok(ids[2]), Ok(ids[1]), &mut output, &mut seen, &mut errors, 10);
    assert_eq!(output.len(), 1);
    let error = errors.clone().unwrap();
    assert_eq!(error.details()[0].code, "mapping_key_duplicate");
    assert_eq!(error.details()[0].message, "Validated mapping key is duplicated");
    assert!(matches!(&error.details()[0].location[..], [LocationItem::MappingKey(1)]));
    collect_mapping_entry(&arena, 2, Ok(ids[3]), Ok(ids[1]), &mut output, &mut seen, &mut errors, 10);
    let error = errors.clone().unwrap();
    assert_eq!(error.details()[1].code, "mapping_key_unhashable");
    assert!(matches!(&error.details()[1].location[..], [LocationItem::MappingKey(2)]));
    collect_mapping_entry(
        &arena,
        3,
        Err(type_error("k", "key failed", "x")),
        Err(type_error("v", "value failed", "x")),
        &mut output,
        &mut seen,
        &mut errors,
        10,
    );
    let error = errors.unwrap();
    assert_eq!(error.details().len(), 4);
    assert_eq!(error.details()[2].code, "k");
    assert_eq!(error.details()[3].code, "v");
    assert_eq!(output.len(), 1);
}

#[test]
fn decimals_beyond_the_key_exponent_range_are_refused() {
    let (arena, ids) = arena_of(vec![ValidatedValue::Decimal("10e9223372036854775808".to_string())]);
    let error = canonical_key(&arena, ids[0], KeyUse::SetItem).unwrap_err();
    assert_eq!(error.details()[0].code, "internal_output");
    assert_eq!(error.details()[0].message, "Validated decimal exponent is outside the key range");
    assert_eq!(
        key_of(ValidatedValue::Decimal("1.50E+3".to_string())),
        key_of(ValidatedValue::Decimal("1500".to_string()))
    );
}

#[test]
fn values_referring_forward_are_internal_errors() {
    let mut looped = Arena::new();
    let first = looped.push(ValidatedValue::Null).unwrap();
    let later = ArenaId::from_usize(2).unwrap();
    let pointing = looped.push(ValidatedValue::Nullable(Some(later))).unwrap();
    looped.push(ValidatedValue::Null).unwrap();
    let arena = ValidatedArena::new(first, looped);
    let error = canonical_key(&arena, pointing, KeyUse::SetItem).unwrap_err();
    assert_eq!(error.details()[0].code, "internal_output");
}
