use pydantic_sifr_core::constraints::{AliasPath, AliasSegment};
use pydantic_sifr_core::error::LocationItem;
use pydantic_sifr_core::fields::{location_for_alias, missing_location, resolve_alias, select_field};
use pydantic_sifr_core::input::{InputArena, InputId, InputValue, JsonLimits};
use pydantic_sifr_core::json::parse_json;

fn document() -> InputArena {
    parse_json(br#"{"a": {"b": [10, 20]}, "c": 1}"#, JsonLimits::default()).unwrap()
}

fn root_entries(input: &InputArena) -> Vec<(String, InputId)> {
    match input.get(input.root()) {
        Some(InputValue::Object { entries, .. }) => entries.clone(),
        _ => panic!("the document is an object"),
    }
}

fn path(segments: Vec<AliasSegment>) -> AliasPath {
    AliasPath { segments }
}

fn integer_at(input: &InputArena, id: InputId) -> String {
    match input.get(id) {
        Some(InputValue::Integer(text)) => text.clone(),
        other => panic!("not an integer: {other:?}"),
    }
}

#[test]
fn alias_paths_follow_fields_and_indexes() {
    let input = document();
    let deep = path(vec![AliasSegment::Field("a"), AliasSegment::Field("b"), AliasSegment::Index(1)]);
    let found = resolve_alias(&input, input.root(), &deep).unwrap();
    assert_eq!(integer_at(&input, found), "20");
    assert!(resolve_alias(&input, input.root(), &path(vec![AliasSegment::Field("zz")])).is_none());
    assert!(resolve_alias(&input, input.root(), &path(vec![AliasSegment::Index(0)])).is_none());
    let too_far = path(vec![AliasSegment::Field("a"), AliasSegment::Field("b"), AliasSegment::Index(2)]);
    assert!(resolve_alias(&input, input.root(), &too_far).is_none());
    assert_eq!(resolve_alias(&input, input.root(), &path(vec![])), Some(input.root()));
}

#[test]
fn locations_follow_aliases_when_asked() {
    let alias = path(vec![AliasSegment::Field("a"), AliasSegment::Index(3)]);
    assert_eq!(
        location_for_alias(true, "field", &alias),
        vec![LocationItem::Field("a".to_string()), LocationItem::Index(3)]
    );
    assert_eq!(location_for_alias(false, "field", &alias), vec![LocationItem::Field("field".to_string())]);
    assert_eq!(missing_location(true, "field", &[alias.clone()]), LocationItem::Field("a".to_string()));
    assert_eq!(missing_location(false, "field", &[alias]), LocationItem::Field("field".to_string()));
    let by_index = path(vec![AliasSegment::Index(0)]);
    assert_eq!(missing_location(true, "field", &[by_index]), LocationItem::Field("field".to_string()));
}

#[test]
fn fields_are_found_through_the_first_alias_that_hits() {
    let input = document();
    let entries = root_entries(&input);
    let miss = path(vec![AliasSegment::Field("zz")]);
    let hit = path(vec![AliasSegment::Field("a"), AliasSegment::Field("b"), AliasSegment::Index(0)]);
    let (value, index, location) =
        select_field(&input, input.root(), &entries, &[miss.clone(), hit], false, true, "field").unwrap();
    assert_eq!(integer_at(&input, value), "10");
    assert_eq!(index, 0, "the first entry named by the alias's first step");
    assert_eq!(
        location,
        vec![LocationItem::Field("a".to_string()), LocationItem::Field("b".to_string()), LocationItem::Index(0)]
    );
    assert!(select_field(&input, input.root(), &entries, &[miss.clone()], false, true, "c").is_none());
    let (value, index, location) = select_field(&input, input.root(), &entries, &[miss], true, true, "c").unwrap();
    assert_eq!(integer_at(&input, value), "1");
    assert_eq!(index, 1);
    assert_eq!(location, vec![LocationItem::Field("c".to_string())]);
}

#[test]
fn fields_without_aliases_are_found_by_name() {
    let input = document();
    let entries = root_entries(&input);
    let (value, index, _) = select_field(&input, input.root(), &entries, &[], false, false, "c").unwrap();
    assert_eq!(integer_at(&input, value), "1");
    assert_eq!(index, 1);
    assert!(select_field(&input, input.root(), &entries, &[], false, false, "missing").is_none());
}
