use pydantic_sifr_core::input::{InputValue, JsonLimits, ObjectKind, SequenceKind};
use pydantic_sifr_core::json::{build_json_input, find_line_position, parse_json, JsonTree};

fn limits() -> JsonLimits {
    JsonLimits::default()
}

#[test]
fn json_values_are_stored_children_first() {
    let arena = parse_json(br#"{"a": [1, "x"]}"#, limits()).unwrap();
    assert_eq!(arena.len(), 4);
    assert_eq!(arena.root().raw(), 3);
    let first = arena.get(arena.root()).unwrap();
    match first {
        InputValue::Object { kind, entries } => {
            assert_eq!(*kind, ObjectKind::JsonObject);
            assert_eq!(entries.len(), 1);
            assert_eq!(entries[0].0, "a");
            assert_eq!(entries[0].1.raw(), 2);
        }
        other => panic!("unexpected root {other:?}"),
    }
    match arena.get(entries_child(&arena)).unwrap() {
        InputValue::Sequence { kind, items } => {
            assert_eq!(*kind, SequenceKind::JsonArray);
            assert_eq!(items.iter().map(|id| id.raw()).collect::<Vec<_>>(), vec![0, 1]);
        }
        other => panic!("unexpected array {other:?}"),
    }
    assert!(matches!(arena.get(pydantic_sifr_core::arena::ArenaId::from_usize(0).unwrap()), Some(InputValue::Integer(text)) if text == "1"));
    assert!(matches!(arena.get(pydantic_sifr_core::arena::ArenaId::from_usize(1).unwrap()), Some(InputValue::String(text)) if text == "x"));
}

fn entries_child(arena: &pydantic_sifr_core::input::InputArena) -> pydantic_sifr_core::arena::ArenaId {
    match arena.get(arena.root()).unwrap() {
        InputValue::Object { entries, .. } => entries[0].1,
        _ => unreachable!(),
    }
}

#[test]
fn json_integers_are_kept_as_exact_decimal_text() {
    let big = parse_json(b"123456789012345678901234567890", limits()).unwrap();
    assert!(matches!(big.get(big.root()), Some(InputValue::Integer(text)) if text == "123456789012345678901234567890"));
    let negative = parse_json(b"-42", limits()).unwrap();
    assert!(matches!(negative.get(negative.root()), Some(InputValue::Integer(text)) if text == "-42"));
    let smallest = parse_json(b"-9223372036854775808", limits()).unwrap();
    assert!(matches!(smallest.get(smallest.root()), Some(InputValue::Integer(text)) if text == "-9223372036854775808"));
}

#[test]
fn json_floats_are_kept_as_bit_patterns() {
    let arena = parse_json(b"1.5", limits()).unwrap();
    assert!(matches!(arena.get(arena.root()), Some(InputValue::Float(bits)) if *bits == 1.5f64.to_bits()));
}

#[test]
fn json_duplicate_keys_are_refused_at_their_object() {
    let error = parse_json(br#"{"x": {"k": 1, "k": 2}}"#, limits()).unwrap_err();
    assert_eq!(error.code, "json_invalid");
    assert_eq!(error.message, "duplicate object key `k`");
    assert_eq!(error.path, vec!["x".to_string()]);
    assert_eq!((error.offset, error.line, error.column), (0, 1, 1));
}

#[test]
fn json_depth_limit_reports_the_path() {
    let mut limits = limits();
    limits.max_depth = 1;
    let error = parse_json(b"[[1]]", limits).unwrap_err();
    assert_eq!(error.code, "input_limit_exceeded");
    assert_eq!(error.message, "maximum depth");
    assert_eq!(error.path, vec!["0".to_string(), "0".to_string()]);
}

#[test]
fn json_input_size_and_limits_are_checked_first() {
    let mut small = limits();
    small.max_input_bytes = 3;
    let error = parse_json(b"[1, 2]", small).unwrap_err();
    assert_eq!(error.message, "maximum input bytes");
    let mut zero = limits();
    zero.max_nodes = 0;
    let error = parse_json(b"not even json", zero).unwrap_err();
    assert_eq!(error.message, "limits must be greater than zero");
}

#[test]
fn json_integer_digits_are_limited_before_parsing() {
    let mut small = limits();
    small.max_integer_digits = 3;
    let error = parse_json(b"[12345", small).unwrap_err();
    assert_eq!(error.code, "json_integer_limit");
    assert_eq!(error.message, "integer digit limit exceeded: 3");
    assert_eq!((error.offset, error.line, error.column), (1, 1, 2));
    assert!(parse_json(br#"["12345", 1.5e3, 123]"#, small).is_ok());
    let error = parse_json(b"[1.2345]", small).unwrap_err();
    assert_eq!(error.offset, 3);
}

#[test]
fn json_string_bytes_and_collections_are_limited() {
    let mut small = limits();
    small.max_string_bytes = 3;
    let error = parse_json(br#"{"ab": "cd"}"#, small).unwrap_err();
    assert_eq!(error.message, "total string bytes");
    assert_eq!(error.path, vec!["ab".to_string()]);
    let mut few = limits();
    few.max_collection_items = 2;
    let error = parse_json(b"[1, 2, 3]", few).unwrap_err();
    assert_eq!(error.message, "maximum collection items");
    let mut nodes = limits();
    nodes.max_nodes = 2;
    assert_eq!(parse_json(b"[1, 2]", nodes).unwrap().len(), 3);
    let error = parse_json(b"[1, 2, 3]", nodes).unwrap_err();
    assert_eq!(error.message, "maximum node count");
    assert_eq!(error.path, vec!["2".to_string()]);
}

#[test]
fn json_syntax_errors_keep_the_parser_description_and_position() {
    let data = b"[1,\n  2,";
    let error = parse_json(data, limits()).unwrap_err();
    let expected = jiter::JsonValue::parse(data, false).unwrap_err();
    assert_eq!(error.code, "json_invalid");
    assert_eq!(error.message, expected.error_type.to_string());
    assert_eq!(error.offset, expected.index);
    let position = expected.get_position(data);
    assert_eq!((error.line, error.column), (position.line, position.column));
    assert!(error.path.is_empty());
}

#[test]
fn line_positions_count_like_the_parser() {
    let data = b"ab\ncd\n";
    assert_eq!(find_line_position(data, 0), (1, 1));
    assert_eq!(find_line_position(data, 4), (2, 2));
    assert_eq!(find_line_position(data, 2), (2, 0));
    assert_eq!(find_line_position(data, 9), (3, 0));
    for index in 0..8 {
        let position = jiter::LinePosition::find(data, index);
        assert_eq!(find_line_position(data, index), (position.line, position.column));
    }
}

#[test]
fn building_a_document_directly_matches_parsing_it() {
    let tree = JsonTree::Object(vec![
        ("n".to_string(), JsonTree::Int(-7)),
        ("s".to_string(), JsonTree::Array(vec![JsonTree::Bool(true), JsonTree::Null])),
    ]);
    let built = build_json_input(&tree, limits()).unwrap();
    let parsed = parse_json(br#"{"n": -7, "s": [true, null]}"#, limits()).unwrap();
    assert_eq!(built.len(), parsed.len());
    assert_eq!(built.root().raw(), parsed.root().raw());
    assert_eq!(format!("{:?}", built), format!("{:?}", parsed));
}

#[test]
fn json_error_text_names_line_and_column() {
    let error = parse_json(br#"{"a":1,"a":2}"#, limits()).unwrap_err();
    assert_eq!(error.text(), "duplicate object key `a` at line 1 column 1");
}
