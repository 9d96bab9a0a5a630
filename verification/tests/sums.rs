use pydantic_sifr_core::error::{type_error, ValidationError};
use pydantic_sifr_core::sums::{
    apply_override, bare_nominal_name, candidate_is_better, collect_branch_error, decode_hex, hex_digit,
    invalid_input, invalid_literal_metadata, invalid_sum_output, literal_sort_key, Exactness, LiteralKind,
    SchemaErrorOverride,
};

#[test]
fn more_validated_fields_win_before_exactness() {
    assert!(candidate_is_better(Some(3), Exactness::Lax, Some(2), Exactness::Exact));
    assert!(!candidate_is_better(Some(1), Exactness::Exact, Some(2), Exactness::Lax));
    assert!(candidate_is_better(Some(2), Exactness::Strict, Some(2), Exactness::Lax));
    assert!(!candidate_is_better(Some(2), Exactness::Strict, Some(2), Exactness::Strict));
    assert!(candidate_is_better(None, Exactness::Exact, Some(9), Exactness::Strict));
    assert!(!candidate_is_better(Some(9), Exactness::Lax, None, Exactness::Lax));
}

#[test]
fn hexadecimal_metadata_decodes_pairs() {
    assert_eq!(decode_hex("0aFf"), Some(vec![10, 255]));
    assert_eq!(decode_hex(""), Some(vec![]));
    assert_eq!(decode_hex("abc"), None);
    assert_eq!(decode_hex("zz"), None);
    assert_eq!(decode_hex("0g"), None);
    assert_eq!(hex_digit(b'7'), Some(7));
    assert_eq!(hex_digit(b'c'), Some(12));
    assert_eq!(hex_digit(b'C'), Some(12));
    assert_eq!(hex_digit(b'x'), None);
}

#[test]
fn bare_names_drop_the_module_path() {
    assert_eq!(bare_nominal_name("zoo.Alpha"), "Alpha");
    assert_eq!(bare_nominal_name("a.b.Beta"), "Beta");
    assert_eq!(bare_nominal_name("Only"), "Only");
    assert_eq!(bare_nominal_name("trailing."), "");
}

#[test]
fn literal_keys_follow_the_canonical_categories() {
    assert_eq!(literal_sort_key(LiteralKind::Null), (0, String::new()));
    assert_eq!(literal_sort_key(LiteralKind::Bool), (1, String::new()));
    assert_eq!(literal_sort_key(LiteralKind::Integer), (2, String::new()));
    assert_eq!(literal_sort_key(LiteralKind::String), (5, String::new()));
    assert_eq!(literal_sort_key(LiteralKind::Bytes), (6, String::new()));
}

#[test]
fn declared_override_replaces_branch_errors() {
    let original = type_error("int_type", "Input must be an integer", "int");
    let kept = apply_override(original, None);
    assert_eq!(kept.details()[0].code, "int_type");
    let replaced = apply_override(
        type_error("int_type", "Input must be an integer", "int"),
        Some(SchemaErrorOverride { code: "pkg.bad", message: "Bad value" }),
    );
    let detail = &replaced.details()[0];
    assert_eq!((detail.code, detail.message.as_str(), detail.expected.as_str()), ("pkg.bad", "Bad value", "valid union input"));
}

#[test]
fn branch_errors_collect_within_the_limit() {
    let mut errors: Option<ValidationError> = None;
    collect_branch_error(&mut errors, type_error("a", "first", "x"), 2);
    assert_eq!(errors.as_ref().unwrap().details().len(), 1);
    let mut second = type_error("b", "second", "x");
    second.append(type_error("c", "third", "x"), 1);
    collect_branch_error(&mut errors, second, 2);
    let collected = errors.unwrap();
    assert_eq!(collected.details().len(), 2);
    assert_eq!(collected.details()[1].code, "b");
    assert!(collected.is_truncated());
}

#[test]
fn sum_errors_have_fixed_texts() {
    assert_eq!(invalid_input().details()[0].message, "Input arena index is invalid");
    assert_eq!(invalid_sum_output().details()[0].expected, "canonical sum output");
    assert_eq!(invalid_literal_metadata().details()[0].code, "schema_invalid");
}
