use pydantic_sifr_core::arena::ArenaId;
use pydantic_sifr_core::constraints::{BytesConstraints, BytesJsonMode};
use pydantic_sifr_core::input::InputValue;
use pydantic_sifr_core::options::InputProfile;
use pydantic_sifr_core::scalars::{parse_canonical_integer, validate_bool, validate_bytes, validate_none};
use pydantic_sifr_core::values::{ModelValue, ValidatedValue};

fn code_of(result: Result<ValidatedValue, pydantic_sifr_core::error::ValidationError>) -> &'static str {
    result.unwrap_err().details()[0].code
}

#[test]
fn none_accepts_only_null() {
    assert_eq!(validate_none(&InputValue::Null).unwrap(), ValidatedValue::Null);
    let error = validate_none(&InputValue::Bool(false)).unwrap_err();
    assert_eq!(error.details()[0].code, "none_required");
    assert_eq!(error.details()[0].message, "Input must be None");
    assert_eq!(error.details()[0].expected, "none");
}

#[test]
fn booleans_pass_through_in_every_mode() {
    for strict in [false, true] {
        assert_eq!(
            validate_bool(&InputValue::Bool(true), strict, InputProfile::Native).unwrap(),
            ValidatedValue::Bool(true)
        );
    }
}

#[test]
fn strict_native_booleans_refuse_other_inputs() {
    assert_eq!(code_of(validate_bool(&InputValue::Integer("1".to_string()), true, InputProfile::Native)), "bool_type");
    assert_eq!(code_of(validate_bool(&InputValue::String("true".to_string()), true, InputProfile::Json)), "bool_type");
}

#[test]
fn strings_profile_coerces_even_when_strict() {
    assert_eq!(
        validate_bool(&InputValue::String("Yes".to_string()), true, InputProfile::Strings).unwrap(),
        ValidatedValue::Bool(true)
    );
}

#[test]
fn lax_booleans_read_numbers_and_words() {
    let lax = |input: InputValue| validate_bool(&input, false, InputProfile::Native);
    assert_eq!(lax(InputValue::Integer("0".to_string())).unwrap(), ValidatedValue::Bool(false));
    assert_eq!(lax(InputValue::Integer("1".to_string())).unwrap(), ValidatedValue::Bool(true));
    assert_eq!(code_of(lax(InputValue::Integer("2".to_string()))), "bool_parsing");
    assert_eq!(lax(InputValue::Float(0.0f64.to_bits())).unwrap(), ValidatedValue::Bool(false));
    assert_eq!(lax(InputValue::Float((-0.0f64).to_bits())).unwrap(), ValidatedValue::Bool(false));
    assert_eq!(lax(InputValue::Float(1.0f64.to_bits())).unwrap(), ValidatedValue::Bool(true));
    assert_eq!(code_of(lax(InputValue::Float(0.5f64.to_bits()))), "bool_parsing");
    for word in ["0", "false", "F", "No", "n", "OFF"] {
        assert_eq!(lax(InputValue::String(word.to_string())).unwrap(), ValidatedValue::Bool(false), "{word}");
    }
    for word in ["1", "TRUE", "t", "yes", "Y", "On"] {
        assert_eq!(lax(InputValue::String(word.to_string())).unwrap(), ValidatedValue::Bool(true), "{word}");
    }
    for word in ["", "maybe", "truee", " true", "falsey", "\u{130}"] {
        assert_eq!(code_of(lax(InputValue::String(word.to_string()))), "bool_parsing", "{word}");
    }
    assert_eq!(code_of(lax(InputValue::Null)), "bool_parsing");
}

#[test]
fn canonical_integers_are_accepted_as_they_are() {
    for text in ["0", "7", "-7", "10", "-1234567890123456789012345678901234567890"] {
        assert_eq!(parse_canonical_integer(text).unwrap(), text);
    }
}

#[test]
fn other_integer_texts_are_refused() {
    for text in ["", "-", "-0", "00", "01", "-01", "+1", "1.0", "1e3", " 1", "--1", "\u{661}"] {
        let error = parse_canonical_integer(text).unwrap_err();
        assert_eq!(error.details()[0].code, "int_parsing", "{text:?}");
        assert_eq!(error.details()[0].message, "Input must be a canonical integer");
    }
}

#[test]
fn bytes_accept_bytes_and_lax_strings() {
    let any = BytesConstraints { min_length: None, max_length: None, json_mode: BytesJsonMode::Utf8 };
    let native = InputProfile::Native;
    assert_eq!(validate_bytes(&InputValue::Bytes(vec![1, 2]), true, native, &any).unwrap(), ValidatedValue::Bytes(vec![1, 2]));
    assert_eq!(
        validate_bytes(&InputValue::String("\u{e9}".to_string()), false, native, &any).unwrap(),
        ValidatedValue::Bytes(vec![0xc3, 0xa9])
    );
    assert_eq!(code_of(validate_bytes(&InputValue::String("a".to_string()), true, native, &any)), "bytes_type");
    assert_eq!(
        validate_bytes(&InputValue::String("a".to_string()), true, InputProfile::Json, &any).unwrap(),
        ValidatedValue::Bytes(vec![b'a'])
    );
    assert_eq!(
        validate_bytes(&InputValue::String("a".to_string()), true, InputProfile::Strings, &any).unwrap(),
        ValidatedValue::Bytes(vec![b'a'])
    );
    assert_eq!(code_of(validate_bytes(&InputValue::Null, false, native, &any)), "bytes_type");
}

#[test]
fn json_bytes_can_use_url_safe_base64() {
    let base64 = BytesConstraints { min_length: None, max_length: Some(3), json_mode: BytesJsonMode::Base64 };
    assert_eq!(
        validate_bytes(&InputValue::String("-_8=".to_string()), true, InputProfile::Json, &base64).unwrap(),
        ValidatedValue::Bytes(vec![0xfb, 0xff])
    );
    let error = validate_bytes(&InputValue::String("a b".to_string()), false, InputProfile::Json, &base64).unwrap_err();
    assert_eq!(error.details()[0].code, "bytes_base64");
    assert_eq!(error.details()[0].expected, "URL-safe base64 without whitespace");
    assert!(error.details()[0].context_value("error").is_some());
    assert_eq!(
        validate_bytes(
            &InputValue::String("-_8=".to_string()),
            false,
            InputProfile::Strings,
            &BytesConstraints { max_length: Some(4), ..base64.clone() }
        )
        .unwrap(),
        ValidatedValue::Bytes(b"-_8=".to_vec())
    );
    let long = validate_bytes(&InputValue::String("AAAAAA==".to_string()), false, InputProfile::Json, &base64).unwrap_err();
    assert_eq!(long.details()[0].code, "too_long");
}

#[test]
fn bytes_lengths_are_checked() {
    let bounded = BytesConstraints { min_length: Some(2), max_length: Some(3), json_mode: BytesJsonMode::Utf8 };
    let native = InputProfile::Native;
    let short = validate_bytes(&InputValue::Bytes(vec![1]), true, native, &bounded).unwrap_err();
    assert_eq!(short.details()[0].code, "too_short");
    assert_eq!(short.details()[0].message, "bytes is too short");
    assert_eq!(short.details()[0].context_value("minimum").map(String::as_str), Some("2"));
    let long = validate_bytes(&InputValue::Bytes(vec![1, 2, 3, 4]), true, native, &bounded).unwrap_err();
    assert_eq!(long.details()[0].code, "too_long");
    assert_eq!(long.details()[0].context_value("maximum").map(String::as_str), Some("3"));
    assert!(validate_bytes(&InputValue::Bytes(vec![1, 2, 3]), true, native, &bounded).is_ok());
}

fn id(raw: usize) -> ArenaId {
    ArenaId::from_usize(raw).unwrap()
}

#[test]
fn remapping_moves_every_id() {
    let mut list = ValidatedValue::Sequence(vec![id(0), id(2)]);
    list.remap_ids(5).unwrap();
    assert_eq!(list, ValidatedValue::Sequence(vec![id(5), id(7)]));

    let mut mapping = ValidatedValue::Mapping(vec![(id(1), id(2))]);
    mapping.remap_ids(1).unwrap();
    assert_eq!(mapping, ValidatedValue::Mapping(vec![(id(2), id(3))]));

    let mut model = ValidatedValue::Model(ModelValue::new("m.M", vec![("a", id(0))], vec![("x".to_string(), id(1))], 1));
    model.remap_ids(10).unwrap();
    assert_eq!(
        model,
        ValidatedValue::Model(ModelValue::new("m.M", vec![("a", id(10))], vec![("x".to_string(), id(11))], 1))
    );

    let mut text = ValidatedValue::String("s".to_string());
    text.remap_ids(3).unwrap();
    assert_eq!(text, ValidatedValue::String("s".to_string()));
}

#[test]
fn remapping_past_the_compact_range_fails_part_way() {
    let top = u32::MAX as usize;
    let mut list = ValidatedValue::Tuple(vec![id(0), id(top - 1), id(1)]);
    assert!(list.remap_ids(1).is_ok());
    let mut list = ValidatedValue::Tuple(vec![id(0), id(top), id(1)]);
    assert!(list.remap_ids(1).is_err());
    assert_eq!(list, ValidatedValue::Tuple(vec![id(1), id(top), id(1)]));
}
