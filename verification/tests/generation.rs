use pydantic_sifr_core::constraints::{AliasPath, CollectionConstraints, IntegerConstraints, IntegerTarget, TemporalKind, TemporalSchema};
use pydantic_sifr_core::generation::{
    generate, generate_json_schema, ComplexConstraints, EnumSchema, ExtraPolicy, FloatConstraints, FractionConstraints,
    LiteralValue, ModelField, ModelSchema, Schema, Token,
};
use pydantic_sifr_core::json_schema::{JsonIntegerProfile, JsonSchemaErrorKind, JsonSchemaMode, JsonSchemaOptions};
use pydantic_sifr_core::numeric::Fraction;
use pydantic_sifr_core::strings::StringConstraints;
use serde_json::Value;

fn read(tokens: &[Token], at: &mut usize) -> Value {
    let token = tokens[*at].clone();
    *at += 1;
    match token {
        Token::Null => Value::Null,
        Token::Bool(b) => Value::Bool(b),
        Token::Number(n) => serde_json::from_str(&n).unwrap(),
        Token::Double(bits) => Value::from(f64::from_bits(bits)),
        Token::Text(t) => Value::String(t),
        Token::BeginArray => {
            let mut items = Vec::new();
            while tokens[*at] != Token::EndArray {
                items.push(read(tokens, at));
            }
            *at += 1;
            Value::Array(items)
        }
        Token::BeginObject => {
            let mut members = serde_json::Map::new();
            while tokens[*at] != Token::EndObject {
                let Token::Key(key) = tokens[*at].clone() else { panic!("member without key") };
                *at += 1;
                let value = read(tokens, at);
                members.insert(key, value);
            }
            *at += 1;
            Value::Object(members)
        }
        other => panic!("unexpected token {other:?}"),
    }
}

fn to_value(tokens: &[Token]) -> Value {
    let mut at = 0;
    let value = read(tokens, &mut at);
    assert_eq!(at, tokens.len());
    value
}

fn json(text: &str) -> Value {
    serde_json::from_str(text).unwrap()
}

fn validation() -> JsonSchemaOptions {
    JsonSchemaOptions::new(JsonSchemaMode::Validation, false)
}

fn serialization() -> JsonSchemaOptions {
    JsonSchemaOptions::new(JsonSchemaMode::Serialization, false)
}

fn schema_of(schema: &Schema, options: JsonSchemaOptions) -> Value {
    to_value(&generate(schema, options, JsonIntegerProfile::Exact, 0).unwrap())
}

fn field(name: &'static str, schema: Schema, has_default: bool) -> ModelField {
    ModelField { name, schema, input: true, has_default, serialization_alias: None, validation_aliases: Vec::new() }
}

#[test]
fn scalar_schemas_have_their_json_types() {
    assert_eq!(schema_of(&Schema::Null, validation()), json(r#"{"type": "null"}"#));
    assert_eq!(schema_of(&Schema::Bool, validation()), json(r#"{"type": "boolean"}"#));
    let text = Schema::String(StringConstraints { min_length: Some(1), max_length: Some(5), ..StringConstraints::default() });
    assert_eq!(schema_of(&text, validation()), json(r#"{"type": "string", "minLength": 1, "maxLength": 5}"#));
    let date = Schema::Temporal(TemporalSchema { kind: TemporalKind::DateTime, relative: None });
    assert_eq!(schema_of(&date, validation()), json(r#"{"type": "string", "format": "date-time"}"#));
    let error = generate(&date, serialization(), JsonIntegerProfile::Exact, 0).unwrap_err();
    assert_eq!(error.kind(), JsonSchemaErrorKind::UnsupportedSchema);
    assert_eq!(
        schema_of(&Schema::Uuid { version: Some(4) }, validation()),
        json(r#"{"type": "string", "format": "uuid", "x-sifr-uuid-version": 4}"#)
    );
}

#[test]
fn integers_carry_their_bounds_and_profile() {
    let small = Schema::Integer {
        target: IntegerTarget::U8,
        constraints: IntegerConstraints { greater_than: Some("3".to_string()), ..IntegerConstraints::default() },
    };
    assert_eq!(
        schema_of(&small, validation()),
        json(
            r#"{"type": "integer", "minimum": 4, "maximum": 255, "x-sifr-integer-profile": "exact",
                "x-sifr-generated-client-warning": "client must use an exact integer JSON parser for this field"}"#
        )
    );
    let zero_step = Schema::Integer {
        target: IntegerTarget::Exact,
        constraints: IntegerConstraints { multiple_of: Some("0".to_string()), ..IntegerConstraints::default() },
    };
    let error = generate(&zero_step, validation(), JsonIntegerProfile::Exact, 0).unwrap_err();
    assert_eq!(error.message(), "integer multipleOf must be greater than zero");
}

#[test]
fn doubles_keep_finite_bounds_and_refuse_bad_steps() {
    let bounded = Schema::Float(FloatConstraints {
        greater_or_equal: Some(0.5f64.to_bits()),
        less_than: Some(2.0f64.to_bits()),
        ..FloatConstraints::default()
    });
    assert_eq!(
        schema_of(&bounded, validation()),
        json(r#"{"type": "number", "minimum": 0.5, "exclusiveMaximum": 2.0}"#)
    );
    let infinite = Schema::Float(FloatConstraints { less_or_equal: Some(f64::INFINITY.to_bits()), ..FloatConstraints::default() });
    assert_eq!(generate(&infinite, validation(), JsonIntegerProfile::Exact, 0).unwrap_err().kind(), JsonSchemaErrorKind::InvalidNumber);
    let negative_step = Schema::Float(FloatConstraints { multiple_of: Some((-1.0f64).to_bits()), ..FloatConstraints::default() });
    assert_eq!(
        generate(&negative_step, validation(), JsonIntegerProfile::Exact, 0).unwrap_err().message(),
        "floating-point multipleOf must be finite and greater than zero"
    );
}

#[test]
fn containers_nest_their_item_schemas() {
    let list = Schema::List {
        item: Box::new(Schema::Bool),
        constraints: CollectionConstraints { min_length: Some(1), max_length: None },
    };
    assert_eq!(schema_of(&list, validation()), json(r#"{"type": "array", "items": {"type": "boolean"}, "minItems": 1}"#));
    let set = Schema::MutableSet { item: Box::new(Schema::Null), constraints: CollectionConstraints::default() };
    assert_eq!(
        schema_of(&set, validation()),
        json(r#"{"type": "array", "items": {"type": "null"}, "uniqueItems": true}"#)
    );
    let tuple = Schema::Tuple(vec![Schema::Bool, Schema::Null]);
    assert_eq!(
        schema_of(&tuple, validation()),
        json(r#"{"type": "array", "prefixItems": [{"type": "boolean"}, {"type": "null"}], "minItems": 2, "maxItems": 2}"#)
    );
    let nullable = Schema::Nullable(Box::new(Schema::Bool));
    assert_eq!(schema_of(&nullable, validation()), json(r#"{"anyOf": [{"type": "boolean"}, {"type": "null"}]}"#));
    let union = Schema::TaggedUnion(vec![Schema::Bool, Schema::Null]);
    assert_eq!(schema_of(&union, validation()), json(r#"{"oneOf": [{"type": "boolean"}, {"type": "null"}]}"#));
    let mapping = Schema::Mapping {
        key: Box::new(Schema::String(StringConstraints::default())),
        value: Box::new(Schema::Bool),
        constraints: CollectionConstraints { min_length: None, max_length: Some(3) },
    };
    assert_eq!(
        schema_of(&mapping, validation()),
        json(r#"{"type": "object", "additionalProperties": {"type": "boolean"}, "propertyNames": {"type": "string"}, "maxProperties": 3}"#)
    );
    let bad_keys = Schema::Mapping {
        key: Box::new(Schema::Bool),
        value: Box::new(Schema::Bool),
        constraints: CollectionConstraints::default(),
    };
    assert!(generate(&bad_keys, validation(), JsonIntegerProfile::Exact, 0).is_err());
}

#[test]
fn modes_pick_the_matching_side() {
    let lax = Schema::LaxOrStrict { lax: Box::new(Schema::Bool), strict: Box::new(Schema::Null) };
    assert_eq!(schema_of(&lax, validation()), json(r#"{"type": "boolean"}"#));
    assert_eq!(schema_of(&lax, serialization()), json(r#"{"type": "null"}"#));
    let chain = Schema::Chain(vec![Schema::Bool, Schema::Null]);
    assert_eq!(schema_of(&chain, validation()), json(r#"{"type": "boolean"}"#));
    assert_eq!(schema_of(&chain, serialization()), json(r#"{"type": "null"}"#));
    assert!(generate(&Schema::Chain(Vec::new()), validation(), JsonIntegerProfile::Exact, 0).is_err());
    let embedded = Schema::EmbeddedJson(Box::new(Schema::Bool));
    assert_eq!(
        schema_of(&embedded, validation()),
        json(r#"{"type": "string", "contentMediaType": "application/json", "contentSchema": {"type": "boolean"}}"#)
    );
    assert_eq!(schema_of(&embedded, serialization()), json(r#"{"type": "boolean"}"#));
}

#[test]
fn models_list_properties_and_required_fields() {
    let model = Schema::Model(ModelSchema {
        name: "pkg.User",
        fields: vec![
            field("name", Schema::String(StringConstraints::default()), false),
            ModelField {
                validation_aliases: vec![AliasPath::field("years")],
                ..field("age", Schema::Bool, true)
            },
        ],
        extra: ExtraPolicy::Forbid,
        populate_by_name: false,
        location_by_alias: true,
    });
    assert_eq!(
        schema_of(&model, validation()),
        json(
            r#"{"type": "object", "title": "pkg.User",
                "properties": {"name": {"type": "string"}, "years": {"type": "boolean"}},
                "required": ["name"], "additionalProperties": false}"#
        )
    );
    assert_eq!(
        schema_of(&model, serialization()),
        json(
            r#"{"type": "object", "title": "pkg.User",
                "properties": {"name": {"type": "string"}, "age": {"type": "boolean"}},
                "required": ["name", "age"], "additionalProperties": false}"#
        )
    );
    let duplicate = Schema::Model(ModelSchema {
        name: "pkg.Twice",
        fields: vec![field("a", Schema::Bool, false), field("a", Schema::Null, false)],
        extra: ExtraPolicy::Allow(Box::new(Schema::Bool)),
        populate_by_name: false,
        location_by_alias: true,
    });
    assert_eq!(
        generate(&duplicate, validation(), JsonIntegerProfile::Exact, 0).unwrap_err().message(),
        "model aliases produce duplicate JSON Schema property names"
    );
}

#[test]
fn definitions_become_defs_with_escaped_references() {
    let scope = Schema::Definitions {
        definitions: vec![("a/b".to_string(), Schema::Bool)],
        root: Box::new(Schema::List {
            item: Box::new(Schema::DefinitionRef { name: "a/b".to_string() }),
            constraints: CollectionConstraints::default(),
        }),
    };
    let document = to_value(&generate_json_schema(&scope, validation(), JsonIntegerProfile::Exact).unwrap());
    assert_eq!(
        document,
        json(
            r##"{"type": "array", "items": {"$ref": "#/$defs/a~1b"}, "$defs": {"a/b": {"type": "boolean"}},
                "$schema": "https://json-schema.org/draft/2020-12/schema"}"##
        )
    );
    let nested = Schema::List {
        item: Box::new(Schema::Definitions { definitions: Vec::new(), root: Box::new(Schema::Bool) }),
        constraints: CollectionConstraints::default(),
    };
    assert_eq!(
        generate(&nested, validation(), JsonIntegerProfile::Exact, 0).unwrap_err().message(),
        "nested definition scopes do not have an exact JSON Schema reference base"
    );
}

#[test]
fn literals_list_values_and_integer_range() {
    let literal = Schema::Literal(vec![LiteralValue::Integer("3".to_string()), LiteralValue::Integer("-2".to_string())]);
    assert_eq!(
        schema_of(&literal, validation()),
        json(
            r#"{"enum": [3, -2], "x-sifr-integer-profile": "exact", "x-sifr-minimum": -2, "x-sifr-maximum": 3,
                "x-sifr-generated-client-warning": "client must use an exact integer JSON parser for this field"}"#
        )
    );
    let single = Schema::Enum(EnumSchema {
        name: "Color",
        variant_names: vec!["RED"],
        inputs: vec![LiteralValue::String("red".to_string())],
    });
    assert_eq!(schema_of(&single, validation()), json(r#"{"const": "red"}"#));
    let strings = to_value(&generate(&literal, serialization(), JsonIntegerProfile::StringInts, 0).unwrap());
    assert_eq!(
        strings,
        json(
            r#"{"enum": ["3", "-2"], "x-sifr-integer-profile": "string_ints", "x-sifr-minimum": -2, "x-sifr-maximum": 3,
                "x-sifr-format": "integer-decimal-string"}"#
        )
    );
    let huge = Schema::Literal(vec![LiteralValue::Integer("9007199254740992".to_string())]);
    let error = generate(&huge, validation(), JsonIntegerProfile::Web, 0).unwrap_err();
    assert_eq!(error.kind(), JsonSchemaErrorKind::IntegerPolicy);
    assert!(generate(&Schema::Literal(vec![LiteralValue::Bytes(vec![1])]), validation(), JsonIntegerProfile::Exact, 0).is_err());
}

#[test]
fn fractions_and_complex_numbers_offer_text_and_number_forms() {
    let half = Fraction::new("1", "2").unwrap();
    let third = Fraction::new("1", "3").unwrap();
    let fraction = Schema::Fraction(FractionConstraints {
        greater_or_equal: Some(half),
        less_than: Some(third),
        ..FractionConstraints::default()
    });
    assert_eq!(
        schema_of(&fraction, validation()),
        json(
            r#"{"anyOf": [{"type": "number", "minimum": 0.5},
                {"type": "string", "format": "fraction", "x-sifr-minimum": "1/2", "x-sifr-exclusive-maximum": "1/3"}]}"#
        )
    );
    assert_eq!(
        schema_of(&fraction, serialization()),
        json(r#"{"type": "string", "format": "fraction", "x-sifr-minimum": "1/2", "x-sifr-exclusive-maximum": "1/3"}"#)
    );
    let complex = Schema::Complex(ComplexConstraints { allow_non_finite: true, ..ComplexConstraints::default() });
    assert_eq!(
        schema_of(&complex, validation()),
        json(r#"{"anyOf": [{"type": "number"}, {"type": "string", "format": "complex", "x-sifr-allow-non-finite": true}]}"#)
    );
}

#[test]
fn generation_stops_past_the_depth_limit() {
    let error = generate(&Schema::Bool, validation(), JsonIntegerProfile::Exact, 257).unwrap_err();
    assert_eq!(error.kind(), JsonSchemaErrorKind::DepthLimit);
    assert!(generate(&Schema::Bool, validation(), JsonIntegerProfile::Exact, 256).is_ok());
}
