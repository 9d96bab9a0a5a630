use pydantic_sifr_core::arena::ArenaId;
use pydantic_sifr_core::constraints::{AliasPath, BytesConstraints, CollectionConstraints, IntegerConstraints, IntegerTarget};
use pydantic_sifr_core::engine::{validate, validate_model, validate_node, validated_iterator, ValidationState};
use pydantic_sifr_core::error::{LocationItem, ValidationError, ValidationLimits};
use pydantic_sifr_core::generation::{ExtraPolicy, ModelField, ModelSchema, Schema};
use pydantic_sifr_core::input::{InputArena, JsonLimits};
use pydantic_sifr_core::json::parse_json;
use pydantic_sifr_core::native::{build_native_input, NativeValue};
use pydantic_sifr_core::options::{InputProfile, ValidationOptions};
use pydantic_sifr_core::strings::{StringConstraints, StringPattern};
use pydantic_sifr_core::values::{ValidatedArena, ValidatedValue};

fn native(value: NativeValue) -> InputArena {
    build_native_input(&value, JsonLimits::default()).unwrap()
}

fn json(text: &str) -> InputArena {
    parse_json(text.as_bytes(), JsonLimits::default()).unwrap()
}

fn lax() -> ValidationOptions {
    ValidationOptions::default()
}

fn integer_input(text: &str) -> NativeValue {
    NativeValue::Integer(text.to_string())
}

fn integer() -> Schema {
    Schema::Integer { target: IntegerTarget::Exact, constraints: IntegerConstraints::default() }
}

fn id(raw: usize) -> ArenaId {
    ArenaId::from_usize(raw).unwrap()
}

fn root_value(arena: &ValidatedArena) -> ValidatedValue {
    arena.get(arena.root()).unwrap().clone()
}

fn only(error: &ValidationError) -> (&'static str, Vec<LocationItem>) {
    assert_eq!(error.details().len(), 1);
    let detail = &error.details()[0];
    (detail.code, detail.location.clone())
}

fn field(name: &'static str, schema: Schema, has_default: bool) -> ModelField {
    ModelField {
        name,
        schema,
        input: true,
        has_default,
        serialization_alias: None,
        validation_aliases: Vec::new(),
    }
}

fn model(fields: Vec<ModelField>, extra: ExtraPolicy) -> ModelSchema {
    ModelSchema { name: "pkg.Point", fields, extra, populate_by_name: false, location_by_alias: true }
}

#[test]
fn lax_or_strict_validates_only_the_selected_child() {
    let schema = Schema::LaxOrStrict { lax: Box::new(Schema::Null), strict: Box::new(Schema::Bool) };
    let input = native(NativeValue::Bool(true));
    let error = validate(&schema, &input, lax()).unwrap_err();
    assert_eq!(only(&error).0, "none_required");
    let strict = ValidationOptions { strict: true, ..lax() };
    assert_eq!(root_value(&validate(&schema, &input, strict).unwrap()), ValidatedValue::Bool(true));
    let overridden = ValidationOptions { strict_override: Some(true), ..lax() };
    assert_eq!(root_value(&validate(&schema, &input, overridden).unwrap()), ValidatedValue::Bool(true));
    let relaxed = ValidationOptions { strict: true, strict_override: Some(false), ..lax() };
    assert_eq!(only(&validate(&schema, &input, relaxed).unwrap_err()).0, "none_required");
}

#[test]
fn json_or_structural_follows_the_input_profile() {
    let schema = Schema::JsonOrStructural { json: Box::new(Schema::Bool), structural: Box::new(Schema::Null) };
    let input = native(NativeValue::Null);
    assert_eq!(root_value(&validate(&schema, &input, lax()).unwrap()), ValidatedValue::Null);
    let from_json = ValidationOptions { profile: InputProfile::Json, ..lax() };
    let error = validate(&schema, &json("null"), from_json).unwrap_err();
    assert_eq!(only(&error).0, "bool_parsing");
    let answer = validate(&schema, &json("true"), from_json).unwrap();
    assert_eq!(root_value(&answer), ValidatedValue::Bool(true));
}

#[test]
fn nullable_wraps_its_inner_value() {
    let schema = Schema::Nullable(Box::new(Schema::Bool));
    let none = validate(&schema, &native(NativeValue::Null), lax()).unwrap();
    assert_eq!(none.len(), 1);
    assert_eq!(root_value(&none), ValidatedValue::Nullable(None));
    let some = validate(&schema, &native(NativeValue::Bool(false)), lax()).unwrap();
    assert_eq!(some.len(), 2);
    assert_eq!(some.get(id(0)), Some(&ValidatedValue::Bool(false)));
    assert_eq!(root_value(&some), ValidatedValue::Nullable(Some(id(0))));
}

#[test]
fn lists_validate_each_item_and_locate_errors() {
    let schema = Schema::List { item: Box::new(integer()), constraints: CollectionConstraints::default() };
    let good = validate(&schema, &native(NativeValue::List(vec![integer_input("7"), integer_input("-2")])), lax()).unwrap();
    assert_eq!(good.get(id(0)), Some(&ValidatedValue::ExactInt("7".to_string())));
    assert_eq!(good.get(id(1)), Some(&ValidatedValue::ExactInt("-2".to_string())));
    assert_eq!(root_value(&good), ValidatedValue::Sequence(vec![id(0), id(1)]));

    let input = native(NativeValue::List(vec![integer_input("1"), NativeValue::Null, integer_input("3"), NativeValue::Bool(true)]));
    let strict = ValidationOptions { strict: true, ..lax() };
    let error = validate(&schema, &input, strict).unwrap_err();
    assert_eq!(error.details().len(), 2);
    assert_eq!(error.details()[0].location, vec![LocationItem::Index(1)]);
    assert_eq!(error.details()[1].location, vec![LocationItem::Index(3)]);
    assert!(!error.is_truncated());

    let capped = ValidationOptions {
        limits: ValidationLimits { max_errors: 1, ..ValidationLimits::default() },
        ..strict
    };
    let error = validate(&schema, &input, capped).unwrap_err();
    assert_eq!(error.details().len(), 1);
    assert!(error.is_truncated());
}

#[test]
fn list_bounds_and_kinds_are_checked_first() {
    let schema = Schema::List {
        item: Box::new(Schema::Bool),
        constraints: CollectionConstraints { min_length: Some(2), max_length: None },
    };
    let error = validate(&schema, &native(NativeValue::List(vec![NativeValue::Bool(true)])), lax()).unwrap_err();
    assert_eq!(only(&error).0, "too_short");
    assert_eq!(error.details()[0].message, "list is too short");
    let tuple = native(NativeValue::Tuple(vec![NativeValue::Bool(true), NativeValue::Bool(false)]));
    assert!(validate(&schema, &tuple, lax()).is_ok());
    let strict = ValidationOptions { strict: true, ..lax() };
    assert_eq!(only(&validate(&schema, &tuple, strict).unwrap_err()).0, "collection_type");
}

#[test]
fn tuples_match_their_length_and_positions() {
    let schema = Schema::Tuple(vec![Schema::Bool, integer()]);
    let answer = validate(&schema, &native(NativeValue::Tuple(vec![NativeValue::Bool(true), integer_input("4")])), lax()).unwrap();
    assert_eq!(root_value(&answer), ValidatedValue::Tuple(vec![id(0), id(1)]));
    let error = validate(&schema, &native(NativeValue::Tuple(vec![NativeValue::Bool(true)])), lax()).unwrap_err();
    assert_eq!(only(&error).0, "tuple_length");
    assert_eq!(
        error.details()[0].context,
        vec![("expected_length".to_string(), "2".to_string()), ("actual_length".to_string(), "1".to_string())]
    );
}

#[test]
fn models_read_fields_and_refuse_extras() {
    let schema = Schema::Model(model(
        vec![field("x", integer(), false), field("label", Schema::Bool, true)],
        ExtraPolicy::Forbid,
    ));
    let input = native(NativeValue::Object(vec![("x".to_string(), integer_input("3"))]));
    let answer = validate(&schema, &input, lax()).unwrap();
    match root_value(&answer) {
        ValidatedValue::Model(m) => {
            assert_eq!(m.name(), "pkg.Point");
            assert_eq!(m.fields(), &[("x", id(0))]);
            assert_eq!(m.validated_field_count(), 1);
            assert!(m.extras().is_empty());
        },
        other => panic!("not a model: {other:?}"),
    }
    let extra = native(NativeValue::Object(vec![
        ("x".to_string(), integer_input("3")),
        ("zz".to_string(), NativeValue::Bool(true)),
    ]));
    let error = validate(&schema, &extra, lax()).unwrap_err();
    assert_eq!(only(&error), ("extra_forbidden", vec![LocationItem::Field("zz".to_string())]));
    let empty = native(NativeValue::Object(Vec::new()));
    let error = validate(&schema, &empty, lax()).unwrap_err();
    assert_eq!(only(&error), ("missing", vec![LocationItem::Field("x".to_string())]));
    let error = validate(&schema, &native(NativeValue::Bool(true)), lax()).unwrap_err();
    assert_eq!(only(&error).0, "model_type");
}

#[test]
fn model_fields_follow_aliases_and_keep_extras() {
    let aliased = ModelField { validation_aliases: vec![AliasPath::field("alpha")], ..field("a", integer(), false) };
    let allow = ModelSchema { populate_by_name: false, ..model(vec![aliased], ExtraPolicy::Allow(Box::new(Schema::Bool))) };
    let input = native(NativeValue::Object(vec![
        ("alpha".to_string(), integer_input("9")),
        ("flag".to_string(), NativeValue::Bool(true)),
    ]));
    let mut state = ValidationState::new(&input, lax());
    let root = validate_model(&mut state, &allow, input.root(), 0).unwrap();
    let arena = state.into_arena(root);
    match root_value(&arena) {
        ValidatedValue::Model(m) => {
            assert_eq!(m.fields(), &[("a", id(0))]);
            assert_eq!(m.extras(), &[("flag".to_string(), id(1))]);
        },
        other => panic!("not a model: {other:?}"),
    }
    let ignoring = || {
        model(
            vec![ModelField { validation_aliases: vec![AliasPath::field("alpha")], ..field("a", integer(), false) }],
            ExtraPolicy::Ignore,
        )
    };
    let by_name = native(NativeValue::Object(vec![("a".to_string(), integer_input("9"))]));
    let error = validate(&Schema::Model(ignoring()), &by_name, lax()).unwrap_err();
    assert_eq!(only(&error), ("missing", vec![LocationItem::Field("alpha".to_string())]));
    let populated = ModelSchema { populate_by_name: true, ..ignoring() };
    assert!(validate(&Schema::Model(populated), &by_name, lax()).is_ok());

    let wrong = native(NativeValue::Object(vec![("alpha".to_string(), NativeValue::Null)]));
    let error = validate(&Schema::Model(ignoring()), &wrong, lax()).unwrap_err();
    assert_eq!(error.details()[0].location, vec![LocationItem::Field("alpha".to_string())]);
}

#[test]
fn depth_limits_and_unsupported_kinds_are_errors() {
    let nested = Schema::Nullable(Box::new(Schema::Nullable(Box::new(Schema::Bool))));
    let shallow = ValidationOptions { limits: ValidationLimits { max_depth: 1, ..ValidationLimits::default() }, ..lax() };
    let error = validate(&nested, &native(NativeValue::Bool(true)), shallow).unwrap_err();
    assert_eq!(only(&error).0, "recursion_limit");
    let error = validate(&Schema::Union(vec![Schema::Bool]), &native(NativeValue::Bool(true)), lax()).unwrap_err();
    assert_eq!(only(&error).0, "schema_kind");
    let unusable = ValidationOptions { limits: ValidationLimits { max_errors: 0, ..ValidationLimits::default() }, ..lax() };
    let error = validate(&Schema::Bool, &native(NativeValue::Bool(true)), unusable).unwrap_err();
    assert_eq!(only(&error).0, "resource_limit");
}

#[test]
fn nodes_append_to_the_state_they_are_given() {
    let input = native(NativeValue::List(vec![NativeValue::Bool(true), NativeValue::Bool(false)]));
    let mut state = ValidationState::new(&input, lax());
    let first = validate_node(&mut state, &Schema::Nullable(Box::new(Schema::Null)), input.root(), 0);
    assert!(first.is_err());
    let schema = Schema::List { item: Box::new(Schema::Bool), constraints: CollectionConstraints::default() };
    let list = validate_node(&mut state, &schema, input.root(), 0).unwrap();
    assert_eq!(list, id(2));
    let arena = state.into_arena(list);
    assert_eq!(arena.get(id(0)), Some(&ValidatedValue::Bool(true)));
    assert_eq!(root_value(&arena), ValidatedValue::Sequence(vec![id(0), id(1)]));
}

#[test]
fn bytes_keep_their_length_bounds() {
    let schema = Schema::Bytes(BytesConstraints { max_length: Some(2), ..BytesConstraints::default() });
    let answer = validate(&schema, &native(NativeValue::Bytes(vec![1, 2])), lax()).unwrap();
    assert_eq!(root_value(&answer), ValidatedValue::Bytes(vec![1, 2]));
    let error = validate(&schema, &native(NativeValue::Bytes(vec![1, 2, 3])), lax()).unwrap_err();
    assert_eq!(only(&error).0, "too_long");
    assert_eq!(error.details()[0].context, vec![("maximum".to_string(), "2".to_string())]);
}

#[test]
fn generators_validate_one_item_at_a_time() {
    let schema = Schema::Generator {
        item: Box::new(integer()),
        constraints: CollectionConstraints { min_length: Some(4), max_length: None },
    };
    let input = native(NativeValue::List(vec![integer_input("5"), NativeValue::Null, integer_input("6")]));
    let strict = ValidationOptions { strict: true, ..lax() };
    let mut items = validated_iterator(&schema, &input, strict).unwrap();
    let first = items.next_item().unwrap().unwrap();
    assert_eq!(root_value(&first), ValidatedValue::ExactInt("5".to_string()));
    let second = items.next_item().unwrap().unwrap_err();
    assert_eq!(only(&second).1, vec![LocationItem::Index(1)]);
    let third = items.next_item().unwrap().unwrap();
    assert_eq!(root_value(&third), ValidatedValue::ExactInt("6".to_string()));
    let short = items.next_item().unwrap().unwrap_err();
    assert_eq!(only(&short).0, "too_short");
    assert_eq!(short.details()[0].message, "generator is too short");
    assert!(items.next_item().is_none());

    let capped = Schema::Generator {
        item: Box::new(integer()),
        constraints: CollectionConstraints { min_length: None, max_length: Some(1) },
    };
    let mut items = validated_iterator(&capped, &input, lax()).unwrap();
    assert!(items.next_item().unwrap().is_ok());
    let long = items.next_item().unwrap().unwrap_err();
    assert_eq!(only(&long).0, "too_long");
    assert_eq!(long.details()[0].context, vec![("maximum".to_string(), "1".to_string())]);
    assert!(items.next_item().is_none());
}

#[test]
fn generators_need_the_lazy_entry_point() {
    let schema = Schema::Generator { item: Box::new(Schema::Bool), constraints: CollectionConstraints::default() };
    let input = native(NativeValue::List(vec![NativeValue::Bool(true)]));
    let error = validate(&schema, &input, lax()).unwrap_err();
    assert_eq!(only(&error).0, "generator_iterator");
    let error = validated_iterator(&Schema::Bool, &input, lax()).err().unwrap();
    assert_eq!(only(&error).0, "generator_schema");
    let error = validated_iterator(&schema, &native(NativeValue::Bool(true)), lax()).err().unwrap();
    assert_eq!(only(&error).0, "collection_type");
    let tight = ValidationOptions {
        limits: ValidationLimits { max_collection_items: 1, ..ValidationLimits::default() },
        ..lax()
    };
    let two = native(NativeValue::List(vec![NativeValue::Bool(true), NativeValue::Bool(false)]));
    let error = validated_iterator(&schema, &two, tight).err().unwrap();
    assert_eq!(only(&error).0, "resource_limit");
}

#[test]
fn engine_strings_are_trimmed_checked_and_converted() {
    let schema = Schema::String(StringConstraints {
        strip_whitespace: true,
        min_length: Some(2),
        to_upper: true,
        ..StringConstraints::default()
    });
    let text = |t: &str| native(NativeValue::String(t.to_string()));
    let answer = validate(&schema, &text("  ab "), lax()).unwrap();
    assert_eq!(root_value(&answer), ValidatedValue::String("AB".to_string()));
    let error = validate(&schema, &text(" a "), lax()).unwrap_err();
    assert_eq!(only(&error).0, "too_short");
    assert_eq!(error.details()[0].message, "string is too short");
    let bytes = native(NativeValue::Bytes(b"xyz".to_vec()));
    assert_eq!(root_value(&validate(&schema, &bytes, lax()).unwrap()), ValidatedValue::String("XYZ".to_string()));
    let strict = ValidationOptions { strict: true, ..lax() };
    assert_eq!(only(&validate(&schema, &bytes, strict).unwrap_err()).0, "string_type");

    let patterned = Schema::String(StringConstraints {
        pattern: Some(StringPattern::compile("^a+$".to_string()).unwrap()),
        ..StringConstraints::default()
    });
    assert!(validate(&patterned, &text("aaa"), lax()).is_ok());
    let error = validate(&patterned, &text("ab"), lax()).unwrap_err();
    assert_eq!(only(&error).0, "string_pattern_mismatch");
    assert_eq!(error.details()[0].context, vec![("pattern".to_string(), "^a+$".to_string())]);

    let numbers = Schema::String(StringConstraints { coerce_numbers_to_str: true, ..StringConstraints::default() });
    assert_eq!(only(&validate(&numbers, &text("a"), lax()).unwrap_err()).0, "schema_kind");
    let both = Schema::String(StringConstraints { to_upper: true, to_lower: true, ..StringConstraints::default() });
    assert_eq!(only(&validate(&both, &text("a"), lax()).unwrap_err()).0, "schema_invalid");
}

fn referenced(value: &ValidatedValue) -> Vec<ArenaId> {
    match value {
        ValidatedValue::Nullable(Some(x)) => vec![*x],
        ValidatedValue::Sequence(ids) | ValidatedValue::Tuple(ids) => ids.clone(),
        ValidatedValue::Model(m) => m.fields().iter().map(|f| f.1).chain(m.extras().iter().map(|e| e.1)).collect(),
        _ => Vec::new(),
    }
}

#[test]
fn validated_arenas_refer_backwards_and_end_at_the_root() {
    let point = || {
        Schema::Model(model(
            vec![field("x", Schema::Nullable(Box::new(integer())), false), field("tags", Schema::Tuple(vec![Schema::Bool]), true)],
            ExtraPolicy::Allow(Box::new(Schema::Bool)),
        ))
    };
    let schema = Schema::List { item: Box::new(point()), constraints: CollectionConstraints::default() };
    let one = NativeValue::Object(vec![
        ("x".to_string(), integer_input("1")),
        ("tags".to_string(), NativeValue::Tuple(vec![NativeValue::Bool(true)])),
        ("extra".to_string(), NativeValue::Bool(false)),
    ]);
    let two = NativeValue::Object(vec![("x".to_string(), NativeValue::Null)]);
    let arena = validate(&schema, &native(NativeValue::List(vec![one, two])), lax()).unwrap();
    assert_eq!(arena.root(), id(arena.len() - 1));
    for index in 0..arena.len() {
        let value = arena.get(id(index)).unwrap();
        for target in referenced(value) {
            assert!((target.raw() as usize) < index);
        }
    }
}

#[test]
fn embedded_json_is_parsed_and_validated_as_json() {
    let schema = Schema::EmbeddedJson(Box::new(Schema::List {
        item: Box::new(integer()),
        constraints: CollectionConstraints::default(),
    }));
    let text = native(NativeValue::String("[1, 2]".to_string()));
    let answer = validate(&schema, &text, lax()).unwrap();
    assert_eq!(answer.get(id(0)), Some(&ValidatedValue::ExactInt("1".to_string())));
    assert_eq!(root_value(&answer), ValidatedValue::Sequence(vec![id(0), id(1)]));
    let bytes = native(NativeValue::Bytes(b"[3]".to_vec()));
    assert!(validate(&schema, &bytes, lax()).is_ok());
    let broken = validate(&schema, &native(NativeValue::String("[1,".to_string())), lax()).unwrap_err();
    assert_eq!(broken.details().len(), 1);
    assert_eq!(broken.details()[0].context[0].0, "line");
    assert_eq!(broken.details()[0].context[1].0, "column");
    let error = validate(&schema, &native(NativeValue::Bool(true)), lax()).unwrap_err();
    assert_eq!(only(&error).0, "json_type");
    let strict = ValidationOptions { strict: true, ..lax() };
    let wrong = validate(&schema, &native(NativeValue::String("[true]".to_string())), strict).unwrap_err();
    assert_eq!(wrong.details()[0].location, vec![LocationItem::Index(0)]);
}
