use vstd::prelude::*;
use vstd::utf8::{decode_utf8, encode_utf8, is_ascii_chars, valid_utf8};

use crate::arena::{id_at, lemma_id_view, max_arena_id, Arena};
use crate::collections::{sequence_fault, sequence_input, stop_after_error_cap};
use crate::constraints::{integer_constraints_wf, AliasPath, AliasSegment, IntegerTarget};
use crate::error::{detail_error, ErrorDetail, length_fault, length_view, plain_error, type_error, validate_length, DetailView, LocationItem, LocationStep, ValidationError};
use crate::fields::{alias_index, alias_location, first_hit, first_named, missing_location, select_field, spec_resolve};
use crate::generation::{bound_is_canonical, ExtraPolicy, ModelField, ModelSchema, Schema};
use crate::input::{InputArena, InputId, InputNode, InputValue, JsonInputError, JsonInputErrorView, JsonLimits, SequenceKind};
use crate::json::{parse_json, spec_parse_json};
use crate::integers::{integer_outcome, target_name, validate_integer};
use crate::keys::{at_step, collect_error, collect_view, errors_view};
use crate::models::{forbid_extra_entries, forbid_run, has_more_unconsumed, more_unconsumed, model_fault, model_input, order_model_fields, ordered_fields, recorded};
use crate::input_checks::{check_input_limits, check_strings_profile, fault_error, first_fault, strings_fault, strings_fault_error, visits};
use crate::options::{json_limits, spec_effective_strict, usable_limits, validate_options, InputProfile, ValidationOptions};
use crate::reports::arena_validation_error;
use crate::scalars::{bytes_source, lenient_bool, validate_bool, validate_bytes, validate_none};
use crate::strings::{regex_matches, string_answer, string_cased, string_source, string_trimmed, validate_string, StringConstraints};
use crate::special::{temporal_outcome, url_outcome, uuid_outcome, validate_temporal, validate_url, validate_uuid};
use crate::text::{decimal, owned, usize_text};
use crate::values::{ModelValue, ValidatedArena, ValidatedValue, ValueId, ValueView};

verus! {

/// The view of a validation error: its details and whether it was cut short.
pub type Fault = (Seq<DetailView>, bool);

/// What a validation step works on: the input nodes, the options of the
/// call, and the values validated so far, in arena order.
pub struct StateView {
    pub nodes: Seq<InputNode>,
    pub options: ValidationOptions,
    pub values: Seq<ValueView>,
}

/// The same state with other validated values.
pub open spec fn with_values(s: StateView, values: Seq<ValueView>) -> StateView {
    StateView { nodes: s.nodes, options: s.options, values }
}

/// The validated values after a step, and the index of its result or the
/// error it answers.
pub type Outcome = (Seq<ValueView>, Result<ValueId, Fault>);

pub open spec fn capacity_fault() -> Fault {
    plain_error("resource_limit"@, "Validated arena capacity exceeded"@, "bounded output"@)
}

pub open spec fn recursion_fault() -> Fault {
    plain_error("recursion_limit"@, "Validation recursion limit exceeded"@, "bounded input"@)
}

pub open spec fn internal_input_fault() -> Fault {
    plain_error("internal_input"@, "Input arena index is invalid"@, "valid input arena"@)
}

/// The error for a schema kind that this engine has no validator for.
pub open spec fn schema_kind_fault() -> Fault {
    plain_error("schema_kind"@, "Validator is not available for this schema kind"@, "implemented schema"@)
}

/// The error for integer constraints whose bounds are not canonical texts.
pub open spec fn integer_schema_fault() -> Fault {
    plain_error("schema_invalid"@, "Integer constraint is not a canonical integer"@, "canonical integer constraint"@)
}

/// Appends a value: it takes the next index, unless that index is past the
/// compact range, which is a resource error.
pub open spec fn stored(values: Seq<ValueView>, v: ValueView) -> Outcome {
    if values.len() <= max_arena_id() {
        (values.push(v), Ok(id_at(values.len())))
    } else {
        (values, Err(capacity_fault()))
    }
}

/// The boolean a boolean validator reads: a boolean as it is; otherwise,
/// when coercion is allowed, the value `lenient_bool` reads.
pub open spec fn bool_outcome(node: InputNode, strict: bool, profile: InputProfile) -> Result<bool, Fault> {
    match node {
        InputNode::Bool(b) => Ok(b),
        _ => if strict && profile != InputProfile::Strings {
            Err(plain_error("bool_type"@, "Input must be a boolean"@, "bool"@))
        } else {
            match lenient_bool(node) {
                Some(b) => Ok(b),
                None => Err(plain_error("bool_parsing"@, "Input must be a valid boolean"@, "bool"@)),
            }
        },
    }
}

/// The text a string schema starts from: a string; when not strict, the
/// UTF-8 text of bytes.
pub open spec fn string_text(node: InputNode, strict: bool) -> Result<Seq<char>, Fault> {
    let refused = plain_error("string_type"@, "Input must be a string"@, "str"@);
    match node {
        InputNode::String(t) => Ok(t),
        InputNode::Bytes(b) => if strict {
            Err(refused)
        } else if valid_utf8(b) {
            Ok(decode_utf8(b))
        } else {
            Err(plain_error("string_unicode"@, "Bytes must contain UTF-8"@, "UTF-8 string"@))
        },
        _ => Err(refused),
    }
}

/// What a string schema makes of its (trimmed) text: the ASCII and length
/// checks, then the pattern, then the case conversion.
pub open spec fn string_value(text: Seq<char>, c: StringConstraints) -> Result<Seq<char>, Fault> {
    if c.ascii_only && !is_ascii_chars(text) {
        Err(plain_error("string_not_ascii"@, "String must contain only ASCII characters"@, "ASCII string"@))
    } else if length_fault(text.len(), c.min_length, c.max_length) is Some {
        Err(length_view("string"@, length_fault(text.len(), c.min_length, c.max_length)->Some_0))
    } else {
        let done = string_cased(text, c.to_upper, c.to_lower);
        match c.pattern {
            None => Ok(done),
            Some(p) => if regex_matches(p.spec_source(), text) {
                Ok(done)
            } else {
                Err(
                    detail_error(
                        "string_pattern_mismatch"@,
                        "String does not match the pattern"@,
                        Seq::empty(),
                        seq![("pattern"@, p.spec_source())],
                    ),
                )
            },
        }
    }
}

/// The outcome of a string schema: constraints asking for both case
/// conversions are refused; the engine holds no formatter for doubles, so a
/// schema that turns numbers into strings answers `schema_kind_fault`;
/// otherwise the text is trimmed when asked and checked by `string_value`.
pub open spec fn string_outcome(node: InputNode, strict: bool, c: StringConstraints) -> Result<Seq<char>, Fault> {
    if c.to_upper && c.to_lower {
        Err(plain_error("schema_invalid"@, "to_upper and to_lower cannot both be enabled"@, "one case conversion"@))
    } else if c.coerce_numbers_to_str {
        Err(schema_kind_fault())
    } else {
        match string_text(node, strict) {
            Err(e) => Err(e),
            Ok(t) => string_value(string_trimmed(t, c.strip_whitespace), c),
        }
    }
}

/// The value a scalar schema makes of an input node, or the error it
/// answers, under the effective strictness, profile and clock of the call.
pub open spec fn leaf_outcome(schema: Schema, node: InputNode, options: ValidationOptions) -> Result<ValueView, Fault> {
    let strict = spec_effective_strict(options);
    match schema {
        Schema::Null => if node is Null {
            Ok(ValueView::Null)
        } else {
            Err(plain_error("none_required"@, "Input must be None"@, "none"@))
        },
        Schema::Bool => match bool_outcome(node, strict, options.profile) {
            Ok(b) => Ok(ValueView::Bool(b)),
            Err(e) => Err(e),
        },
        Schema::Integer { target, constraints } => if !integer_constraints_wf(constraints) {
            Err(integer_schema_fault())
        } else {
            match integer_outcome(node, strict, options.profile, target, constraints) {
                Ok(text) => Ok(
                    if target == IntegerTarget::Exact {
                        ValueView::ExactInt(text)
                    } else {
                        ValueView::FixedInt(target_name(target), text)
                    },
                ),
                Err(e) => Err(e),
            }
        },
        Schema::String(c) => match string_outcome(node, strict, c) {
            Ok(t) => Ok(ValueView::String(t)),
            Err(e) => Err(e),
        },
        Schema::Bytes(c) => match bytes_source(node, strict, options.profile, c.json_mode) {
            Err(e) => Err(e),
            Ok(b) => match length_fault(b.len(), c.min_length, c.max_length) {
                Some(f) => Err(length_view("bytes"@, f)),
                None => Ok(ValueView::Bytes(b)),
            },
        },
        Schema::Uuid { version } => match uuid_outcome(node, strict, options.profile, version) {
            Ok(b) => Ok(ValueView::Uuid(b)),
            Err(e) => Err(e),
        },
        Schema::Url(c) => match url_outcome(
            node,
            strict,
            options.profile,
            c.max_length,
            c.allowed_schemes@.map_values(|x: String| x@),
        ) {
            Ok(t) => Ok(ValueView::Url(t)),
            Err(e) => Err(e),
        },
        Schema::Temporal(t) => match temporal_outcome(t, node, strict, options.profile, options.clock) {
            Ok(v) => Ok(v@),
            Err(e) => Err(e),
        },
        Schema::Generator { .. } => Err(generator_fault()),
        _ => Err(schema_kind_fault()),
    }
}

/// The error for a generator schema met by the eager engine: generators are
/// validated lazily, by `validated_iterator`.
pub open spec fn generator_fault() -> Fault {
    plain_error("generator_iterator"@, "Generator schemas require validated_iterator"@, "lazy iterator entry point"@)
}

/// An error with a path of steps put before the location of each detail.
pub open spec fn at_path(e: Fault, path: Seq<LocationStep>) -> Fault {
    (
        Seq::new(
            e.0.len(),
            |i: int|
                DetailView {
                    code: e.0[i].code,
                    location: path + e.0[i].location,
                    message: e.0[i].message,
                    expected: e.0[i].expected,
                    context: e.0[i].context,
                },
        ),
        e.1,
    )
}

/// The errors after collecting one more, and whether they reached the
/// limit; when they did and more work remains, they are marked truncated.
pub open spec fn collect_capped(errors: Option<Fault>, e: Fault, limit: usize, has_more: bool) -> (Option<Fault>, bool) {
    match collect_view(errors, e, limit) {
        Some(c) => if c.0.len() >= limit {
            (Some((c.0, c.1 || has_more)), true)
        } else {
            (Some(c), false)
        },
        None => (None, false),
    }
}

/// The run over the first `k` items of a list.
pub struct ItemRun {
    pub values: Seq<ValueView>,
    pub ids: Seq<ValueId>,
    pub errors: Option<Fault>,
    pub stopped: bool,
}

/// The run over the fields of a model.
pub struct FieldRun {
    pub values: Seq<ValueView>,
    pub recorded: Seq<(Seq<char>, ValueId)>,
    pub consumed: Seq<usize>,
    pub errors: Option<Fault>,
    pub count: nat,
    pub stopped: bool,
}

/// The run over the extra entries of a model that validates them.
pub struct ExtraRun {
    pub values: Seq<ValueView>,
    pub extras: Seq<(Seq<char>, ValueId)>,
    pub errors: Option<Fault>,
    pub stopped: bool,
}

/// The bytes an embedded JSON schema parses: a string's UTF-8 bytes, or
/// bytes as they are.
pub open spec fn embedded_bytes(node: InputNode) -> Result<Seq<u8>, Fault> {
    match node {
        InputNode::String(t) => Ok(encode_utf8(t)),
        InputNode::Bytes(b) => Ok(b),
        _ => Err(plain_error("json_type"@, "Embedded JSON input must be text or bytes"@, "JSON text"@)),
    }
}

/// The JSON limits of a validation call: the string byte limit also bounds
/// the input, the collection item limit also the node count.
pub open spec fn call_json_limits(options: ValidationOptions) -> JsonLimits {
    JsonLimits {
        max_input_bytes: options.limits.max_string_bytes,
        max_depth: options.limits.max_depth,
        max_nodes: options.limits.max_collection_items,
        max_string_bytes: options.limits.max_string_bytes,
        max_integer_digits: options.limits.max_numeric_digits,
        max_collection_items: options.limits.max_collection_items,
    }
}

/// The error for embedded JSON that does not parse: the parser's code and
/// message, with its line and column as context.
pub open spec fn embedded_json_fault(e: JsonInputErrorView) -> Fault {
    (
        seq![
            DetailView {
                code: e.code,
                location: Seq::empty(),
                message: e.message,
                expected: Seq::empty(),
                context: seq![("line"@, decimal(e.line as nat)), ("column"@, decimal(e.column as nat))],
            },
        ],
        false,
    )
}

/// The options under which embedded JSON is validated: the JSON profile.
pub open spec fn json_profile(options: ValidationOptions) -> ValidationOptions {
    ValidationOptions { profile: InputProfile::Json, ..options }
}

/// Validates a schema against the input node at `id`, at a nesting depth:
/// past the depth limit and at an index outside the input it answers an
/// error; a lax-or-strict schema validates only against the child that the
/// effective strictness selects, a JSON-or-structural schema only against
/// its JSON child under the JSON profile and its structural child
/// otherwise; a nullable schema stores an empty optional for a null input
/// and otherwise wraps its inner value; a list validates each item in turn,
/// and a tuple of the schema's length each item against the schema at its
/// position, collecting their errors at their positions up to the error
/// limit; embedded JSON parses the text or bytes within the call's JSON
/// limits and validates the parsed document one level deeper under the JSON
/// profile; a model goes through `spec_validate_model`; a scalar schema
/// stores the value of `leaf_outcome`, which answers `schema_kind_fault`
/// for the kinds the engine has no validator for.
pub open spec fn spec_validate_node(s: StateView, schema: Schema, id: nat, depth: nat) -> Outcome
    decreases schema, 1nat,
{
    if depth > s.options.limits.max_depth {
        (s.values, Err(recursion_fault()))
    } else if id >= s.nodes.len() {
        (s.values, Err(internal_input_fault()))
    } else {
        let node = s.nodes[id as int];
        match schema {
            Schema::LaxOrStrict { lax, strict } => if spec_effective_strict(s.options) {
                spec_validate_node(s, *strict, id, depth + 1)
            } else {
                spec_validate_node(s, *lax, id, depth + 1)
            },
            Schema::JsonOrStructural { json, structural } => if s.options.profile == InputProfile::Json {
                spec_validate_node(s, *json, id, depth + 1)
            } else {
                spec_validate_node(s, *structural, id, depth + 1)
            },
            Schema::Nullable(inner) => if node is Null {
                stored(s.values, ValueView::Nullable(None))
            } else {
                let (values, out) = spec_validate_node(s, *inner, id, depth + 1);
                match out {
                    Ok(v) => stored(values, ValueView::Nullable(Some(v))),
                    Err(e) => (values, Err(e)),
                }
            },
            Schema::List { item, constraints } => match sequence_fault(Some(node), "list"@, SequenceKind::List, s.options) {
                Some(e) => (s.values, Err(e)),
                None => {
                    let children = node->Sequence_items;
                    match length_fault(children.len(), constraints.min_length, constraints.max_length) {
                        Some(f) => (s.values, Err(length_view("list"@, f))),
                        None => {
                            let run = spec_items(s, *item, children, depth, children.len());
                            match run.errors {
                                Some(e) => (run.values, Err(e)),
                                None => stored(run.values, ValueView::Sequence(run.ids)),
                            }
                        },
                    }
                },
            },
            Schema::Tuple(schemas) => match sequence_fault(Some(node), "tuple"@, SequenceKind::Tuple, s.options) {
                Some(e) => (s.values, Err(e)),
                None => {
                    let children = node->Sequence_items;
                    if children.len() != schemas@.len() {
                        (s.values, Err(tuple_length_fault(schemas@.len(), children.len())))
                    } else {
                        let run = spec_tuple_items(s, schemas@, children, depth, children.len());
                        match run.errors {
                            Some(e) => (run.values, Err(e)),
                            None => stored(run.values, ValueView::Tuple(run.ids)),
                        }
                    }
                },
            },
            Schema::EmbeddedJson(inner) => match embedded_bytes(node) {
                Err(e) => (s.values, Err(e)),
                Ok(bytes) => match spec_parse_json(bytes, call_json_limits(s.options)) {
                    Err(je) => (s.values, Err(embedded_json_fault(je))),
                    Ok((root, parsed)) => {
                        let o = json_profile(s.options);
                        if !usable_limits(o.limits) {
                            (s.values, Err(limits_fault()))
                        } else if first_fault(parsed, visits(parsed, root, depth + 1), 0, o.limits) is Some {
                            (s.values, Err(fault_error(first_fault(parsed, visits(parsed, root, depth + 1), 0, o.limits)->Some_0)))
                        } else {
                            spec_validate_node(StateView { nodes: parsed, options: o, values: s.values }, *inner, root, depth + 1)
                        }
                    },
                },
            },
            Schema::Model(m) => spec_validate_model(s, m, id, depth),
            _ => match leaf_outcome(schema, node, s.options) {
                Ok(v) => stored(s.values, v),
                Err(e) => (s.values, Err(e)),
            },
        }
    }
}

/// The run over the first `k` children of a list: each validated one level
/// deeper; an error is collected at the child's position, and once the
/// errors reach the limit the run stops.
pub open spec fn spec_items(s: StateView, item: Schema, children: Seq<nat>, depth: nat, k: nat) -> ItemRun
    decreases item, k + 2,
{
    if k == 0 || k > children.len() {
        ItemRun { values: s.values, ids: Seq::empty(), errors: None, stopped: false }
    } else {
        let prev = spec_items(s, item, children, depth, (k - 1) as nat);
        if prev.stopped {
            prev
        } else {
            let (values, out) = spec_validate_node(with_values(s, prev.values), item, children[k - 1], depth + 1);
            match out {
                Ok(v) => ItemRun { values, ids: prev.ids.push(v), errors: prev.errors, stopped: false },
                Err(e) => {
                    let (errors, stopped) = collect_capped(
                        prev.errors,
                        at_step(e, LocationStep::Index((k - 1) as usize)),
                        s.options.limits.max_errors,
                        k < children.len(),
                    );
                    ItemRun { values, ids: prev.ids, errors, stopped }
                },
            }
        }
    }
}

/// The error for a tuple input whose length differs from the schema's.
pub open spec fn tuple_length_fault(expected: nat, actual: nat) -> Fault {
    (
        seq![
            DetailView {
                code: "tuple_length"@,
                location: Seq::empty(),
                message: "Tuple length does not match the schema"@,
                expected: Seq::empty(),
                context: seq![("expected_length"@, decimal(expected)), ("actual_length"@, decimal(actual))],
            },
        ],
        false,
    )
}

/// The run over the first `k` items of a tuple, each validated against the
/// schema at its position; errors are collected as for a list.
pub open spec fn spec_tuple_items(s: StateView, schemas: Seq<Schema>, children: Seq<nat>, depth: nat, k: nat) -> ItemRun
    decreases schemas, k + 2,
{
    if k == 0 || k > children.len() || k > schemas.len() {
        ItemRun { values: s.values, ids: Seq::empty(), errors: None, stopped: false }
    } else {
        let prev = spec_tuple_items(s, schemas, children, depth, (k - 1) as nat);
        if prev.stopped {
            prev
        } else {
            let (values, out) = spec_validate_node(
                with_values(s, prev.values),
                schemas[k - 1],
                children[k - 1],
                depth + 1,
            );
            match out {
                Ok(v) => ItemRun { values, ids: prev.ids.push(v), errors: prev.errors, stopped: false },
                Err(e) => {
                    let (errors, stopped) = collect_capped(
                        prev.errors,
                        at_step(e, LocationStep::Index((k - 1) as usize)),
                        s.options.limits.max_errors,
                        k < children.len(),
                    );
                    ItemRun { values, ids: prev.ids, errors, stopped }
                },
            }
        }
    }
}

/// Where a model finds a field among its input entries: through the first
/// alias that leads somewhere and whose first step names an entry, with the
/// alias's location when locations follow aliases; else, when the field has
/// no alias or may be populated by name, the first entry with the field's
/// name. Gives the value's node, the entry's position and the location.
pub open spec fn field_selection(
    nodes: Seq<InputNode>,
    root: nat,
    entries: Seq<(Seq<char>, nat)>,
    paths: Seq<Seq<AliasSegment>>,
    populate_by_name: bool,
    location_by_alias: bool,
    name: Seq<char>,
) -> Option<(nat, nat, Seq<LocationStep>)> {
    let names = entries.map_values(|e: (Seq<char>, nat)| e.0);
    match first_hit(nodes, root, paths, names) {
        Some(j) => Some(
            (
                spec_resolve(nodes, root, paths[j as int])->Some_0,
                alias_index(paths[j as int], names)->Some_0,
                if location_by_alias {
                    alias_location(paths[j as int])
                } else {
                    seq![LocationStep::Field(name)]
                },
            ),
        ),
        None => if paths.len() == 0 || populate_by_name {
            match first_named(names, name) {
                Some(i) => Some((entries[i as int].1, i, seq![LocationStep::Field(name)])),
                None => None,
            }
        } else {
            None
        },
    }
}

/// The error for a required field that the input lacks.
pub open spec fn missing_fault() -> Fault {
    plain_error("missing"@, "Field is required"@, "field value"@)
}

/// Where a missing field is reported: the first alias's first field when
/// locations follow aliases, else the field's name.
pub open spec fn missing_step(location_by_alias: bool, f: ModelField) -> LocationStep {
    let aliases = f.validation_aliases@;
    if location_by_alias && aliases.len() > 0 && aliases[0].segments@.len() > 0 && aliases[0].segments@[0] is Field {
        LocationStep::Field(aliases[0].segments@[0]->Field_0@)
    } else {
        LocationStep::Field(f.name@)
    }
}

/// Whether a field at or after `k` is read from the input or has a default.
pub open spec fn more_fields(fields: Seq<ModelField>, k: nat) -> bool {
    exists|j: int| #![trigger fields[j]] k <= j < fields.len() && (fields[j].input || fields[j].has_default)
}

/// The position added to the consumed entries, once.
pub open spec fn consume(consumed: Seq<usize>, index: usize) -> Seq<usize> {
    if consumed.contains(index) {
        consumed
    } else {
        consumed.push(index)
    }
}

/// What field `i` of a model does to the run over the fields before it:
/// a field read from the input is looked up by `field_selection` and
/// validated one level deeper, its entry consumed; a lookup that finds
/// nothing is left to construction when the field has a default and is
/// otherwise a `missing` error; errors are collected at their location.
pub open spec fn field_outcome(
    s: StateView,
    fields: Seq<ModelField>,
    populate_by_name: bool,
    location_by_alias: bool,
    root: nat,
    entries: Seq<(Seq<char>, nat)>,
    depth: nat,
    prev: FieldRun,
    i: nat,
) -> FieldRun
    decreases fields, i + 2,
{
    let f = fields[i as int];
    let limit = s.options.limits.max_errors;
    if i >= fields.len() || !f.input {
        prev
    } else {
        match field_selection(
            s.nodes,
            root,
            entries,
            f.validation_aliases@.map_values(|a: AliasPath| a.segments@),
            populate_by_name,
            location_by_alias,
            f.name@,
        ) {
            Some((value, index, location)) => {
                let consumed = consume(prev.consumed, index as usize);
                let (values, out) = spec_validate_node(with_values(s, prev.values), f.schema, value, depth + 1);
                match out {
                    Ok(v) => FieldRun {
                        values,
                        recorded: prev.recorded.push((f.name@, v)),
                        consumed,
                        errors: prev.errors,
                        count: prev.count + 1,
                        stopped: false,
                    },
                    Err(e) => FieldRun {
                        values,
                        recorded: prev.recorded,
                        consumed,
                        errors: collect_view(prev.errors, at_path(e, location), limit),
                        count: prev.count,
                        stopped: false,
                    },
                }
            },
            None => if f.has_default {
                prev
            } else {
                FieldRun {
                    values: prev.values,
                    recorded: prev.recorded,
                    consumed: prev.consumed,
                    errors: collect_view(prev.errors, at_step(missing_fault(), missing_step(location_by_alias, f)), limit),
                    count: prev.count,
                    stopped: false,
                }
            },
        }
    }
}

/// The run over the first `k` fields of a model: a field read from the
/// input is looked up by `field_selection` and validated one level deeper,
/// its entry consumed; a lookup that finds nothing is left to construction
/// when the field has a default and is otherwise a `missing` error; errors
/// are collected at their location, and once they reach the limit the run
/// stops, marking them truncated when fields or possible extra entries
/// remain.
pub open spec fn spec_field_run(
    s: StateView,
    fields: Seq<ModelField>,
    populate_by_name: bool,
    location_by_alias: bool,
    extras_checked: bool,
    root: nat,
    entries: Seq<(Seq<char>, nat)>,
    depth: nat,
    k: nat,
) -> FieldRun
    decreases fields, k + 2,
{
    if k == 0 || k > fields.len() {
        FieldRun { values: s.values, recorded: Seq::empty(), consumed: Seq::empty(), errors: None, count: 0, stopped: false }
    } else {
        let prev = spec_field_run(s, fields, populate_by_name, location_by_alias, extras_checked, root, entries, depth, (k - 1) as nat);
        if prev.stopped {
            prev
        } else {
            let step = field_outcome(s, fields, populate_by_name, location_by_alias, root, entries, depth, prev, (k - 1) as nat);
            let limit = s.options.limits.max_errors;
            let has_more = more_fields(fields, k) || (extras_checked && step.consumed.len() < entries.len());
            capped(step, limit, has_more)
        }
    }
}

/// A field run after its errors are checked against the limit: once they
/// reach it the run stops, marking them truncated when more work remains.
pub open spec fn capped(step: FieldRun, limit: usize, has_more: bool) -> FieldRun {
    match step.errors {
        Some(e) => if e.0.len() >= limit {
            FieldRun {
                values: step.values,
                recorded: step.recorded,
                consumed: step.consumed,
                errors: Some((e.0, e.1 || has_more)),
                count: step.count,
                stopped: true,
            }
        } else {
            step
        },
        None => step,
    }
}

/// The run over the first `k` entries of a model that validates its extra
/// entries with schema `x`: each entry that no field consumed is validated
/// one level deeper and kept under its name, or its error collected at its
/// name; once the errors reach the limit the run stops.
pub open spec fn spec_allow_run(
    s: StateView,
    x: Schema,
    entries: Seq<(Seq<char>, nat)>,
    consumed: Seq<usize>,
    errors: Option<Fault>,
    depth: nat,
    k: nat,
) -> ExtraRun
    decreases x, k + 2,
{
    if k == 0 || k > entries.len() {
        ExtraRun { values: s.values, extras: Seq::empty(), errors, stopped: false }
    } else {
        let prev = spec_allow_run(s, x, entries, consumed, errors, depth, (k - 1) as nat);
        let i = (k - 1) as nat;
        if prev.stopped || consumed.contains(i as usize) {
            prev
        } else {
            let (name, node) = entries[i as int];
            let (values, out) = spec_validate_node(with_values(s, prev.values), x, node, depth + 1);
            match out {
                Ok(v) => ExtraRun { values, extras: prev.extras.push((name, v)), errors: prev.errors, stopped: false },
                Err(e) => {
                    let (errs, stopped) = collect_capped(
                        prev.errors,
                        at_step(e, LocationStep::Field(name)),
                        s.options.limits.max_errors,
                        more_unconsumed(consumed, entries.len() as int, i as int),
                    );
                    ExtraRun { values, extras: prev.extras, errors: errs, stopped }
                },
            }
        }
    }
}

/// Validates a model against the input node at `id`: the object must be
/// accepted by `model_fault`; its fields go through `spec_field_run`; unless
/// the errors are full, the entries that no field consumed are then ignored,
/// refused with `extra_forbidden` at their names, or validated by the extra
/// schema; any collected error is the answer; otherwise the model stores its
/// fields in declaration order (as `ordered_fields` gives them), its extra
/// entries and the number of validated fields.
pub open spec fn spec_validate_model(s: StateView, m: ModelSchema, id: nat, depth: nat) -> Outcome
    decreases m, 0nat,
{
    if id >= s.nodes.len() {
        (s.values, Err(internal_input_fault()))
    } else {
        let node = s.nodes[id as int];
        match model_fault(Some(node), s.options) {
            Some(e) => (s.values, Err(e)),
            None => {
                let entries = node->Object_entries;
                let limit = s.options.limits.max_errors;
                let fields = m.fields@;
                let run = spec_field_run(
                    s,
                    fields,
                    m.populate_by_name,
                    m.location_by_alias,
                    !(m.extra is Ignore),
                    id,
                    entries,
                    depth,
                    fields.len(),
                );
                let full = run.errors matches Some(e) && e.0.len() >= limit;
                let extra: ExtraRun = if full {
                    ExtraRun { values: run.values, extras: Seq::empty(), errors: run.errors, stopped: true }
                } else {
                    match m.extra {
                        ExtraPolicy::Ignore => ExtraRun {
                            values: run.values,
                            extras: Seq::empty(),
                            errors: run.errors,
                            stopped: false,
                        },
                        ExtraPolicy::Forbid => ExtraRun {
                            values: run.values,
                            extras: Seq::empty(),
                            errors: forbid_run(
                                entries.map_values(|e: (Seq<char>, nat)| e.0),
                                run.consumed,
                                run.errors,
                                limit,
                                entries.len(),
                            ).0,
                            stopped: false,
                        },
                        ExtraPolicy::Allow(x) => spec_allow_run(
                            with_values(s, run.values),
                            *x,
                            entries,
                            run.consumed,
                            run.errors,
                            depth,
                            entries.len(),
                        ),
                    }
                };
                match extra.errors {
                    Some(e) => (extra.values, Err(e)),
                    None => match ordered_fields(
                        fields.map_values(|f: ModelField| (f.name@, f.has_default)),
                        run.recorded,
                    ) {
                        Err(e) => (extra.values, Err(e)),
                        Ok(done) => stored(extra.values, ValueView::Model(m.name@, done, extra.extras, run.count as usize)),
                    },
                }
            },
        }
    }
}

/// Whether an answer matches an outcome: the same index, or an error with
/// the outcome's view.
pub open spec fn answered(r: Result<ValueId, ValidationError>, out: Result<ValueId, Fault>) -> bool {
    match out {
        Ok(id) => r matches Ok(x) && x == id,
        Err(e) => r matches Err(x) && x@ == e,
    }
}

/// The error for limits that cannot be used.
pub open spec fn limits_fault() -> Fault {
    plain_error("resource_limit"@, "Validation limits must be greater than zero"@, "positive limits"@)
}

/// What one validation call answers: unusable limits, an input that the
/// strings profile refuses, or an input past the limits are refused before
/// any value is validated; otherwise the root node is validated from an
/// empty arena at depth zero, giving the root's index and the values.
pub open spec fn spec_validate(schema: Schema, nodes: Seq<InputNode>, root: nat, options: ValidationOptions) -> Result<
    (ValueId, Seq<ValueView>),
    Fault,
> {
    if !usable_limits(options.limits) {
        Err(limits_fault())
    } else if options.profile == InputProfile::Strings && strings_fault(nodes, visits(nodes, root, 0)) is Some {
        Err(strings_fault_error(strings_fault(nodes, visits(nodes, root, 0))->Some_0))
    } else if first_fault(nodes, visits(nodes, root, 0), 0, options.limits) is Some {
        Err(fault_error(first_fault(nodes, visits(nodes, root, 0), 0, options.limits)->Some_0))
    } else {
        let (values, out) = spec_validate_node(
            StateView { nodes, options, values: Seq::empty() },
            schema,
            root,
            0,
        );
        match out {
            Ok(id) => Ok((id, values)),
            Err(e) => Err(e),
        }
    }
}

/// The state of one validation call: the input, the options and the values
/// validated so far.
pub struct ValidationState<'a> {
    input: &'a InputArena,
    values: Arena<ValidatedValue>,
    options: ValidationOptions,
}

impl<'a> View for ValidationState<'a> {
    type V = StateView;

    closed spec fn view(&self) -> StateView {
        StateView {
            nodes: self.input.spec_nodes(),
            options: self.options,
            values: self.values@.map_values(|v: ValidatedValue| v@),
        }
    }
}

impl<'a> ValidationState<'a> {
    /// A state over an input with no value validated yet.
    pub fn new(input: &'a InputArena, options: ValidationOptions) -> (r: ValidationState<'a>)
        ensures
            r@ == (StateView { nodes: input.spec_nodes(), options, values: Seq::empty() }),
    {
        let r = ValidationState { input, values: Arena::new(), options };
        assert(r.values@.map_values(|v: ValidatedValue| v@) =~= Seq::<ValueView>::empty());
        r
    }

    /// Stores a validated value, as `stored` says.
    pub fn push(&mut self, value: ValidatedValue) -> (r: Result<ValueId, ValidationError>)
        ensures
            final(self)@ == with_values(old(self)@, stored(old(self)@.values, value@).0),
            answered(r, stored(old(self)@.values, value@).1),
    {
        let ghost before = self.values@;
        let ghost v = value@;
        match self.values.push(value) {
            Ok(id) => {
                proof {
                    lemma_id_view(id);
                    assert(self.values@.map_values(|x: ValidatedValue| x@) =~= before.map_values(
                        |x: ValidatedValue| x@,
                    ).push(v));
                }
                Ok(id)
            },
            Err(e) => Err(arena_validation_error(e)),
        }
    }

    /// The validated values, with the root of the result.
    pub fn into_arena(self, root: ValueId) -> (r: ValidatedArena)
        ensures
            r.spec_root() == root,
            r.spec_values().map_values(|v: ValidatedValue| v@) == self@.values,
    {
        ValidatedArena::new(root, self.values)
    }
}

/// Stores the answer of a scalar validator: its value, or its error with
/// the values unchanged.
fn store(state: &mut ValidationState, answer: Result<ValidatedValue, ValidationError>) -> (r: Result<ValueId, ValidationError>)
    ensures
        match answer {
            Ok(v) => final(state)@ == with_values(old(state)@, stored(old(state)@.values, v@).0) && answered(
                r,
                stored(old(state)@.values, v@).1,
            ),
            Err(e) => final(state)@ == old(state)@ && (r matches Err(x) && x@ == e@),
        },
{
    match answer {
        Ok(v) => state.push(v),
        Err(e) => Err(e),
    }
}

/// An error with one step put before the location of each detail.
fn located(e: ValidationError, item: LocationItem) -> (r: ValidationError)
    ensures
        r@ == at_step(e@, item@),
{
    let ghost step = item@;
    let ghost before = e@;
    let r = e.at(item);
    assert(r@.0 =~= at_step(before, step).0);
    r
}

/// An error with a path put before the location of each detail.
fn at_location(e: ValidationError, path: &Vec<LocationItem>) -> (r: ValidationError)
    ensures
        r@ == at_path(e@, path@.map_values(|i: LocationItem| i@)),
{
    let ghost p = path@.map_values(|i: LocationItem| i@);
    let ghost start = e@;
    let mut r = e;
    let mut j: usize = path.len();
    assert(r@.0 =~= at_path(start, p.subrange(j as int, p.len() as int)).0);
    while j > 0
        invariant
            j <= path@.len(),
            p == path@.map_values(|i: LocationItem| i@),
            r@ == at_path(start, p.subrange(j as int, p.len() as int)),
        decreases j,
    {
        j = j - 1;
        let ghost prev = r@;
        r = r.at(path[j].copy());
        proof {
            let tail = p.subrange(j as int + 1, p.len() as int);
            assert(p.subrange(j as int, p.len() as int) =~= seq![p[j as int]] + tail);
            assert forall|i: int| 0 <= i < r@.0.len() implies (#[trigger] r@.0[i]).location == (seq![p[j as int]]
                + tail) + start.0[i].location by {
                assert((seq![p[j as int]] + tail) + start.0[i].location =~= seq![p[j as int]] + (tail
                    + start.0[i].location));
            }
            assert(r@.0 =~= at_path(start, p.subrange(j as int, p.len() as int)).0);
        }
    }
    assert(p.subrange(0, p.len() as int) =~= p);
    r
}

/// Whether every bound and the step of integer constraints are canonical.
fn integer_constraints_ok(c: &crate::constraints::IntegerConstraints) -> (r: bool)
    ensures
        r == integer_constraints_wf(*c),
{
    bound_is_canonical(&c.greater_than) && bound_is_canonical(&c.greater_or_equal) && bound_is_canonical(
        &c.less_than,
    ) && bound_is_canonical(&c.less_or_equal) && bound_is_canonical(&c.multiple_of)
}

/// Validates a string schema, as `string_outcome` says.
fn validate_text(node: &InputValue, strict: bool, c: &StringConstraints) -> (r: Result<ValidatedValue, ValidationError>)
    ensures
        match string_outcome(node@, strict, *c) {
            Ok(t) => r matches Ok(v) && v@ == ValueView::String(t),
            Err(e) => r matches Err(x) && x@ == e,
        },
{
    if c.coerce_numbers_to_str && !(c.to_upper && c.to_lower) {
        return Err(type_error("schema_kind", "Validator is not available for this schema kind", "implemented schema"));
    }
    let no_doubles = |bits: u64| -> (t: String) { String::new() };
    let r = validate_string(node, strict, c, &no_doubles);
    proof {
        if !(c.to_upper && c.to_lower) {
            let source = choose|source: Result<Seq<char>, Fault>|
                #[trigger] string_source(node@, strict, c.coerce_numbers_to_str, no_doubles, source) && match source {
                    Err(view) => r matches Err(e) && e@ == view,
                    Ok(text) => string_answer(string_trimmed(text, c.strip_whitespace), *c, r),
                };
            match string_text(node@, strict) {
                Ok(t) => assert(source == Ok::<Seq<char>, Fault>(t)),
                Err(e) => assert(source == Err::<Seq<char>, Fault>(e)),
            }
        }
    }
    r
}

/// Validates a scalar schema against an input value and stores the result,
/// as `leaf_outcome` says.
fn validate_leaf(state: &mut ValidationState, schema: &Schema, input_id: InputId) -> (r: Result<ValueId, ValidationError>)
    requires
        input_id@ < old(state)@.nodes.len(),
    ensures
        match leaf_outcome(*schema, old(state)@.nodes[input_id@ as int], old(state)@.options) {
            Ok(v) => final(state)@ == with_values(old(state)@, stored(old(state)@.values, v).0) && answered(
                r,
                stored(old(state)@.values, v).1,
            ),
            Err(e) => final(state)@ == old(state)@ && (r matches Err(x) && x@ == e),
        },
{
    let input: &InputArena = state.input;
    let node = match input.get(input_id) {
        Some(n) => n,
        None => return Err(type_error("internal_input", "Input arena index is invalid", "valid input arena")),
    };
    let strict = state.options.effective_strict();
    let profile = state.options.profile;
    let answer = match schema {
        Schema::Null => validate_none(node),
        Schema::Bool => validate_bool(node, strict, profile),
        Schema::Integer { target, constraints } => {
            if !integer_constraints_ok(constraints) {
                return Err(
                    type_error(
                        "schema_invalid",
                        "Integer constraint is not a canonical integer",
                        "canonical integer constraint",
                    ),
                );
            }
            validate_integer(node, strict, profile, *target, constraints)
        },
        Schema::String(c) => validate_text(node, strict, c),
        Schema::Bytes(c) => validate_bytes(node, strict, profile, c),
        Schema::Uuid { version } => validate_uuid(node, strict, profile, *version),
        Schema::Url(c) => validate_url(node, strict, profile, c),
        Schema::Temporal(t) => validate_temporal(t, node, strict, profile, state.options.clock),
        Schema::Generator { .. } => Err(
            type_error("generator_iterator", "Generator schemas require validated_iterator", "lazy iterator entry point"),
        ),
        _ => Err(type_error("schema_kind", "Validator is not available for this schema kind", "implemented schema")),
    };
    store(state, answer)
}

/// A run of `spec_items` that stopped stays as it is for later children.
proof fn lemma_items_stay(s: StateView, item: Schema, children: Seq<nat>, depth: nat, k: nat, k2: nat)
    requires
        spec_items(s, item, children, depth, k).stopped,
        k <= k2 <= children.len(),
    ensures
        spec_items(s, item, children, depth, k2) == spec_items(s, item, children, depth, k),
    decreases k2,
{
    if k2 > k {
        lemma_items_stay(s, item, children, depth, k, (k2 - 1) as nat);
    }
}

/// Validates a schema against the input node at `input_id`, at a nesting
/// depth, storing the values it makes, as `spec_validate_node` says.
pub fn validate_node(state: &mut ValidationState, schema: &Schema, input_id: InputId, depth: usize) -> (r: Result<
    ValueId,
    ValidationError,
>)
    requires
        old(state)@.options.limits.max_depth < usize::MAX,
    ensures
        final(state)@ == with_values(old(state)@, spec_validate_node(old(state)@, *schema, input_id@, depth as nat).0),
        answered(r, spec_validate_node(old(state)@, *schema, input_id@, depth as nat).1),
    decreases schema, 1nat,
{
    if depth > state.options.limits.max_depth {
        return Err(type_error("recursion_limit", "Validation recursion limit exceeded", "bounded input"));
    }
    let input: &InputArena = state.input;
    let node = match input.get(input_id) {
        Some(n) => n,
        None => return Err(type_error("internal_input", "Input arena index is invalid", "valid input arena")),
    };
    match schema {
        Schema::LaxOrStrict { lax, strict } => {
            if state.options.effective_strict() {
                validate_node(state, strict, input_id, depth + 1)
            } else {
                validate_node(state, lax, input_id, depth + 1)
            }
        },
        Schema::JsonOrStructural { json, structural } => {
            if state.options.profile == InputProfile::Json {
                validate_node(state, json, input_id, depth + 1)
            } else {
                validate_node(state, structural, input_id, depth + 1)
            }
        },
        Schema::Nullable(inner) => {
            if let InputValue::Null = node {
                return state.push(ValidatedValue::Nullable(None));
            }
            let v = validate_node(state, inner, input_id, depth + 1)?;
            state.push(ValidatedValue::Nullable(Some(v)))
        },
        Schema::List { item, constraints } => validate_list(state, schema, item, constraints, input_id, depth),
        Schema::Tuple(items) => validate_tuple(state, schema, items, input_id, depth),
        Schema::EmbeddedJson(inner) => validate_embedded(state, schema, inner, input_id, depth),
        Schema::Model(m) => validate_model(state, m, input_id, depth),
        _ => validate_leaf(state, schema, input_id),
    }
}

/// Validates a list schema against a sequence input, as the list case of
/// `spec_validate_node` says.
fn validate_list(
    state: &mut ValidationState,
    schema: &Schema,
    item: &Box<Schema>,
    constraints: &crate::constraints::CollectionConstraints,
    input_id: InputId,
    depth: usize,
) -> (r: Result<ValueId, ValidationError>)
    requires
        old(state)@.options.limits.max_depth < usize::MAX,
        depth <= old(state)@.options.limits.max_depth,
        input_id@ < old(state)@.nodes.len(),
        *schema == (Schema::List { item: *item, constraints: *constraints }),
    ensures
        final(state)@ == with_values(old(state)@, spec_validate_node(old(state)@, *schema, input_id@, depth as nat).0),
        answered(r, spec_validate_node(old(state)@, *schema, input_id@, depth as nat).1),
    decreases item, 2nat,
{
    let ghost s0 = state@;
    let children = sequence_input(state.input, input_id, "list", SequenceKind::List, state.options)?;
    let ghost cv = s0.nodes[input_id@ as int]->Sequence_items;
    validate_length(children.len(), constraints.min_length, constraints.max_length, "list")?;
    let limit = state.options.limits.max_errors;
    let mut ids: Vec<ValueId> = Vec::new();
    let mut errors: Option<ValidationError> = None;
    let mut stopped = false;
    let mut i: usize = 0;
    while i < children.len() && !stopped
        invariant
            i <= children@.len(),
            children@.map_values(|c: InputId| c@) == cv,
            cv.len() == children@.len(),
            *schema == (Schema::List { item: *item, constraints: *constraints }),
            state@.nodes == s0.nodes,
            state@.options == s0.options,
            limit == s0.options.limits.max_errors,
            s0.options.limits.max_depth < usize::MAX,
            depth <= s0.options.limits.max_depth,
            state@.values == spec_items(s0, **item, cv, depth as nat, i as nat).values,
            ids@ == spec_items(s0, **item, cv, depth as nat, i as nat).ids,
            errors_view(errors) == spec_items(s0, **item, cv, depth as nat, i as nat).errors,
            stopped == spec_items(s0, **item, cv, depth as nat, i as nat).stopped,
        decreases children@.len() - i,
    {
        let child = children[i];
        assert(cv[i as int] == child@);
        assert(with_values(s0, state@.values) == state@);
        match validate_node(state, item, child, depth + 1) {
            Ok(v) => {
                ids.push(v);
            },
            Err(e) => {
                collect_error(&mut errors, located(e, LocationItem::Index(i)), limit);
                stopped = stop_after_error_cap(&mut errors, limit, i + 1 < children.len());
            },
        }
        i = i + 1;
    }
    proof {
        if stopped {
            lemma_items_stay(s0, **item, cv, depth as nat, i as nat, cv.len());
        }
    }
    match errors {
        Some(e) => Err(e),
        None => state.push(ValidatedValue::Sequence(ids)),
    }
}

/// A run of `spec_allow_run` that stopped stays as it is for later entries.
proof fn lemma_allow_stay(
    s: StateView,
    x: Schema,
    entries: Seq<(Seq<char>, nat)>,
    consumed: Seq<usize>,
    errors: Option<Fault>,
    depth: nat,
    k: nat,
    k2: nat,
)
    requires
        spec_allow_run(s, x, entries, consumed, errors, depth, k).stopped,
        k <= k2 <= entries.len(),
    ensures
        spec_allow_run(s, x, entries, consumed, errors, depth, k2) == spec_allow_run(s, x, entries, consumed, errors, depth, k),
    decreases k2,
{
    if k2 > k {
        lemma_allow_stay(s, x, entries, consumed, errors, depth, k, (k2 - 1) as nat);
    }
}

/// A run of `spec_field_run` that stopped stays as it is for later fields.
proof fn lemma_fields_stay(
    s: StateView,
    fields: Seq<ModelField>,
    populate_by_name: bool,
    location_by_alias: bool,
    extras_checked: bool,
    root: nat,
    entries: Seq<(Seq<char>, nat)>,
    depth: nat,
    k: nat,
    k2: nat,
)
    requires
        spec_field_run(s, fields, populate_by_name, location_by_alias, extras_checked, root, entries, depth, k).stopped,
        k <= k2 <= fields.len(),
    ensures
        spec_field_run(s, fields, populate_by_name, location_by_alias, extras_checked, root, entries, depth, k2)
            == spec_field_run(s, fields, populate_by_name, location_by_alias, extras_checked, root, entries, depth, k),
    decreases k2,
{
    if k2 > k {
        lemma_fields_stay(s, fields, populate_by_name, location_by_alias, extras_checked, root, entries, depth, k, (k2 - 1) as nat);
    }
}

/// Whether a field at or after `k` is read from the input or has a default.
fn has_more_fields(fields: &Vec<ModelField>, k: usize) -> (r: bool)
    ensures
        r == more_fields(fields@, k as nat),
{
    let mut j: usize = k;
    while j < fields.len()
        invariant
            k <= j || fields@.len() <= j,
            forall|t: int| k <= t < j && t < fields@.len() ==> !(#[trigger] fields@[t]).input && !fields@[t].has_default,
        decreases fields@.len() - j,
    {
        if fields[j].input || fields[j].has_default {
            assert(fields@[j as int] == fields[j as int]);
            return true;
        }
        j = j + 1;
    }
    false
}

/// The error of embedded JSON that does not parse.
fn embedded_json_error(error: JsonInputError) -> (r: ValidationError)
    ensures
        r@ == embedded_json_fault(error@),
{
    let ghost view = error@;
    let JsonInputError { code, message, offset, line, column, path } = error;
    let d = ErrorDetail::new(code, message).context("line", usize_text(line));
    proof {
        reveal_strlit("line");
        reveal_strlit("column");
        assert(d@.context =~= seq![("line"@, decimal(line as nat))]);
        assert("line"@.len() != "column"@.len());
        assert forall|j: int| 0 <= j < d@.context.len() implies (#[trigger] d@.context[j]).0 != "column"@ by {
            assert(d@.context[j].0 == "line"@);
        }
    }
    let d = d.context("column", usize_text(column));
    let e = ValidationError::one(d);
    proof {
        assert(d@.location =~= Seq::<LocationStep>::empty());
        assert(d@.expected =~= Seq::<char>::empty());
        assert(d@.context =~= seq![("line"@, decimal(line as nat)), ("column"@, decimal(column as nat))]);
        assert(e@ =~= embedded_json_fault(view));
    }
    e
}

/// Validates an embedded JSON schema: the text or bytes at `input_id` are
/// parsed within the call's JSON limits and the inner schema validates the
/// parsed document one level deeper under the JSON profile, as the
/// embedded JSON case of `spec_validate_node` says.
fn validate_embedded(state: &mut ValidationState, schema: &Schema, inner: &Box<Schema>, input_id: InputId, depth: usize) -> (r:
    Result<ValueId, ValidationError>)
    requires
        old(state)@.options.limits.max_depth < usize::MAX,
        depth <= old(state)@.options.limits.max_depth,
        input_id@ < old(state)@.nodes.len(),
        *schema == Schema::EmbeddedJson(*inner),
    ensures
        final(state)@ == with_values(old(state)@, spec_validate_node(old(state)@, *schema, input_id@, depth as nat).0),
        answered(r, spec_validate_node(old(state)@, *schema, input_id@, depth as nat).1),
    decreases inner, 2nat,
{
    let input: &InputArena = state.input;
    let bytes: &[u8] = match input.get(input_id) {
        Some(InputValue::String(t)) => t.as_str().as_bytes(),
        Some(InputValue::Bytes(b)) => b.as_slice(),
        Some(_) => {
            return Err(type_error("json_type", "Embedded JSON input must be text or bytes", "JSON text"));
        },
        None => {
            return Err(type_error("internal_input", "Input arena index is invalid", "valid input arena"));
        },
    };
    let parsed = match parse_json(bytes, json_limits(state.options)) {
        Ok(p) => p,
        Err(e) => {
            return Err(embedded_json_error(e));
        },
    };
    let options = ValidationOptions {
        strict: state.options.strict,
        strict_override: state.options.strict_override,
        profile: InputProfile::Json,
        limits: state.options.limits,
        clock: state.options.clock,
    };
    validate_options(options)?;
    let root = parsed.root();
    check_input_limits(&parsed, root, depth + 1, options.limits)?;
    let mut values: Arena<ValidatedValue> = Arena::new();
    std::mem::swap(&mut values, &mut state.values);
    let mut nested = ValidationState { input: &parsed, values, options };
    let r = validate_node(&mut nested, inner, root, depth + 1);
    state.values = nested.values;
    r
}

/// A run of `spec_tuple_items` that stopped stays as it is for later items.
proof fn lemma_tuple_stay(s: StateView, schemas: Seq<Schema>, children: Seq<nat>, depth: nat, k: nat, k2: nat)
    requires
        spec_tuple_items(s, schemas, children, depth, k).stopped,
        k <= k2 <= children.len(),
        children.len() == schemas.len(),
    ensures
        spec_tuple_items(s, schemas, children, depth, k2) == spec_tuple_items(s, schemas, children, depth, k),
    decreases k2,
{
    if k2 > k {
        lemma_tuple_stay(s, schemas, children, depth, k, (k2 - 1) as nat);
    }
}

/// Validates a tuple schema against a sequence input, as the tuple case of
/// `spec_validate_node` says.
fn validate_tuple(state: &mut ValidationState, schema: &Schema, items: &Vec<Schema>, input_id: InputId, depth: usize) -> (r:
    Result<ValueId, ValidationError>)
    requires
        old(state)@.options.limits.max_depth < usize::MAX,
        depth <= old(state)@.options.limits.max_depth,
        input_id@ < old(state)@.nodes.len(),
        *schema == Schema::Tuple(*items),
    ensures
        final(state)@ == with_values(old(state)@, spec_validate_node(old(state)@, *schema, input_id@, depth as nat).0),
        answered(r, spec_validate_node(old(state)@, *schema, input_id@, depth as nat).1),
    decreases items, 2nat,
{
    let ghost s0 = state@;
    let children = sequence_input(state.input, input_id, "tuple", SequenceKind::Tuple, state.options)?;
    let ghost cv = s0.nodes[input_id@ as int]->Sequence_items;
    if children.len() != items.len() {
        let d = ErrorDetail::new("tuple_length", owned("Tuple length does not match the schema")).context(
            "expected_length",
            usize_text(items.len()),
        );
        proof {
            reveal_strlit("expected_length");
            reveal_strlit("actual_length");
            assert(d@.context =~= seq![("expected_length"@, decimal(items@.len()))]);
            assert("expected_length"@.len() != "actual_length"@.len());
            assert forall|j: int| 0 <= j < d@.context.len() implies (#[trigger] d@.context[j]).0 != "actual_length"@ by {
                assert(d@.context[j].0 == "expected_length"@);
            }
        }
        let d = d.context("actual_length", usize_text(children.len()));
        let e = ValidationError::one(d);
        proof {
            assert(d@.location =~= Seq::<LocationStep>::empty());
            assert(d@.expected =~= Seq::<char>::empty());
            assert(d@.context =~= seq![
                ("expected_length"@, decimal(items@.len())),
                ("actual_length"@, decimal(children@.len())),
            ]);
            assert(e@ =~= tuple_length_fault(items@.len(), cv.len()));
        }
        return Err(e);
    }
    let limit = state.options.limits.max_errors;
    let mut ids: Vec<ValueId> = Vec::new();
    let mut errors: Option<ValidationError> = None;
    let mut stopped = false;
    let mut i: usize = 0;
    while i < children.len() && !stopped
        invariant
            i <= children@.len(),
            children@.map_values(|c: InputId| c@) == cv,
            cv.len() == children@.len(),
            items@.len() == children@.len(),
            state@.nodes == s0.nodes,
            state@.options == s0.options,
            limit == s0.options.limits.max_errors,
            s0.options.limits.max_depth < usize::MAX,
            depth <= s0.options.limits.max_depth,
            state@.values == spec_tuple_items(s0, items@, cv, depth as nat, i as nat).values,
            ids@ == spec_tuple_items(s0, items@, cv, depth as nat, i as nat).ids,
            errors_view(errors) == spec_tuple_items(s0, items@, cv, depth as nat, i as nat).errors,
            stopped == spec_tuple_items(s0, items@, cv, depth as nat, i as nat).stopped,
        decreases children@.len() - i,
    {
        let child = children[i];
        assert(cv[i as int] == child@);
        assert(with_values(s0, state@.values) == state@);
        match validate_node(state, &items[i], child, depth + 1) {
            Ok(v) => {
                ids.push(v);
            },
            Err(e) => {
                collect_error(&mut errors, located(e, LocationItem::Index(i)), limit);
                stopped = stop_after_error_cap(&mut errors, limit, i + 1 < children.len());
            },
        }
        i = i + 1;
    }
    proof {
        if stopped {
            lemma_tuple_stay(s0, items@, cv, depth as nat, i as nat, cv.len());
        }
    }
    match errors {
        Some(e) => Err(e),
        None => state.push(ValidatedValue::Tuple(ids)),
    }
}

/// A name found by `first_named` is at a position of the names.
proof fn lemma_first_named_bound(names: Seq<Seq<char>>, name: Seq<char>)
    ensures
        first_named(names, name) matches Some(i) ==> i < names.len(),
    decreases names.len(),
{
    if names.len() > 0 {
        lemma_first_named_bound(names.drop_first(), name);
    }
}

/// The fields of a run over a model's fields, as exec values.
struct FieldsDone {
    recorded: Vec<(&'static str, ValueId)>,
    consumed: Vec<usize>,
    errors: Option<ValidationError>,
    count: usize,
}

/// Whether the exec run over the fields matches `run`.
pub open spec fn run_matches(
    run: FieldRun,
    values: Seq<ValueView>,
    recorded: Seq<(&'static str, ValueId)>,
    consumed: Seq<usize>,
    errors: Option<ValidationError>,
    count: usize,
) -> bool {
    &&& values == run.values
    &&& recorded.map_values(|e: (&'static str, ValueId)| (e.0@, e.1)) == run.recorded
    &&& consumed == run.consumed
    &&& errors_view(errors) == run.errors
    &&& count == run.count
}

/// The run over the first `k` fields of `model` from state `s`.
pub open spec fn model_run(s: StateView, model: ModelSchema, root: nat, depth: nat, k: nat) -> FieldRun {
    spec_field_run(
        s,
        model.fields@,
        model.populate_by_name,
        model.location_by_alias,
        !(model.extra is Ignore),
        root,
        s.nodes[root as int]->Object_entries,
        depth,
        k,
    )
}

/// Looks up and validates field `k` of a model after the first `k`, as
/// `field_outcome` says.
#[verifier::spinoff_prover]
#[verifier::rlimit(100)]
fn field_lookup(
    state: &mut ValidationState,
    model: &ModelSchema,
    k: usize,
    entries: &Vec<(String, InputId)>,
    input_id: InputId,
    depth: usize,
    recorded: &mut Vec<(&'static str, ValueId)>,
    consumed: &mut Vec<usize>,
    errors: &mut Option<ValidationError>,
    count: &mut usize,
    Ghost(s0): Ghost<StateView>,
)
    requires
        k < model.fields@.len(),
        s0.options.limits.max_depth < usize::MAX,
        depth < usize::MAX,
        input_id@ < s0.nodes.len(),
        s0.nodes[input_id@ as int] is Object,
        entries@.map_values(|e: (String, InputId)| (e.0@, e.1@)) == s0.nodes[input_id@ as int]->Object_entries,
        old(state)@.nodes == s0.nodes,
        old(state)@.options == s0.options,
        *old(count) <= k,
        !model_run(s0, *model, input_id@, depth as nat, k as nat).stopped,
        run_matches(
            model_run(s0, *model, input_id@, depth as nat, k as nat),
            old(state)@.values,
            old(recorded)@,
            old(consumed)@,
            *old(errors),
            *old(count),
        ),
    ensures
        final(state)@.nodes == s0.nodes,
        final(state)@.options == s0.options,
        *final(count) <= k + 1,
        run_matches(
            field_outcome(
                s0,
                model.fields@,
                model.populate_by_name,
                model.location_by_alias,
                input_id@,
                s0.nodes[input_id@ as int]->Object_entries,
                depth as nat,
                model_run(s0, *model, input_id@, depth as nat, k as nat),
                k as nat,
            ),
            final(state)@.values,
            final(recorded)@,
            final(consumed)@,
            *final(errors),
            *final(count),
        ),
    decreases model, 0nat,
{
    let ghost ev = s0.nodes[input_id@ as int]->Object_entries;
    let ghost names = ev.map_values(|e: (Seq<char>, nat)| e.0);
    proof {
        assert(names =~= entries@.map_values(|e: (String, InputId)| e.0@));
    }
    let limit = state.options.limits.max_errors;
    let n = model.fields.len();
    assert(k < n);
    let f = &model.fields[k];
    assert(*f == model.fields@[k as int]);
    assert(with_values(s0, state@.values) == state@);
    let ghost rb = recorded@;
    if f.input {
        let found = select_field(
            state.input,
            input_id,
            entries.as_slice(),
            f.validation_aliases.as_slice(),
            model.populate_by_name,
            model.location_by_alias,
            f.name,
        );
        proof {
            lemma_first_named_bound(names, f.name@);
            let paths = f.validation_aliases@.map_values(|a: AliasPath| a.segments@);
            if first_hit(s0.nodes, input_id@, paths, names) is None && (paths.len() == 0 || model.populate_by_name) {
                if let Some(i) = first_named(names, f.name@) {
                    assert(entries@.map_values(|e: (String, InputId)| (e.0@, e.1@))[i as int] == ev[i as int]);
                }
            }
        }
        match found {
            Some((value, index, location)) => {
                if !crate::models::is_consumed(consumed, index) {
                    consumed.push(index);
                }
                match validate_node(state, &f.schema, value, depth + 1) {
                    Ok(v) => {
                        recorded.push((f.name, v));
                        *count = *count + 1;
                        assert(recorded@.map_values(|e: (&'static str, ValueId)| (e.0@, e.1)) =~= rb.map_values(
                            |e: (&'static str, ValueId)| (e.0@, e.1),
                        ).push((f.name@, v)));
                    },
                    Err(e) => {
                        collect_error(errors, at_location(e, &location), limit);
                    },
                }
            },
            None => {
                if !f.has_default {
                    let e = type_error("missing", "Field is required", "field value");
                    let item = missing_location(model.location_by_alias, f.name, f.validation_aliases.as_slice());
                    collect_error(errors, located(e, item), limit);
                }
            },
        }
    }
}

/// One field of the run over a model's fields: field `k` after the first
/// `k`, as `spec_field_run` says.
fn field_step(
    state: &mut ValidationState,
    model: &ModelSchema,
    k: usize,
    entries: &Vec<(String, InputId)>,
    input_id: InputId,
    depth: usize,
    recorded: &mut Vec<(&'static str, ValueId)>,
    consumed: &mut Vec<usize>,
    errors: &mut Option<ValidationError>,
    count: &mut usize,
    Ghost(s0): Ghost<StateView>,
) -> (stopped: bool)
    requires
        k < model.fields@.len(),
        s0.options.limits.max_depth < usize::MAX,
        depth < usize::MAX,
        input_id@ < s0.nodes.len(),
        s0.nodes[input_id@ as int] is Object,
        entries@.map_values(|e: (String, InputId)| (e.0@, e.1@)) == s0.nodes[input_id@ as int]->Object_entries,
        old(state)@.nodes == s0.nodes,
        old(state)@.options == s0.options,
        *old(count) <= k,
        !model_run(s0, *model, input_id@, depth as nat, k as nat).stopped,
        run_matches(
            model_run(s0, *model, input_id@, depth as nat, k as nat),
            old(state)@.values,
            old(recorded)@,
            old(consumed)@,
            *old(errors),
            *old(count),
        ),
    ensures
        final(state)@.nodes == s0.nodes,
        final(state)@.options == s0.options,
        *final(count) <= k + 1,
        stopped == model_run(s0, *model, input_id@, depth as nat, (k + 1) as nat).stopped,
        run_matches(
            model_run(s0, *model, input_id@, depth as nat, (k + 1) as nat),
            final(state)@.values,
            final(recorded)@,
            final(consumed)@,
            *final(errors),
            *final(count),
        ),
    decreases model, 1nat,
{
    let n = model.fields.len();
    field_lookup(state, model, k, entries, input_id, depth, recorded, consumed, errors, count, Ghost(s0));
    let extras_checked = match model.extra {
        ExtraPolicy::Ignore => false,
        _ => true,
    };
    let limit = state.options.limits.max_errors;
    let more = has_more_fields(&model.fields, k + 1) || (extras_checked && consumed.len() < entries.len());
    let ghost step = field_outcome(
        s0,
        model.fields@,
        model.populate_by_name,
        model.location_by_alias,
        input_id@,
        s0.nodes[input_id@ as int]->Object_entries,
        depth as nat,
        model_run(s0, *model, input_id@, depth as nat, k as nat),
        k as nat,
    );
    assert(model_run(s0, *model, input_id@, depth as nat, (k + 1) as nat) == capped(step, limit, more));
    stop_after_error_cap(errors, limit, more)
}

/// Runs over the fields of a model, as `spec_field_run` says.
fn run_fields(
    state: &mut ValidationState,
    model: &ModelSchema,
    entries: &Vec<(String, InputId)>,
    input_id: InputId,
    depth: usize,
) -> (r: FieldsDone)
    requires
        old(state)@.options.limits.max_depth < usize::MAX,
        depth < usize::MAX,
        input_id@ < old(state)@.nodes.len(),
        old(state)@.nodes[input_id@ as int] is Object,
        entries@.map_values(|e: (String, InputId)| (e.0@, e.1@)) == old(state)@.nodes[input_id@ as int]->Object_entries,
    ensures
        final(state)@.nodes == old(state)@.nodes,
        final(state)@.options == old(state)@.options,
        run_matches(
            model_run(old(state)@, *model, input_id@, depth as nat, model.fields@.len()),
            final(state)@.values,
            r.recorded@,
            r.consumed@,
            r.errors,
            r.count,
        ),
    decreases model, 2nat,
{
    let ghost s0 = state@;
    let mut recorded: Vec<(&'static str, ValueId)> = Vec::new();
    let mut consumed: Vec<usize> = Vec::new();
    let mut errors: Option<ValidationError> = None;
    let mut count: usize = 0;
    let mut stopped = false;
    let mut k: usize = 0;
    assert(recorded@.map_values(|e: (&'static str, ValueId)| (e.0@, e.1)) =~= Seq::<(Seq<char>, ValueId)>::empty());
    while k < model.fields.len() && !stopped
        invariant
            k <= model.fields@.len(),
            s0.options.limits.max_depth < usize::MAX,
            depth < usize::MAX,
            input_id@ < s0.nodes.len(),
            s0.nodes[input_id@ as int] is Object,
            entries@.map_values(|e: (String, InputId)| (e.0@, e.1@)) == s0.nodes[input_id@ as int]->Object_entries,
            state@.nodes == s0.nodes,
            state@.options == s0.options,
            count <= k,
            stopped == model_run(s0, *model, input_id@, depth as nat, k as nat).stopped,
            run_matches(model_run(s0, *model, input_id@, depth as nat, k as nat), state@.values, recorded@, consumed@, errors, count),
        decreases model.fields@.len() - k,
    {
        stopped = field_step(
            state,
            model,
            k,
            entries,
            input_id,
            depth,
            &mut recorded,
            &mut consumed,
            &mut errors,
            &mut count,
            Ghost(s0),
        );
        k = k + 1;
    }
    proof {
        if stopped {
            lemma_fields_stay(
                s0,
                model.fields@,
                model.populate_by_name,
                model.location_by_alias,
                !(model.extra is Ignore),
                input_id@,
                s0.nodes[input_id@ as int]->Object_entries,
                depth as nat,
                k as nat,
                model.fields@.len(),
            );
        }
    }
    FieldsDone { recorded, consumed, errors, count }
}

/// Validates the extra entries of a model with schema `x`, as
/// `spec_allow_run` says.
fn run_allowed(
    state: &mut ValidationState,
    x: &Schema,
    entries: &Vec<(String, InputId)>,
    consumed: &Vec<usize>,
    errors: &mut Option<ValidationError>,
    depth: usize,
) -> (r: Vec<(String, ValueId)>)
    requires
        old(state)@.options.limits.max_depth < usize::MAX,
        depth < usize::MAX,
    ensures
        ({
            let ar = spec_allow_run(
                old(state)@,
                *x,
                entries@.map_values(|e: (String, InputId)| (e.0@, e.1@)),
                consumed@,
                errors_view(*old(errors)),
                depth as nat,
                entries@.len(),
            );
            &&& final(state)@ == with_values(old(state)@, ar.values)
            &&& r@.map_values(|e: (String, ValueId)| (e.0@, e.1)) == ar.extras
            &&& errors_view(*final(errors)) == ar.errors
        }),
    decreases x, 2nat,
{
    let ghost s1 = state@;
    let ghost e0 = errors_view(*errors);
    let ghost ev = entries@.map_values(|e: (String, InputId)| (e.0@, e.1@));
    let limit = state.options.limits.max_errors;
    let mut extras: Vec<(String, ValueId)> = Vec::new();
    assert(extras@.map_values(|e: (String, ValueId)| (e.0@, e.1)) =~= Seq::<(Seq<char>, ValueId)>::empty());
    let mut done = false;
    let mut j: usize = 0;
    while j < entries.len()
        invariant
            j <= entries@.len(),
            ev == entries@.map_values(|e: (String, InputId)| (e.0@, e.1@)),
            state@.nodes == s1.nodes,
            state@.options == s1.options,
            limit == s1.options.limits.max_errors,
            s1.options.limits.max_depth < usize::MAX,
            depth < usize::MAX,
            ({
                let ar = spec_allow_run(s1, *x, ev, consumed@, e0, depth as nat, j as nat);
                &&& state@.values == ar.values
                &&& extras@.map_values(|e: (String, ValueId)| (e.0@, e.1)) == ar.extras
                &&& errors_view(*errors) == ar.errors
                &&& done == ar.stopped
            }),
        decreases entries@.len() - j,
    {
        assert(ev[j as int] == (entries@[j as int].0@, entries@[j as int].1@));
        if !done && !crate::models::is_consumed(consumed, j) {
            let ghost xb = extras@;
            assert(with_values(s1, state@.values) == state@);
            match validate_node(state, x, entries[j].1, depth + 1) {
                Ok(v) => {
                    let name = entries[j].0.clone();
                    extras.push((name, v));
                    assert(extras@.map_values(|e: (String, ValueId)| (e.0@, e.1)) =~= xb.map_values(
                        |e: (String, ValueId)| (e.0@, e.1),
                    ).push((ev[j as int].0, v)));
                },
                Err(e) => {
                    let name = entries[j].0.clone();
                    collect_error(errors, located(e, LocationItem::Field(name)), limit);
                    let more = has_more_unconsumed(consumed, entries.len(), j);
                    done = stop_after_error_cap(errors, limit, more);
                },
            }
        }
        j = j + 1;
    }
    extras
}

/// The name of each field of a model, with whether it has a default.
fn field_specs(fields: &Vec<ModelField>) -> (r: Vec<(&'static str, bool)>)
    ensures
        r@.map_values(|p: (&'static str, bool)| (p.0@, p.1)) == fields@.map_values(
            |f: ModelField| (f.name@, f.has_default),
        ),
{
    let ghost all = fields@.map_values(|f: ModelField| (f.name@, f.has_default));
    let mut specs: Vec<(&'static str, bool)> = Vec::new();
    let mut t: usize = 0;
    assert(specs@.map_values(|p: (&'static str, bool)| (p.0@, p.1)) =~= all.subrange(0, 0));
    while t < fields.len()
        invariant
            t <= fields@.len(),
            all == fields@.map_values(|f: ModelField| (f.name@, f.has_default)),
            specs@.map_values(|p: (&'static str, bool)| (p.0@, p.1)) == all.subrange(0, t as int),
        decreases fields@.len() - t,
    {
        let ghost sb = specs@;
        let name = fields[t].name;
        let has_default = fields[t].has_default;
        specs.push((name, has_default));
        assert(specs@ == sb.push((name, has_default)));
        assert(all[t as int] == (name@, has_default));
        assert(specs@.map_values(|p: (&'static str, bool)| (p.0@, p.1)) =~= sb.map_values(
            |p: (&'static str, bool)| (p.0@, p.1),
        ).push((name@, has_default)));
        assert(all.subrange(0, t + 1) =~= all.subrange(0, t as int).push(all[t as int]));
        t = t + 1;
    }
    assert(all.subrange(0, all.len() as int) =~= all);
    specs
}

/// Validates a model against the object input at `input_id`, at a nesting
/// depth, as `spec_validate_model` says.
pub fn validate_model(state: &mut ValidationState, model: &ModelSchema, input_id: InputId, depth: usize) -> (r: Result<
    ValueId,
    ValidationError,
>)
    requires
        old(state)@.options.limits.max_depth < usize::MAX,
        depth < usize::MAX,
    ensures
        final(state)@ == with_values(old(state)@, spec_validate_model(old(state)@, *model, input_id@, depth as nat).0),
        answered(r, spec_validate_model(old(state)@, *model, input_id@, depth as nat).1),
    decreases model, 3nat,
{
    let ghost s0 = state@;
    let entries = model_input(state.input, input_id, state.options)?;
    let limit = state.options.limits.max_errors;
    let done = run_fields(state, model, &entries, input_id, depth);
    let FieldsDone { recorded, consumed, mut errors, count } = done;
    let full = match &errors {
        Some(e) => e.is_full(limit),
        None => false,
    };
    let mut extras: Vec<(String, ValueId)> = Vec::new();
    assert(extras@.map_values(|e: (String, ValueId)| (e.0@, e.1)) =~= Seq::<(Seq<char>, ValueId)>::empty());
    if !full {
        match &model.extra {
            ExtraPolicy::Ignore => {},
            ExtraPolicy::Forbid => {
                forbid_extra_entries(&entries, &consumed, &mut errors, limit);
                assert(entries@.map_values(|e: (String, InputId)| e.0@) =~= s0.nodes[input_id@ as int]->Object_entries.map_values(
                    |e: (Seq<char>, nat)| e.0,
                ));
            },
            ExtraPolicy::Allow(x) => {
                extras = run_allowed(state, x, &entries, &consumed, &mut errors, depth);
            },
        }
    }
    match errors {
        Some(e) => {
            return Err(e);
        },
        None => {},
    }
    let specs = field_specs(&model.fields);
    let ordered = order_model_fields(&specs, &recorded)?;
    state.push(ValidatedValue::Model(ModelValue::new(model.name, ordered, extras, count)))
}

/// Validates an input with a schema: refuses unusable limits, an input
/// that the strings profile refuses and an input past the limits, then
/// validates the root, as `spec_validate` says.
pub fn validate(schema: &Schema, input: &InputArena, options: ValidationOptions) -> (r: Result<
    ValidatedArena,
    ValidationError,
>)
    ensures
        match spec_validate(*schema, input.spec_nodes(), input.spec_root(), options) {
            Ok((root, values)) => r matches Ok(a) && a.spec_root() == root && a.spec_values().map_values(
                |v: ValidatedValue| v@,
            ) == values,
            Err(e) => r matches Err(x) && x@ == e,
        },
{
    validate_at(schema, input, input.root(), options)
}

/// Validates the input below node `root` with a schema, as `spec_validate`
/// says for that node.
pub fn validate_at(schema: &Schema, input: &InputArena, root: InputId, options: ValidationOptions) -> (r: Result<
    ValidatedArena,
    ValidationError,
>)
    ensures
        match spec_validate(*schema, input.spec_nodes(), root@, options) {
            Ok((id, values)) => r matches Ok(a) && a.spec_root() == id && a.spec_values().map_values(
                |v: ValidatedValue| v@,
            ) == values,
            Err(e) => r matches Err(x) && x@ == e,
        },
{
    validate_options(options)?;
    if options.profile == InputProfile::Strings {
        check_strings_profile(input, root)?;
    }
    check_input_limits(input, root, 0, options.limits)?;
    let mut state = ValidationState::new(input, options);
    let id = validate_node(&mut state, schema, root, 0)?;
    Ok(state.into_arena(id))
}

// ---------------------------------------------------------------------------
// Lazy validation of generators
// ---------------------------------------------------------------------------

/// What a lazy generator validation holds: the input nodes, the children
/// of the generator's input, the item schema and length bounds, the options,
/// how many items were handed out, and whether it has finished.
pub struct IteratorView {
    pub nodes: Seq<InputNode>,
    pub children: Seq<nat>,
    pub item: Schema,
    pub constraints: crate::constraints::CollectionConstraints,
    pub options: ValidationOptions,
    pub index: nat,
    pub finished: bool,
}

/// The answer for one validation call, as a plain value.
pub open spec fn arena_answer(r: Result<ValidatedArena, ValidationError>, out: Result<(ValueId, Seq<ValueView>), Fault>) -> bool {
    match out {
        Ok((root, values)) => r matches Ok(a) && a.spec_root() == root && a.spec_values().map_values(
            |v: ValidatedValue| v@,
        ) == values,
        Err(e) => r matches Err(x) && x@ == e,
    }
}

/// The next step of a lazy generator validation: nothing once finished;
/// a `too_long` error, finishing, when the item limit is reached with items
/// left; at the end of the items, finishing, a `too_short` error when fewer
/// items than the minimum were handed out and nothing otherwise; else the
/// next item validated on its own (as `spec_validate` says), with its error
/// located at its position.
pub open spec fn spec_next_item(it: IteratorView) -> (IteratorView, Option<Result<(ValueId, Seq<ValueView>), Fault>>) {
    let finish = IteratorView { finished: true, ..it };
    let maximum = it.constraints.max_length;
    let minimum = it.constraints.min_length;
    if it.finished {
        (it, None)
    } else if maximum is Some && it.index >= maximum->Some_0 && it.index < it.children.len() {
        (finish, Some(Err(length_view("generator"@, ("too_long"@, " is too long"@, "maximum"@, maximum->Some_0)))))
    } else if it.index >= it.children.len() {
        if minimum is Some && it.index < minimum->Some_0 {
            (finish, Some(Err(length_view("generator"@, ("too_short"@, " is too short"@, "minimum"@, minimum->Some_0)))))
        } else {
            (finish, None)
        }
    } else {
        let next = IteratorView { index: it.index + 1, ..it };
        match spec_validate(it.item, it.nodes, it.children[it.index as int], it.options) {
            Ok(done) => (next, Some(Ok(done))),
            Err(e) => (next, Some(Err(at_step(e, LocationStep::Index(it.index as usize))))),
        }
    }
}

/// A generator's items validated one at a time, when the caller asks.
pub struct ValidatedIterator<'a> {
    input: &'a InputArena,
    children: Vec<InputId>,
    item: &'a Schema,
    constraints: crate::constraints::CollectionConstraints,
    options: ValidationOptions,
    index: usize,
    finished: bool,
}

impl<'a> View for ValidatedIterator<'a> {
    type V = IteratorView;

    closed spec fn view(&self) -> IteratorView {
        IteratorView {
            nodes: self.input.spec_nodes(),
            children: self.children@.map_values(|c: InputId| c@),
            item: *self.item,
            constraints: self.constraints,
            options: self.options,
            index: self.index as nat,
            finished: self.finished,
        }
    }
}

/// The error of a generator whose input has more items than the limit.
pub open spec fn generator_items_fault() -> Fault {
    plain_error("resource_limit"@, "Validation collection item limit exceeded"@, "bounded generator"@)
}

/// The error of a lazy validation asked for with another schema.
pub open spec fn generator_schema_fault() -> Fault {
    plain_error("generator_schema"@, "validated_iterator requires a generator schema"@, "generator schema"@)
}

/// The options under which a generator reads its input sequence: lax.
pub open spec fn lax_options(options: ValidationOptions) -> ValidationOptions {
    ValidationOptions { strict: false, ..options }
}

/// A detail with a code, a kind's name before a message, and one bound.
fn bound_error(code: &'static str, kind: &str, message: &str, key: &str, bound: usize) -> (r: ValidationError)
    ensures
        r@ == length_view(kind@, (code@, message@, key@, bound)),
{
    let d = ErrorDetail::new(code, crate::text::concat(kind, message)).context(key, usize_text(bound));
    let e = ValidationError::one(d);
    proof {
        assert(d@.location =~= Seq::<LocationStep>::empty());
        assert(d@.expected =~= Seq::<char>::empty());
        assert(d@.context =~= seq![(key@, decimal(bound as nat))]);
        assert(e@ =~= length_view(kind@, (code@, message@, key@, bound)));
    }
    e
}

/// Starts a lazy validation of a generator schema: the limits must be
/// usable, the schema a generator, the root a sequence (of any kind) with
/// no more items than the collection limit; its items are then validated
/// one at a time by `next_item`.
pub fn validated_iterator<'a>(schema: &'a Schema, input: &'a InputArena, options: ValidationOptions) -> (r: Result<
    ValidatedIterator<'a>,
    ValidationError,
>)
    ensures
        !usable_limits(options.limits) ==> (r matches Err(e) && e@ == limits_fault()),
        usable_limits(options.limits) && !(schema is Generator) ==> (r matches Err(e) && e@ == generator_schema_fault()),
        usable_limits(options.limits) && schema is Generator ==> match sequence_fault(
            Some(input.spec_nodes()[input.spec_root() as int]),
            "generator"@,
            SequenceKind::List,
            lax_options(options),
        ) {
            Some(e) => r matches Err(x) && x@ == e,
            None => {
                let children = input.spec_nodes()[input.spec_root() as int]->Sequence_items;
                if children.len() > options.limits.max_collection_items {
                    r matches Err(x) && x@ == generator_items_fault()
                } else {
                    r matches Ok(it) && it@ == (IteratorView {
                        nodes: input.spec_nodes(),
                        children,
                        item: *schema->Generator_item,
                        constraints: schema->Generator_constraints,
                        options,
                        index: 0,
                        finished: false,
                    })
                }
            },
        },
{
    validate_options(options)?;
    let (item, constraints) = match schema {
        Schema::Generator { item, constraints } => (item, constraints),
        _ => {
            return Err(
                type_error("generator_schema", "validated_iterator requires a generator schema", "generator schema"),
            );
        },
    };
    let lax = ValidationOptions {
        strict: false,
        strict_override: options.strict_override,
        profile: options.profile,
        limits: options.limits,
        clock: options.clock,
    };
    let children = sequence_input(input, input.root(), "generator", SequenceKind::List, lax)?;
    if children.len() > options.limits.max_collection_items {
        return Err(
            type_error("resource_limit", "Validation collection item limit exceeded", "bounded generator"),
        );
    }
    Ok(
        ValidatedIterator {
            input,
            children,
            item: &**item,
            constraints: crate::constraints::CollectionConstraints {
                min_length: constraints.min_length,
                max_length: constraints.max_length,
            },
            options,
            index: 0,
            finished: false,
        },
    )
}

impl<'a> ValidatedIterator<'a> {
    /// Validates the next item, as `spec_next_item` says.
    pub fn next_item(&mut self) -> (r: Option<Result<ValidatedArena, ValidationError>>)
        ensures
            final(self)@ == spec_next_item(old(self)@).0,
            match spec_next_item(old(self)@).1 {
                None => r is None,
                Some(out) => r matches Some(x) && arena_answer(x, out),
            },
    {
        if self.finished {
            return None;
        }
        if let Some(maximum) = self.constraints.max_length {
            if self.index >= maximum && self.index < self.children.len() {
                self.finished = true;
                return Some(Err(bound_error("too_long", "generator", " is too long", "maximum", maximum)));
            }
        }
        if self.index >= self.children.len() {
            self.finished = true;
            if let Some(minimum) = self.constraints.min_length {
                if self.index < minimum {
                    return Some(Err(bound_error("too_short", "generator", " is too short", "minimum", minimum)));
                }
            }
            return None;
        }
        let index = self.index;
        let child = self.children[index];
        self.index = index + 1;
        match validate_at(self.item, self.input, child, self.options) {
            Ok(arena) => Some(Ok(arena)),
            Err(e) => Some(Err(located(e, LocationItem::Index(index)))),
        }
    }
}

// ---------------------------------------------------------------------------
// Laws
// ---------------------------------------------------------------------------

/// Whether `after` keeps the values of `before` and may add more after them.
pub open spec fn extends(before: Seq<ValueView>, after: Seq<ValueView>) -> bool {
    before.len() <= after.len() && after.subrange(0, before.len() as int) == before
}

proof fn lemma_extends_trans(a: Seq<ValueView>, b: Seq<ValueView>, c: Seq<ValueView>)
    requires
        extends(a, b),
        extends(b, c),
    ensures
        extends(a, c),
{
    assert(c.subrange(0, a.len() as int) =~= c.subrange(0, b.len() as int).subrange(0, a.len() as int));
}

proof fn lemma_stored(values: Seq<ValueView>, v: ValueView)
    ensures
        extends(values, stored(values, v).0),
        stored(values, v).1 matches Ok(id) ==> id@ + 1 == stored(values, v).0.len(),
{
    if values.len() <= max_arena_id() {
        crate::arena::lemma_id_at(values.len());
        assert(values.push(v).subrange(0, values.len() as int) =~= values);
    } else {
        assert(values.subrange(0, values.len() as int) =~= values);
    }
}

proof fn lemma_node_appends(s: StateView, schema: Schema, id: nat, depth: nat)
    ensures
        extends(s.values, spec_validate_node(s, schema, id, depth).0),
        spec_validate_node(s, schema, id, depth).1 matches Ok(r) ==> r@ + 1 == spec_validate_node(s, schema, id, depth).0.len(),
    decreases schema, 1nat,
{
    assert(s.values.subrange(0, s.values.len() as int) =~= s.values);
    if depth > s.options.limits.max_depth || id >= s.nodes.len() {
    } else {
        let node = s.nodes[id as int];
        match schema {
            Schema::LaxOrStrict { lax, strict } => {
                lemma_node_appends(s, *strict, id, depth + 1);
                lemma_node_appends(s, *lax, id, depth + 1);
            },
            Schema::JsonOrStructural { json, structural } => {
                lemma_node_appends(s, *json, id, depth + 1);
                lemma_node_appends(s, *structural, id, depth + 1);
            },
            Schema::Nullable(inner) => {
                if node is Null {
                    lemma_stored(s.values, ValueView::Nullable(None));
                } else {
                    lemma_node_appends(s, *inner, id, depth + 1);
                    let (values, out) = spec_validate_node(s, *inner, id, depth + 1);
                    if let Ok(v) = out {
                        lemma_stored(values, ValueView::Nullable(Some(v)));
                        lemma_extends_trans(s.values, values, stored(values, ValueView::Nullable(Some(v))).0);
                    }
                }
            },
            Schema::List { item, constraints } => {
                if sequence_fault(Some(node), "list"@, SequenceKind::List, s.options) is None {
                    let children = node->Sequence_items;
                    lemma_items_appends(s, *item, children, depth, children.len());
                    let run = spec_items(s, *item, children, depth, children.len());
                    lemma_stored(run.values, ValueView::Sequence(run.ids));
                    lemma_extends_trans(s.values, run.values, stored(run.values, ValueView::Sequence(run.ids)).0);
                }
            },
            Schema::Tuple(schemas) => {
                if sequence_fault(Some(node), "tuple"@, SequenceKind::Tuple, s.options) is None {
                    let children = node->Sequence_items;
                    lemma_tuple_appends(s, schemas@, children, depth, children.len());
                    let run = spec_tuple_items(s, schemas@, children, depth, children.len());
                    lemma_stored(run.values, ValueView::Tuple(run.ids));
                    lemma_extends_trans(s.values, run.values, stored(run.values, ValueView::Tuple(run.ids)).0);
                }
            },
            Schema::EmbeddedJson(inner) => {
                if let Ok(bytes) = embedded_bytes(node) {
                    if let Ok((root, parsed)) = spec_parse_json(bytes, call_json_limits(s.options)) {
                        lemma_node_appends(
                            StateView { nodes: parsed, options: json_profile(s.options), values: s.values },
                            *inner,
                            root,
                            depth + 1,
                        );
                    }
                }
            },
            Schema::Model(m) => {
                lemma_model_appends(s, m, id, depth);
            },
            _ => {
                if let Ok(v) = leaf_outcome(schema, node, s.options) {
                    lemma_stored(s.values, v);
                }
            },
        }
    }
}

proof fn lemma_items_appends(s: StateView, item: Schema, children: Seq<nat>, depth: nat, k: nat)
    ensures
        extends(s.values, spec_items(s, item, children, depth, k).values),
    decreases item, k + 2,
{
    assert(s.values.subrange(0, s.values.len() as int) =~= s.values);
    if k == 0 || k > children.len() {
    } else {
        lemma_items_appends(s, item, children, depth, (k - 1) as nat);
        let prev = spec_items(s, item, children, depth, (k - 1) as nat);
        if !prev.stopped {
            lemma_node_appends(with_values(s, prev.values), item, children[k - 1], depth + 1);
            let (values, out) = spec_validate_node(with_values(s, prev.values), item, children[k - 1], depth + 1);
            lemma_extends_trans(s.values, prev.values, values);
        }
    }
}

proof fn lemma_tuple_appends(s: StateView, schemas: Seq<Schema>, children: Seq<nat>, depth: nat, k: nat)
    ensures
        extends(s.values, spec_tuple_items(s, schemas, children, depth, k).values),
    decreases schemas, k + 2,
{
    assert(s.values.subrange(0, s.values.len() as int) =~= s.values);
    if k == 0 || k > children.len() || k > schemas.len() {
    } else {
        lemma_tuple_appends(s, schemas, children, depth, (k - 1) as nat);
        let prev = spec_tuple_items(s, schemas, children, depth, (k - 1) as nat);
        if !prev.stopped {
            lemma_node_appends(with_values(s, prev.values), schemas[k - 1], children[k - 1], depth + 1);
            let (values, out) = spec_validate_node(with_values(s, prev.values), schemas[k - 1], children[k - 1], depth + 1);
            lemma_extends_trans(s.values, prev.values, values);
        }
    }
}

proof fn lemma_fields_appends(
    s: StateView,
    fields: Seq<ModelField>,
    populate_by_name: bool,
    location_by_alias: bool,
    extras_checked: bool,
    root: nat,
    entries: Seq<(Seq<char>, nat)>,
    depth: nat,
    k: nat,
)
    ensures
        extends(
            s.values,
            spec_field_run(s, fields, populate_by_name, location_by_alias, extras_checked, root, entries, depth, k).values,
        ),
    decreases fields, k + 2,
{
    assert(s.values.subrange(0, s.values.len() as int) =~= s.values);
    if k == 0 || k > fields.len() {
    } else {
        lemma_fields_appends(s, fields, populate_by_name, location_by_alias, extras_checked, root, entries, depth, (k - 1) as nat);
        let prev = spec_field_run(s, fields, populate_by_name, location_by_alias, extras_checked, root, entries, depth, (k - 1) as nat);
        let f = fields[k - 1];
        let step = field_outcome(s, fields, populate_by_name, location_by_alias, root, entries, depth, prev, (k - 1) as nat);
        if !prev.stopped {
            assert(spec_field_run(s, fields, populate_by_name, location_by_alias, extras_checked, root, entries, depth, k).values
                == step.values);
        }
        if !prev.stopped && f.input {
            if let Some((value, index, location)) = field_selection(
                s.nodes,
                root,
                entries,
                f.validation_aliases@.map_values(|a: AliasPath| a.segments@),
                populate_by_name,
                location_by_alias,
                f.name@,
            ) {
                lemma_node_appends(with_values(s, prev.values), f.schema, value, depth + 1);
                let (values, out) = spec_validate_node(with_values(s, prev.values), f.schema, value, depth + 1);
                lemma_extends_trans(s.values, prev.values, values);
            }
        }
    }
}

proof fn lemma_allow_appends(
    s: StateView,
    x: Schema,
    entries: Seq<(Seq<char>, nat)>,
    consumed: Seq<usize>,
    errors: Option<Fault>,
    depth: nat,
    k: nat,
)
    ensures
        extends(s.values, spec_allow_run(s, x, entries, consumed, errors, depth, k).values),
    decreases x, k + 2,
{
    assert(s.values.subrange(0, s.values.len() as int) =~= s.values);
    if k == 0 || k > entries.len() {
    } else {
        lemma_allow_appends(s, x, entries, consumed, errors, depth, (k - 1) as nat);
        let prev = spec_allow_run(s, x, entries, consumed, errors, depth, (k - 1) as nat);
        let i = (k - 1) as nat;
        if !(prev.stopped || consumed.contains(i as usize)) {
            let (name, node) = entries[i as int];
            lemma_node_appends(with_values(s, prev.values), x, node, depth + 1);
            let (values, out) = spec_validate_node(with_values(s, prev.values), x, node, depth + 1);
            lemma_extends_trans(s.values, prev.values, values);
        }
    }
}

proof fn lemma_model_appends(s: StateView, m: ModelSchema, id: nat, depth: nat)
    ensures
        extends(s.values, spec_validate_model(s, m, id, depth).0),
        spec_validate_model(s, m, id, depth).1 matches Ok(r) ==> r@ + 1 == spec_validate_model(s, m, id, depth).0.len(),
    decreases m, 0nat,
{
    assert(s.values.subrange(0, s.values.len() as int) =~= s.values);
    if id < s.nodes.len() {
        let node = s.nodes[id as int];
        if model_fault(Some(node), s.options) is None {
            let entries = node->Object_entries;
            let limit = s.options.limits.max_errors;
            let fields = m.fields@;
            lemma_fields_appends(s, fields, m.populate_by_name, m.location_by_alias, !(m.extra is Ignore), id, entries, depth, fields.len());
            let run = spec_field_run(s, fields, m.populate_by_name, m.location_by_alias, !(m.extra is Ignore), id, entries, depth, fields.len());
            let full = run.errors matches Some(e) && e.0.len() >= limit;
            let extra: ExtraRun = if full {
                ExtraRun { values: run.values, extras: Seq::empty(), errors: run.errors, stopped: true }
            } else {
                match m.extra {
                    ExtraPolicy::Ignore => ExtraRun { values: run.values, extras: Seq::empty(), errors: run.errors, stopped: false },
                    ExtraPolicy::Forbid => ExtraRun {
                        values: run.values,
                        extras: Seq::empty(),
                        errors: forbid_run(entries.map_values(|e: (Seq<char>, nat)| e.0), run.consumed, run.errors, limit, entries.len()).0,
                        stopped: false,
                    },
                    ExtraPolicy::Allow(x) => spec_allow_run(with_values(s, run.values), *x, entries, run.consumed, run.errors, depth, entries.len()),
                }
            };
            assert(run.values.subrange(0, run.values.len() as int) =~= run.values);
            if !full {
                if let ExtraPolicy::Allow(x) = m.extra {
                    lemma_allow_appends(with_values(s, run.values), *x, entries, run.consumed, run.errors, depth, entries.len());
                }
            }
            lemma_extends_trans(s.values, run.values, extra.values);
            if extra.errors is None {
                if let Ok(done) = ordered_fields(fields.map_values(|f: ModelField| (f.name@, f.has_default)), run.recorded) {
                    let v = ValueView::Model(m.name@, done, extra.extras, run.count as usize);
                    lemma_stored(extra.values, v);
                    lemma_extends_trans(s.values, extra.values, stored(extra.values, v).0);
                }
            }
        }
    }
}

/// Validation only appends: the values validated before a step stay where
/// they are, and a step that succeeds answers the index of the last value
/// it stored.
pub proof fn law_validation_only_appends(s: StateView, schema: Schema, id: nat, depth: nat)
    ensures
        extends(s.values, spec_validate_node(s, schema, id, depth).0),
        spec_validate_node(s, schema, id, depth).1 matches Ok(r) ==> r@ + 1 == spec_validate_node(s, schema, id, depth).0.len(),
{
    lemma_node_appends(s, schema, id, depth);
}

/// A lax-or-strict schema validates exactly as the child that the effective
/// strictness selects, one level deeper: an explicit strictness setting
/// overrides the default.
pub proof fn law_lax_or_strict_selects_one_child(s: StateView, lax: Schema, strict: Schema, id: nat, depth: nat)
    requires
        depth <= s.options.limits.max_depth,
        id < s.nodes.len(),
    ensures
        spec_validate_node(s, Schema::LaxOrStrict { lax: Box::new(lax), strict: Box::new(strict) }, id, depth)
            == spec_validate_node(s, if spec_effective_strict(s.options) { strict } else { lax }, id, depth + 1),
        s.options.strict_override == Some(true) ==> spec_validate_node(
            s,
            Schema::LaxOrStrict { lax: Box::new(lax), strict: Box::new(strict) },
            id,
            depth,
        ) == spec_validate_node(s, strict, id, depth + 1),
        s.options.strict_override == Some(false) ==> spec_validate_node(
            s,
            Schema::LaxOrStrict { lax: Box::new(lax), strict: Box::new(strict) },
            id,
            depth,
        ) == spec_validate_node(s, lax, id, depth + 1),
{
}

/// A JSON-or-structural schema validates exactly as its JSON child under the
/// JSON profile and as its structural child under the native and strings
/// profiles, one level deeper.
pub proof fn law_json_or_structural_follows_profile(s: StateView, json: Schema, structural: Schema, id: nat, depth: nat)
    requires
        depth <= s.options.limits.max_depth,
        id < s.nodes.len(),
    ensures
        spec_validate_node(s, Schema::JsonOrStructural { json: Box::new(json), structural: Box::new(structural) }, id, depth)
            == spec_validate_node(
            s,
            if s.options.profile == InputProfile::Json { json } else { structural },
            id,
            depth + 1,
        ),
{
}

// ---------------------------------------------------------------------------
// Validated arenas refer backwards
// ---------------------------------------------------------------------------

/// Whether every index of a list lies below `bound`.
pub open spec fn ids_below(ids: Seq<ValueId>, bound: nat) -> bool {
    forall|i: int| 0 <= i < ids.len() ==> (#[trigger] ids[i])@ < bound
}

/// Whether every value index of named entries lies below `bound`.
pub open spec fn entries_below(entries: Seq<(Seq<char>, ValueId)>, bound: nat) -> bool {
    forall|i: int| 0 <= i < entries.len() ==> (#[trigger] entries[i]).1@ < bound
}

/// Whether every value that a value refers to lies below `bound`.
pub open spec fn refs_below_view(v: ValueView, bound: nat) -> bool {
    match v {
        ValueView::Enum(_, _, _, d) => d@ < bound,
        ValueView::Union(_, x) => x@ < bound,
        ValueView::Nullable(Some(x)) => x@ < bound,
        ValueView::Model(_, fields, extras, _) => entries_below(fields, bound) && entries_below(extras, bound),
        ValueView::Sequence(ids) => ids_below(ids, bound),
        ValueView::Tuple(ids) => ids_below(ids, bound),
        ValueView::MutableSet(ids) => ids_below(ids, bound),
        ValueView::FrozenSet(ids) => ids_below(ids, bound),
        ValueView::Mapping(pairs) => forall|i: int|
            0 <= i < pairs.len() ==> (#[trigger] pairs[i]).0@ < bound && pairs[i].1@ < bound,
        _ => true,
    }
}

/// Whether every value of an arena refers only to values stored before it.
pub open spec fn built_backwards(values: Seq<ValueView>) -> bool {
    forall|i: int| 0 <= i < values.len() ==> refs_below_view(#[trigger] values[i], i as nat)
}

proof fn lemma_stored_backwards(values: Seq<ValueView>, v: ValueView)
    requires
        built_backwards(values),
        refs_below_view(v, values.len()),
    ensures
        built_backwards(stored(values, v).0),
{
    if values.len() <= max_arena_id() {
        let after = values.push(v);
        assert forall|i: int| 0 <= i < after.len() implies refs_below_view(#[trigger] after[i], i as nat) by {
            if i < values.len() {
                assert(after[i] == values[i]);
            }
        }
    }
}

proof fn lemma_recorded_below(values: Seq<(Seq<char>, ValueId)>, name: Seq<char>, bound: nat)
    requires
        entries_below(values, bound),
    ensures
        recorded(values, name) matches Some(v) ==> v@ < bound,
    decreases values.len(),
{
    if values.len() > 0 {
        assert(values.last() == values[values.len() - 1]);
        let rest = values.drop_last();
        assert forall|i: int| 0 <= i < rest.len() implies (#[trigger] rest[i]).1@ < bound by {
            assert(rest[i] == values[i]);
        }
        lemma_recorded_below(rest, name, bound);
    }
}

proof fn lemma_ordered_below(fields: Seq<(Seq<char>, bool)>, values: Seq<(Seq<char>, ValueId)>, bound: nat)
    requires
        entries_below(values, bound),
    ensures
        ordered_fields(fields, values) matches Ok(done) ==> entries_below(done, bound),
    decreases fields.len(),
{
    if fields.len() > 0 {
        lemma_ordered_below(fields.drop_last(), values, bound);
        lemma_recorded_below(values, fields.last().0, bound);
        if let Ok(done) = ordered_fields(fields.drop_last(), values) {
            if let Some(v) = recorded(values, fields.last().0) {
                let after = done.push((fields.last().0, v));
                assert forall|i: int| 0 <= i < after.len() implies (#[trigger] after[i]).1@ < bound by {
                    if i < done.len() {
                        assert(after[i] == done[i]);
                    }
                }
            }
        }
    }
}

proof fn lemma_ids_grow(ids: Seq<ValueId>, a: nat, b: nat)
    requires
        ids_below(ids, a),
        a <= b,
    ensures
        ids_below(ids, b),
{
}

proof fn lemma_entries_grow(entries: Seq<(Seq<char>, ValueId)>, a: nat, b: nat)
    requires
        entries_below(entries, a),
        a <= b,
    ensures
        entries_below(entries, b),
{
}

proof fn lemma_node_backwards(s: StateView, schema: Schema, id: nat, depth: nat)
    requires
        built_backwards(s.values),
    ensures
        built_backwards(spec_validate_node(s, schema, id, depth).0),
    decreases schema, 1nat,
{
    lemma_node_appends(s, schema, id, depth);
    if depth > s.options.limits.max_depth || id >= s.nodes.len() {
    } else {
        let node = s.nodes[id as int];
        match schema {
            Schema::LaxOrStrict { lax, strict } => {
                lemma_node_backwards(s, *strict, id, depth + 1);
                lemma_node_backwards(s, *lax, id, depth + 1);
            },
            Schema::JsonOrStructural { json, structural } => {
                lemma_node_backwards(s, *json, id, depth + 1);
                lemma_node_backwards(s, *structural, id, depth + 1);
            },
            Schema::Nullable(inner) => {
                if !(node is Null) {
                    lemma_node_backwards(s, *inner, id, depth + 1);
                    lemma_node_appends(s, *inner, id, depth + 1);
                    let (values, out) = spec_validate_node(s, *inner, id, depth + 1);
                    if let Ok(v) = out {
                        lemma_stored_backwards(values, ValueView::Nullable(Some(v)));
                    }
                }
            },
            Schema::List { item, constraints } => {
                if sequence_fault(Some(node), "list"@, SequenceKind::List, s.options) is None {
                    let children = node->Sequence_items;
                    lemma_items_backwards(s, *item, children, depth, children.len());
                    let run = spec_items(s, *item, children, depth, children.len());
                    lemma_stored_backwards(run.values, ValueView::Sequence(run.ids));
                }
            },
            Schema::Tuple(schemas) => {
                if sequence_fault(Some(node), "tuple"@, SequenceKind::Tuple, s.options) is None {
                    let children = node->Sequence_items;
                    lemma_tuple_backwards(s, schemas@, children, depth, children.len());
                    let run = spec_tuple_items(s, schemas@, children, depth, children.len());
                    lemma_stored_backwards(run.values, ValueView::Tuple(run.ids));
                }
            },
            Schema::EmbeddedJson(inner) => {
                if let Ok(bytes) = embedded_bytes(node) {
                    if let Ok((root, parsed)) = spec_parse_json(bytes, call_json_limits(s.options)) {
                        lemma_node_backwards(
                            StateView { nodes: parsed, options: json_profile(s.options), values: s.values },
                            *inner,
                            root,
                            depth + 1,
                        );
                    }
                }
            },
            Schema::Model(m) => {
                lemma_model_backwards(s, m, id, depth);
            },
            _ => {
                if let Ok(v) = leaf_outcome(schema, node, s.options) {
                    lemma_stored_backwards(s.values, v);
                }
            },
        }
    }
}

proof fn lemma_items_backwards(s: StateView, item: Schema, children: Seq<nat>, depth: nat, k: nat)
    requires
        built_backwards(s.values),
    ensures
        built_backwards(spec_items(s, item, children, depth, k).values),
        ids_below(spec_items(s, item, children, depth, k).ids, spec_items(s, item, children, depth, k).values.len()),
    decreases item, k + 2,
{
    if k == 0 || k > children.len() {
    } else {
        lemma_items_backwards(s, item, children, depth, (k - 1) as nat);
        let prev = spec_items(s, item, children, depth, (k - 1) as nat);
        if !prev.stopped {
            let t = with_values(s, prev.values);
            lemma_node_backwards(t, item, children[k - 1], depth + 1);
            lemma_node_appends(t, item, children[k - 1], depth + 1);
            let (values, out) = spec_validate_node(t, item, children[k - 1], depth + 1);
            lemma_ids_grow(prev.ids, prev.values.len(), values.len());
            if let Ok(v) = out {
                let ids = prev.ids.push(v);
                assert forall|i: int| 0 <= i < ids.len() implies (#[trigger] ids[i])@ < values.len() by {
                    if i < prev.ids.len() {
                        assert(ids[i] == prev.ids[i]);
                    }
                }
            }
        }
    }
}

proof fn lemma_tuple_backwards(s: StateView, schemas: Seq<Schema>, children: Seq<nat>, depth: nat, k: nat)
    requires
        built_backwards(s.values),
    ensures
        built_backwards(spec_tuple_items(s, schemas, children, depth, k).values),
        ids_below(
            spec_tuple_items(s, schemas, children, depth, k).ids,
            spec_tuple_items(s, schemas, children, depth, k).values.len(),
        ),
    decreases schemas, k + 2,
{
    if k == 0 || k > children.len() || k > schemas.len() {
    } else {
        lemma_tuple_backwards(s, schemas, children, depth, (k - 1) as nat);
        let prev = spec_tuple_items(s, schemas, children, depth, (k - 1) as nat);
        if !prev.stopped {
            let t = with_values(s, prev.values);
            lemma_node_backwards(t, schemas[k - 1], children[k - 1], depth + 1);
            lemma_node_appends(t, schemas[k - 1], children[k - 1], depth + 1);
            let (values, out) = spec_validate_node(t, schemas[k - 1], children[k - 1], depth + 1);
            lemma_ids_grow(prev.ids, prev.values.len(), values.len());
            if let Ok(v) = out {
                let ids = prev.ids.push(v);
                assert forall|i: int| 0 <= i < ids.len() implies (#[trigger] ids[i])@ < values.len() by {
                    if i < prev.ids.len() {
                        assert(ids[i] == prev.ids[i]);
                    }
                }
            }
        }
    }
}

proof fn lemma_fields_backwards(
    s: StateView,
    fields: Seq<ModelField>,
    populate_by_name: bool,
    location_by_alias: bool,
    extras_checked: bool,
    root: nat,
    entries: Seq<(Seq<char>, nat)>,
    depth: nat,
    k: nat,
)
    requires
        built_backwards(s.values),
    ensures
        built_backwards(
            spec_field_run(s, fields, populate_by_name, location_by_alias, extras_checked, root, entries, depth, k).values,
        ),
        entries_below(
            spec_field_run(s, fields, populate_by_name, location_by_alias, extras_checked, root, entries, depth, k).recorded,
            spec_field_run(s, fields, populate_by_name, location_by_alias, extras_checked, root, entries, depth, k).values.len(),
        ),
    decreases fields, k + 2,
{
    if k == 0 || k > fields.len() {
    } else {
        lemma_fields_backwards(s, fields, populate_by_name, location_by_alias, extras_checked, root, entries, depth, (k - 1) as nat);
        let prev = spec_field_run(s, fields, populate_by_name, location_by_alias, extras_checked, root, entries, depth, (k - 1) as nat);
        let f = fields[k - 1];
        let step = field_outcome(s, fields, populate_by_name, location_by_alias, root, entries, depth, prev, (k - 1) as nat);
        if !prev.stopped {
            assert(spec_field_run(s, fields, populate_by_name, location_by_alias, extras_checked, root, entries, depth, k).values
                == step.values);
            assert(spec_field_run(s, fields, populate_by_name, location_by_alias, extras_checked, root, entries, depth, k).recorded
                == step.recorded);
        }
        if !prev.stopped && f.input {
            if let Some((value, index, location)) = field_selection(
                s.nodes,
                root,
                entries,
                f.validation_aliases@.map_values(|a: AliasPath| a.segments@),
                populate_by_name,
                location_by_alias,
                f.name@,
            ) {
                let t = with_values(s, prev.values);
                lemma_node_backwards(t, f.schema, value, depth + 1);
                lemma_node_appends(t, f.schema, value, depth + 1);
                let (values, out) = spec_validate_node(t, f.schema, value, depth + 1);
                lemma_entries_grow(prev.recorded, prev.values.len(), values.len());
                if let Ok(v) = out {
                    let recorded = prev.recorded.push((f.name@, v));
                    assert forall|i: int| 0 <= i < recorded.len() implies (#[trigger] recorded[i]).1@ < values.len() by {
                        if i < prev.recorded.len() {
                            assert(recorded[i] == prev.recorded[i]);
                        }
                    }
                }
            }
        }
    }
}

proof fn lemma_allow_backwards(
    s: StateView,
    x: Schema,
    entries: Seq<(Seq<char>, nat)>,
    consumed: Seq<usize>,
    errors: Option<Fault>,
    depth: nat,
    k: nat,
)
    requires
        built_backwards(s.values),
    ensures
        built_backwards(spec_allow_run(s, x, entries, consumed, errors, depth, k).values),
        entries_below(
            spec_allow_run(s, x, entries, consumed, errors, depth, k).extras,
            spec_allow_run(s, x, entries, consumed, errors, depth, k).values.len(),
        ),
    decreases x, k + 2,
{
    if k == 0 || k > entries.len() {
    } else {
        lemma_allow_backwards(s, x, entries, consumed, errors, depth, (k - 1) as nat);
        let prev = spec_allow_run(s, x, entries, consumed, errors, depth, (k - 1) as nat);
        let i = (k - 1) as nat;
        if !(prev.stopped || consumed.contains(i as usize)) {
            let (name, node) = entries[i as int];
            let t = with_values(s, prev.values);
            lemma_node_backwards(t, x, node, depth + 1);
            lemma_node_appends(t, x, node, depth + 1);
            let (values, out) = spec_validate_node(t, x, node, depth + 1);
            lemma_entries_grow(prev.extras, prev.values.len(), values.len());
            if let Ok(v) = out {
                let extras = prev.extras.push((name, v));
                assert forall|j: int| 0 <= j < extras.len() implies (#[trigger] extras[j]).1@ < values.len() by {
                    if j < prev.extras.len() {
                        assert(extras[j] == prev.extras[j]);
                    }
                }
            }
        }
    }
}

proof fn lemma_model_backwards(s: StateView, m: ModelSchema, id: nat, depth: nat)
    requires
        built_backwards(s.values),
    ensures
        built_backwards(spec_validate_model(s, m, id, depth).0),
    decreases m, 0nat,
{
    if id < s.nodes.len() {
        let node = s.nodes[id as int];
        if model_fault(Some(node), s.options) is None {
            let entries = node->Object_entries;
            let limit = s.options.limits.max_errors;
            let fields = m.fields@;
            let checked = !(m.extra is Ignore);
            lemma_fields_backwards(s, fields, m.populate_by_name, m.location_by_alias, checked, id, entries, depth, fields.len());
            lemma_fields_appends(s, fields, m.populate_by_name, m.location_by_alias, checked, id, entries, depth, fields.len());
            let run = spec_field_run(s, fields, m.populate_by_name, m.location_by_alias, checked, id, entries, depth, fields.len());
            let full = run.errors matches Some(e) && e.0.len() >= limit;
            let extra: ExtraRun = if full {
                ExtraRun { values: run.values, extras: Seq::empty(), errors: run.errors, stopped: true }
            } else {
                match m.extra {
                    ExtraPolicy::Ignore => ExtraRun { values: run.values, extras: Seq::empty(), errors: run.errors, stopped: false },
                    ExtraPolicy::Forbid => ExtraRun {
                        values: run.values,
                        extras: Seq::empty(),
                        errors: forbid_run(entries.map_values(|e: (Seq<char>, nat)| e.0), run.consumed, run.errors, limit, entries.len()).0,
                        stopped: false,
                    },
                    ExtraPolicy::Allow(x) => spec_allow_run(with_values(s, run.values), *x, entries, run.consumed, run.errors, depth, entries.len()),
                }
            };
            if !full {
                if let ExtraPolicy::Allow(x) = m.extra {
                    lemma_allow_backwards(with_values(s, run.values), *x, entries, run.consumed, run.errors, depth, entries.len());
                    lemma_allow_appends(with_values(s, run.values), *x, entries, run.consumed, run.errors, depth, entries.len());
                }
            }
            assert(run.values.len() <= extra.values.len());
            lemma_entries_grow(run.recorded, run.values.len(), extra.values.len());
            if extra.errors is None {
                lemma_ordered_below(fields.map_values(|f: ModelField| (f.name@, f.has_default)), run.recorded, extra.values.len());
                if let Ok(done) = ordered_fields(fields.map_values(|f: ModelField| (f.name@, f.has_default)), run.recorded) {
                    let v = ValueView::Model(m.name@, done, extra.extras, run.count as usize);
                    lemma_stored_backwards(extra.values, v);
                }
            }
        }
    }
}

/// Validation keeps arenas built backwards: when every value validated so
/// far refers only to values stored before it, so does every value after
/// a step.
pub proof fn law_validation_refers_backwards(s: StateView, schema: Schema, id: nat, depth: nat)
    requires
        built_backwards(s.values),
    ensures
        built_backwards(spec_validate_node(s, schema, id, depth).0),
{
    lemma_node_backwards(s, schema, id, depth);
}

/// The arena of a successful validation call refers backwards, and its
/// root is its last value.
pub proof fn law_validate_builds_backwards(schema: Schema, nodes: Seq<InputNode>, root: nat, options: ValidationOptions)
    ensures
        spec_validate(schema, nodes, root, options) matches Ok((id, values)) ==> built_backwards(values) && id@ + 1
            == values.len(),
{
    let s = StateView { nodes, options, values: Seq::empty() };
    lemma_node_backwards(s, schema, root, 0);
    lemma_node_appends(s, schema, root, 0);
}

} // verus!
