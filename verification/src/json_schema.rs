use vstd::prelude::*;

use core::str::FromStr;

use crate::constraints::{integer_bound_wf, integer_constraints_wf, AliasPath, AliasSegment, IntegerConstraints, IntegerTarget};
use crate::error::{error_text, ValidationError};
use crate::input::InputNode;
use crate::integers::{compare_integers, integer_outcome, integer_value, lemma_signed_decimal, target_bounds};
use crate::options::InputProfile;
use crate::order::Order;
use crate::scalars::canonical_integer;
use crate::text::{decimal, i64_text, owned, push_char, signed_decimal, u64_text};

verus! {

/// Whether a JSON Schema describes the input of validation or the output of
/// serialization.
#[derive(Clone, Copy, Debug, PartialEq, Eq, Structural)]
pub enum JsonSchemaMode {
    Validation,
    Serialization,
}

#[derive(Clone, Copy, Debug, PartialEq, Eq, Structural)]
pub struct JsonSchemaOptions {
    pub mode: JsonSchemaMode,
    pub by_alias: bool,
}

impl JsonSchemaOptions {
    pub fn new(mode: JsonSchemaMode, by_alias: bool) -> (r: JsonSchemaOptions)
        ensures
            r == (JsonSchemaOptions { mode, by_alias }),
    {
        JsonSchemaOptions { mode, by_alias }
    }
}

#[derive(Clone, Copy, Debug, PartialEq, Eq, Structural)]
pub enum JsonSchemaErrorKind {
    DepthLimit,
    UnsupportedSchema,
    InvalidNumber,
    IntegerPolicy,
}

/// A JSON Schema that could not be generated: why, and a description.
#[derive(Clone, Debug, PartialEq, Eq)]
pub struct JsonSchemaError {
    kind: JsonSchemaErrorKind,
    message: String,
}

impl View for JsonSchemaError {
    type V = (JsonSchemaErrorKind, Seq<char>);

    closed spec fn view(&self) -> (JsonSchemaErrorKind, Seq<char>) {
        (self.kind, self.message@)
    }
}

impl JsonSchemaError {
    pub fn kind(&self) -> (r: JsonSchemaErrorKind)
        ensures
            r == self@.0,
    {
        self.kind
    }

    pub fn message(&self) -> (r: &str)
        ensures
            r@ == self@.1,
    {
        self.message.as_str()
    }

    /// The stable diagnostic code of an integer-policy failure.
    pub fn diagnostic_code(&self) -> (r: Option<&'static str>)
        ensures
            match self@.0 {
                JsonSchemaErrorKind::IntegerPolicy => r matches Some(code) && code@ == "SIFR-INT-0009"@,
                _ => r is None,
            },
    {
        match self.kind {
            JsonSchemaErrorKind::IntegerPolicy => Some("SIFR-INT-0009"),
            JsonSchemaErrorKind::DepthLimit | JsonSchemaErrorKind::UnsupportedSchema
            | JsonSchemaErrorKind::InvalidNumber => None,
        }
    }

    pub(crate) fn new(kind: JsonSchemaErrorKind, message: String) -> (r: JsonSchemaError)
        ensures
            r@ == (kind, message@),
    {
        JsonSchemaError { kind, message }
    }
}

/// An `InvalidNumber` error.
pub(crate) fn invalid_number(message: &'static str) -> (r: JsonSchemaError)
    ensures
        r@ == (JsonSchemaErrorKind::InvalidNumber, message@),
{
    JsonSchemaError::new(JsonSchemaErrorKind::InvalidNumber, owned(message))
}

/// An `UnsupportedSchema` error.
pub(crate) fn unsupported(message: &'static str) -> (r: JsonSchemaError)
    ensures
        r@ == (JsonSchemaErrorKind::UnsupportedSchema, message@),
{
    JsonSchemaError::new(JsonSchemaErrorKind::UnsupportedSchema, owned(message))
}

/// A schema error found while reading a schema, as an `UnsupportedSchema`
/// error with the validation error's text.
pub fn schema_error(error: ValidationError) -> (r: JsonSchemaError)
    ensures
        r@ == (JsonSchemaErrorKind::UnsupportedSchema, error_text(error@)),
{
    JsonSchemaError::new(JsonSchemaErrorKind::UnsupportedSchema, error.text())
}

// ---------------------------------------------------------------------------
// JSON Pointer tokens
// ---------------------------------------------------------------------------

/// A character as a JSON Pointer token writes it.
pub open spec fn pointer_char(c: char) -> Seq<char> {
    if c == '~' {
        seq!['~', '0']
    } else if c == '/' {
        seq!['~', '1']
    } else {
        seq![c]
    }
}

/// A text as a JSON Pointer reference token: `~` becomes `~0` and `/`
/// becomes `~1` (RFC 6901).
pub open spec fn pointer_token(s: Seq<char>) -> Seq<char>
    decreases s.len(),
{
    if s.len() == 0 {
        Seq::empty()
    } else {
        pointer_token(s.drop_last()) + pointer_char(s.last())
    }
}

/// Escapes a text for use as a JSON Pointer reference token.
pub fn escape_json_pointer(value: &str) -> (r: String)
    ensures
        r@ == pointer_token(value@),
{
    let mut out = String::new();
    let ghost text = value@;
    let n = value.unicode_len();
    let mut i: usize = 0;
    while i < n
        invariant
            text == value@,
            n == text.len(),
            i <= n,
            out@ == pointer_token(text.take(i as int)),
        decreases n - i,
    {
        let c = value.get_char(i);
        assert(text.take(i + 1).drop_last() =~= text.take(i as int));
        assert(text.take(i + 1).last() == c);
        if c == '~' {
            push_char(&mut out, '~');
            push_char(&mut out, '0');
        } else if c == '/' {
            push_char(&mut out, '~');
            push_char(&mut out, '1');
        } else {
            push_char(&mut out, c);
        }
        assert(out@ =~= pointer_token(text.take(i as int)) + pointer_char(c));
        i = i + 1;
    }
    assert(text.take(n as int) =~= text);
    out
}

// ---------------------------------------------------------------------------
// Property names
// ---------------------------------------------------------------------------

/// The property name of a field in a JSON Schema, or the message of the
/// `UnsupportedSchema` error. Serialization uses the serialization alias
/// when asked to; an empty chosen name is refused only when
/// `refuse_empty` is set. Validation uses the field's name, or its one
/// single-field alias when names cannot also populate the field.
pub open spec fn spec_property_name(
    options: JsonSchemaOptions,
    name: Seq<char>,
    serialization_alias: Option<Seq<char>>,
    aliases: Seq<AliasPath>,
    populate_by_name: bool,
    refuse_empty: bool,
) -> Result<Seq<char>, Seq<char>> {
    if options.mode == JsonSchemaMode::Serialization {
        if options.by_alias {
            let chosen = match serialization_alias {
                Some(alias) => alias,
                None => name,
            };
            if refuse_empty && chosen.len() == 0 {
                Err("serialization alias must not be empty"@)
            } else {
                Ok(chosen)
            }
        } else {
            Ok(name)
        }
    } else if aliases.len() == 0 {
        Ok(name)
    } else if aliases.len() == 1 && !populate_by_name && aliases[0].segments@.len() == 1
        && aliases[0].segments@[0] is Field {
        let alias = aliases[0].segments@[0]->Field_0@;
        if alias.len() == 0 {
            Err("validation alias must not be empty"@)
        } else {
            Ok(alias)
        }
    } else {
        Err("validation aliases need one field alias with populate_by_name disabled"@)
    }
}

/// The property name of an owned model's field: its serialization alias
/// (from the field's metadata) or name when serializing, else its name or
/// its one validation alias. An empty name or alias is refused.
pub fn model_field_name<'a>(
    populate_by_name: bool,
    name: &'a str,
    serialization_alias: Option<&'a str>,
    validation_aliases: &'a [AliasPath],
    options: JsonSchemaOptions,
) -> (r: Result<&'a str, JsonSchemaError>)
    ensures
        match spec_property_name(
            options,
            name@,
            match serialization_alias {
                Some(a) => Some(a@),
                None => None,
            },
            validation_aliases@,
            populate_by_name,
            true,
        ) {
            Ok(chosen) => r matches Ok(x) && x@ == chosen,
            Err(message) => r matches Err(e) && e@ == (JsonSchemaErrorKind::UnsupportedSchema, message),
        },
{
    if options.mode == JsonSchemaMode::Serialization {
        if options.by_alias {
            let chosen = match serialization_alias {
                Some(alias) => alias,
                None => name,
            };
            if chosen.is_empty() {
                return Err(unsupported("serialization alias must not be empty"));
            }
            return Ok(chosen);
        }
        return Ok(name);
    }
    if validation_aliases.len() == 0 {
        return Ok(name);
    }
    if validation_aliases.len() == 1 && !populate_by_name && validation_aliases[0].segments.len() == 1 {
        if let AliasSegment::Field(alias) = validation_aliases[0].segments[0] {
            if alias.is_empty() {
                return Err(unsupported("validation alias must not be empty"));
            }
            return Ok(alias);
        }
    }
    Err(unsupported("validation aliases need one field alias with populate_by_name disabled"))
}

/// The property name of a static model's field, as `model_field_name`
/// chooses it, except that an empty serialization name is kept.
pub fn field_name(
    populate_by_name: bool,
    name: &str,
    serialization_alias: Option<String>,
    validation_aliases: &[AliasPath],
    options: JsonSchemaOptions,
) -> (r: Result<String, JsonSchemaError>)
    ensures
        match spec_property_name(
            options,
            name@,
            match serialization_alias {
                Some(a) => Some(a@),
                None => None,
            },
            validation_aliases@,
            populate_by_name,
            false,
        ) {
            Ok(chosen) => r matches Ok(x) && x@ == chosen,
            Err(message) => r matches Err(e) && e@ == (JsonSchemaErrorKind::UnsupportedSchema, message),
        },
{
    if options.mode == JsonSchemaMode::Serialization {
        if options.by_alias {
            return Ok(
                match serialization_alias {
                    Some(alias) => alias,
                    None => owned(name),
                },
            );
        }
        return Ok(owned(name));
    }
    if validation_aliases.len() == 0 {
        return Ok(owned(name));
    }
    if validation_aliases.len() == 1 && !populate_by_name && validation_aliases[0].segments.len() == 1 {
        if let AliasSegment::Field(alias) = validation_aliases[0].segments[0] {
            if alias.is_empty() {
                return Err(unsupported("validation alias must not be empty"));
            }
            return Ok(owned(alias));
        }
    }
    Err(unsupported("validation aliases need one field alias with populate_by_name disabled"))
}

// ---------------------------------------------------------------------------
// Integer bounds
// ---------------------------------------------------------------------------

/// The integer an optional canonical text writes.
pub open spec fn bound_value(bound: Option<String>) -> Option<int> {
    match bound {
        Some(b) => Some(integer_value(b@)),
        None => None,
    }
}

/// The greater of two optional integers; the present one when only one is.
pub open spec fn greater_bound(a: Option<int>, b: Option<int>) -> Option<int> {
    match (a, b) {
        (Some(x), Some(y)) => Some(if x >= y { x } else { y }),
        (Some(x), None) => Some(x),
        (None, y) => y,
    }
}

/// The lesser of two optional integers; the present one when only one is.
pub open spec fn lesser_bound(a: Option<int>, b: Option<int>) -> Option<int> {
    match (a, b) {
        (Some(x), Some(y)) => Some(if x <= y { x } else { y }),
        (Some(x), None) => Some(x),
        (None, y) => y,
    }
}

/// The least and the greatest integer that a target and its constraints
/// admit, as JSON Schema states them: the target's range narrowed by the
/// inclusive bounds and by the exclusive bounds moved one step inwards.
pub open spec fn spec_integer_bounds(target: IntegerTarget, c: IntegerConstraints) -> (Option<int>, Option<int>) {
    let (tmin, tmax) = match target_bounds(target) {
        Some((lo, hi)) => (Some(lo), Some(hi)),
        None => (None, None),
    };
    let above = match bound_value(c.greater_than) {
        Some(v) => Some(v + 1),
        None => None,
    };
    let below = match bound_value(c.less_than) {
        Some(v) => Some(v - 1),
        None => None,
    };
    (
        greater_bound(greater_bound(tmin, bound_value(c.greater_or_equal)), above),
        lesser_bound(lesser_bound(tmax, bound_value(c.less_or_equal)), below),
    )
}

/// The canonical text of the integer after the one a canonical text
/// writes, computed with num-bigint: `BigInt::from_str`, adding one and
/// `to_string`. Trusted: num-bigint reads and writes decimal integers
/// exactly, and writes them with a minus sign for negatives and no
/// leading zeros.
#[verifier::external_body]
fn integer_successor(text: &str) -> (r: String)
    requires
        canonical_integer(text@),
    ensures
        canonical_integer(r@),
        integer_value(r@) == integer_value(text@) + 1,
{
    let value = num_bigint::BigInt::from_str(text).unwrap_or_default();
    (value + num_bigint::BigInt::from(1u8)).to_string()
}

/// The canonical text of the integer before the one a canonical text
/// writes, computed with num-bigint: `BigInt::from_str`, subtracting one and
/// `to_string`. Trusted as `integer_successor` is.
#[verifier::external_body]
fn integer_predecessor(text: &str) -> (r: String)
    requires
        canonical_integer(text@),
    ensures
        canonical_integer(r@),
        integer_value(r@) == integer_value(text@) - 1,
{
    let value = num_bigint::BigInt::from_str(text).unwrap_or_default();
    (value - num_bigint::BigInt::from(1u8)).to_string()
}

/// An optional canonical bound, copied.
fn copy_bound(bound: &Option<String>) -> (r: Option<String>)
    ensures
        match (bound, r) {
            (Some(b), Some(x)) => x@ == b@,
            (None, None) => true,
            _ => false,
        },
{
    match bound {
        Some(b) => Some(owned(b.as_str())),
        None => None,
    }
}

fn pick_greater(a: Option<String>, b: Option<String>) -> (r: Option<String>)
    requires
        integer_bound_wf(a),
        integer_bound_wf(b),
    ensures
        integer_bound_wf(r),
        bound_value(r) == greater_bound(bound_value(a), bound_value(b)),
{
    match (a, b) {
        (Some(x), Some(y)) => match compare_integers(x.as_str(), y.as_str()) {
            Order::Less => Some(y),
            _ => Some(x),
        },
        (Some(x), None) => Some(x),
        (None, y) => y,
    }
}

fn pick_lesser(a: Option<String>, b: Option<String>) -> (r: Option<String>)
    requires
        integer_bound_wf(a),
        integer_bound_wf(b),
    ensures
        integer_bound_wf(r),
        bound_value(r) == lesser_bound(bound_value(a), bound_value(b)),
{
    match (a, b) {
        (Some(x), Some(y)) => match compare_integers(x.as_str(), y.as_str()) {
            Order::Greater => Some(y),
            _ => Some(x),
        },
        (Some(x), None) => Some(x),
        (None, y) => y,
    }
}

/// The least and the greatest integer that a target and its constraints
/// admit, as canonical texts, for the `minimum` and `maximum` of an
/// integer JSON Schema.
pub fn integer_bounds(target: IntegerTarget, constraints: &IntegerConstraints) -> (r: (Option<String>, Option<String>))
    requires
        integer_constraints_wf(*constraints),
    ensures
        integer_bound_wf(r.0),
        integer_bound_wf(r.1),
        (bound_value(r.0), bound_value(r.1)) == spec_integer_bounds(target, *constraints),
{
    let (target_minimum, target_maximum): (Option<String>, Option<String>) = match target.bounds() {
        Some((lo, hi)) => {
            proof {
                lemma_signed_decimal(lo as int);
                lemma_signed_decimal(hi as int);
                assert(decimal(hi as nat) == signed_decimal(hi as int));
            }
            (Some(i64_text(lo)), Some(u64_text(hi)))
        },
        None => (None, None),
    };
    let above = match &constraints.greater_than {
        Some(v) => Some(integer_successor(v.as_str())),
        None => None,
    };
    let below = match &constraints.less_than {
        Some(v) => Some(integer_predecessor(v.as_str())),
        None => None,
    };
    let minimum = pick_greater(pick_greater(target_minimum, copy_bound(&constraints.greater_or_equal)), above);
    let maximum = pick_lesser(pick_lesser(target_maximum, copy_bound(&constraints.less_or_equal)), below);
    (minimum, maximum)
}

/// The largest integer that a JavaScript number holds exactly: 2^53 - 1.
pub open spec fn javascript_safe_limit() -> int {
    9_007_199_254_740_991
}

/// Whether both bounds are present and lie within the integers that a
/// JavaScript number holds exactly.
pub fn is_javascript_safe_range(minimum: &Option<String>, maximum: &Option<String>) -> (r: bool)
    requires
        integer_bound_wf(*minimum),
        integer_bound_wf(*maximum),
    ensures
        r == (bound_value(*minimum) matches Some(lo) && bound_value(*maximum) matches Some(hi)
            && lo >= -javascript_safe_limit() && hi <= javascript_safe_limit()),
{
    match (minimum, maximum) {
        (Some(lo), Some(hi)) => {
            let low_limit = i64_text(-9_007_199_254_740_991i64);
            let high_limit = u64_text(9_007_199_254_740_991u64);
            proof {
                lemma_signed_decimal(-9_007_199_254_740_991int);
                lemma_signed_decimal(9_007_199_254_740_991int);
                assert(decimal(9_007_199_254_740_991nat) == signed_decimal(9_007_199_254_740_991int));
            }
            let low_ok = match compare_integers(lo.as_str(), low_limit.as_str()) {
                Order::Less => false,
                _ => true,
            };
            let high_ok = match compare_integers(hi.as_str(), high_limit.as_str()) {
                Order::Greater => false,
                _ => true,
            };
            low_ok && high_ok
        },
        _ => false,
    }
}

// ---------------------------------------------------------------------------
// Integer schemas
// ---------------------------------------------------------------------------

/// How integers are written in JSON: exactly, within the range a
/// JavaScript number holds, or as decimal strings.
#[derive(Clone, Copy, Debug, PartialEq, Eq, Structural)]
pub enum JsonIntegerProfile {
    Exact,
    Web,
    StringInts,
}

/// A scalar keyword value of a generated schema: a JSON string, or a JSON
/// number given by its JSON text.
#[derive(Clone, Debug, PartialEq, Eq)]
pub enum SchemaScalar {
    Text(String),
    Number(String),
}

/// A schema scalar as plain text.
pub enum ScalarView {
    Text(Seq<char>),
    Number(Seq<char>),
}

impl View for SchemaScalar {
    type V = ScalarView;

    open spec fn view(&self) -> ScalarView {
        match self {
            SchemaScalar::Text(t) => ScalarView::Text(t@),
            SchemaScalar::Number(t) => ScalarView::Number(t@),
        }
    }
}

/// The JSON text of the number that serde_json reads from a decimal
/// integer text and writes back, if it reads one.
pub uninterp spec fn json_number_text(text: Seq<char>) -> Option<Seq<char>>;

/// Reads a decimal integer text as a serde_json `Value` with
/// `serde_json::from_str` and writes it back with `to_string`. Trusted: the
/// outcome depends on the text alone; serde_json decides how it holds the
/// number, which is not restated here.
#[verifier::external_body]
pub(crate) fn json_number(text: &str) -> (r: Option<String>)
    ensures
        match (r, json_number_text(text@)) {
            (Some(t), Some(u)) => t@ == u,
            (None, None) => true,
            _ => false,
        },
{
    match serde_json::from_str::<serde_json::Value>(text) {
        Ok(value) => Some(value.to_string()),
        Err(_) => None,
    }
}

/// The message of an integer schema whose profile cannot hold its range.
pub open spec fn web_range_message() -> Seq<char> {
    "SIFR-INT-0009: json.web integer schema needs a statically JavaScript-safe range or an explicit string integer profile"@
}

/// The message of an integer bound that JSON cannot hold.
pub open spec fn inexact_bound_message() -> Seq<char> {
    "integer constraint cannot be represented exactly in JSON Schema"@
}

/// The keywords of an integer schema, after `done`, with an optional
/// integer keyword added when its bound is present.
pub open spec fn with_number(
    done: Result<Seq<(Seq<char>, ScalarView)>, (JsonSchemaErrorKind, Seq<char>)>,
    key: Seq<char>,
    bound: Option<Seq<char>>,
) -> Result<Seq<(Seq<char>, ScalarView)>, (JsonSchemaErrorKind, Seq<char>)> {
    match done {
        Err(e) => Err(e),
        Ok(keys) => match bound {
            None => Ok(keys),
            Some(b) => match json_number_text(b) {
                Some(t) => Ok(keys.push((key, ScalarView::Number(t)))),
                None => Err((JsonSchemaErrorKind::InvalidNumber, inexact_bound_message())),
            },
        },
    }
}

/// The name of an integer profile.
pub open spec fn profile_name(profile: JsonIntegerProfile) -> Seq<char> {
    match profile {
        JsonIntegerProfile::Exact => "exact"@,
        JsonIntegerProfile::Web => "web"@,
        JsonIntegerProfile::StringInts => "string_ints"@,
    }
}

/// The optional text of an optional bound.
pub open spec fn bound_text(bound: Option<String>) -> Option<Seq<char>> {
    match bound {
        Some(b) => Some(b@),
        None => None,
    }
}

/// The keywords, in order, of the JSON Schema of an integer with the given
/// bounds and step, or the error that stops it: a web profile needs both
/// bounds within the JavaScript-safe range; serialized string integers are
/// strings with the bounds as extension keywords; other integers are JSON
/// integers tagged with their profile, and exact ones warn clients.
pub open spec fn spec_integer_schema(
    mode: JsonSchemaMode,
    profile: JsonIntegerProfile,
    minimum: Option<Seq<char>>,
    maximum: Option<Seq<char>>,
    multiple_of: Option<Seq<char>>,
) -> Result<Seq<(Seq<char>, ScalarView)>, (JsonSchemaErrorKind, Seq<char>)> {
    let safe = minimum matches Some(lo) && maximum matches Some(hi) && integer_value(lo)
        >= -javascript_safe_limit() && integer_value(hi)
        <= javascript_safe_limit();
    if profile == JsonIntegerProfile::Web && !safe {
        Err((JsonSchemaErrorKind::IntegerPolicy, web_range_message()))
    } else if mode == JsonSchemaMode::Serialization && profile == JsonIntegerProfile::StringInts {
        let head = seq![
            ("type"@, ScalarView::Text("string"@)),
            ("pattern"@, ScalarView::Text("^-?[0-9]+$"@)),
            ("x-sifr-format"@, ScalarView::Text("integer-decimal-string"@)),
            ("x-sifr-integer-profile"@, ScalarView::Text("string_ints"@)),
        ];
        with_number(
            with_number(with_number(Ok(head), "x-sifr-minimum"@, minimum), "x-sifr-maximum"@, maximum),
            "x-sifr-multiple-of"@,
            multiple_of,
        )
    } else {
        let numbered = with_number(
            with_number(
                with_number(Ok(seq![("type"@, ScalarView::Text("integer"@))]), "minimum"@, minimum),
                "maximum"@,
                maximum,
            ),
            "multipleOf"@,
            multiple_of,
        );
        match numbered {
            Err(e) => Err(e),
            Ok(keys) => {
                let tagged = keys.push(("x-sifr-integer-profile"@, ScalarView::Text(profile_name(profile))));
                if profile == JsonIntegerProfile::Exact {
                    Ok(
                        tagged.push(
                            (
                                "x-sifr-generated-client-warning"@,
                                ScalarView::Text("client must use an exact integer JSON parser for this field"@),
                            ),
                        ),
                    )
                } else {
                    Ok(tagged)
                }
            },
        }
    }
}

/// The view of schema keywords.
pub open spec fn keywords_view(keys: Seq<(&'static str, SchemaScalar)>) -> Seq<(Seq<char>, ScalarView)> {
    keys.map_values(|k: (&'static str, SchemaScalar)| (k.0@, k.1@))
}

fn push_number(keys: &mut Vec<(&'static str, SchemaScalar)>, key: &'static str, bound: &Option<String>) -> (r: Result<
    (),
    JsonSchemaError,
>)
    ensures
        match with_number(Ok(keywords_view(old(keys)@)), key@, bound_text(*bound)) {
            Ok(v) => r is Ok && keywords_view(final(keys)@) == v,
            Err(e) => r matches Err(x) && x@ == e,
        },
{
    match bound {
        None => {
            Ok(())
        },
        Some(b) => match json_number(b.as_str()) {
            Some(text) => {
                let ghost before = keys@;
                keys.push((key, SchemaScalar::Number(text)));
                proof {
                    assert(keywords_view(keys@) =~= keywords_view(before).push((key@, keys@.last().1@)));
                }
                Ok(())
            },
            None => Err(
                JsonSchemaError::new(
                    JsonSchemaErrorKind::InvalidNumber,
                    owned("integer constraint cannot be represented exactly in JSON Schema"),
                ),
            ),
        },
    }
}

fn push_text(keys: &mut Vec<(&'static str, SchemaScalar)>, key: &'static str, text: &str)
    ensures
        keywords_view(final(keys)@) == keywords_view(old(keys)@).push((key@, ScalarView::Text(text@))),
{
    let ghost before = keys@;
    keys.push((key, SchemaScalar::Text(owned(text))));
    proof {
        assert(keywords_view(keys@) =~= keywords_view(before).push((key@, ScalarView::Text(text@))));
    }
}

/// The keywords, in order, of the JSON Schema of an integer, as
/// `spec_integer_schema` says.
pub fn integer_schema(
    mode: JsonSchemaMode,
    profile: JsonIntegerProfile,
    minimum: &Option<String>,
    maximum: &Option<String>,
    multiple_of: &Option<String>,
) -> (r: Result<Vec<(&'static str, SchemaScalar)>, JsonSchemaError>)
    requires
        integer_bound_wf(*minimum),
        integer_bound_wf(*maximum),
    ensures
        match spec_integer_schema(mode, profile, bound_text(*minimum), bound_text(*maximum), bound_text(*multiple_of)) {
            Ok(v) => r matches Ok(keys) && keywords_view(keys@) == v,
            Err(e) => r matches Err(x) && x@ == e,
        },
{
    if profile == JsonIntegerProfile::Web && !is_javascript_safe_range(minimum, maximum) {
        return Err(
            JsonSchemaError::new(
                JsonSchemaErrorKind::IntegerPolicy,
                owned(
                    "SIFR-INT-0009: json.web integer schema needs a statically JavaScript-safe range or an explicit string integer profile",
                ),
            ),
        );
    }
    let mut keys: Vec<(&'static str, SchemaScalar)> = Vec::new();
    if mode == JsonSchemaMode::Serialization && profile == JsonIntegerProfile::StringInts {
        push_text(&mut keys, "type", "string");
        push_text(&mut keys, "pattern", "^-?[0-9]+$");
        push_text(&mut keys, "x-sifr-format", "integer-decimal-string");
        push_text(&mut keys, "x-sifr-integer-profile", "string_ints");
        push_number(&mut keys, "x-sifr-minimum", minimum)?;
        push_number(&mut keys, "x-sifr-maximum", maximum)?;
        push_number(&mut keys, "x-sifr-multiple-of", multiple_of)?;
        return Ok(keys);
    }
    push_text(&mut keys, "type", "integer");
    push_number(&mut keys, "minimum", minimum)?;
    push_number(&mut keys, "maximum", maximum)?;
    push_number(&mut keys, "multipleOf", multiple_of)?;
    let name = match profile {
        JsonIntegerProfile::Exact => "exact",
        JsonIntegerProfile::Web => "web",
        JsonIntegerProfile::StringInts => "string_ints",
    };
    push_text(&mut keys, "x-sifr-integer-profile", name);
    if profile == JsonIntegerProfile::Exact {
        push_text(&mut keys, "x-sifr-generated-client-warning", "client must use an exact integer JSON parser for this field");
    }
    Ok(keys)
}

/// The bounds that a JSON Schema states for an integer admit every integer
/// that validation accepts for the same target and constraints.
pub proof fn law_schema_bounds_admit_valid_integers(
    input: InputNode,
    strict: bool,
    profile: InputProfile,
    target: IntegerTarget,
    constraints: IntegerConstraints,
)
    ensures
        integer_outcome(input, strict, profile, target, constraints) matches Ok(text) ==> {
            let v = integer_value(text);
            let (lo, hi) = spec_integer_bounds(target, constraints);
            &&& lo matches Some(l) ==> l <= v
            &&& hi matches Some(h) ==> v <= h
        },
{
}

} // verus!
