use core::str::FromStr;

use vstd::prelude::*;

use crate::constraints::{
    integer_constraints_wf, AliasPath, BytesConstraints, CollectionConstraints, IntegerConstraints, IntegerTarget,
    PatternSchema, TemporalKind, TemporalSchema, UrlConstraints,
};
use crate::decimals::DecimalConstraints;
use crate::integers::{compare_integers, integer_value};
use crate::json_schema::{
    bound_value, escape_json_pointer, integer_bounds, integer_schema, is_javascript_safe_range, javascript_safe_limit,
    bound_text, json_number_text, keywords_view, model_field_name, pointer_token, profile_name, spec_integer_bounds,
    spec_integer_schema, spec_property_name, JsonIntegerProfile, JsonSchemaError, JsonSchemaErrorKind,
    JsonSchemaMode, JsonSchemaOptions, ScalarView, SchemaScalar,
};
use crate::numeric::Fraction;
use crate::order::Order;
use crate::scalars::{canonical_integer, parse_canonical_integer};
use crate::strings::StringConstraints;
use crate::text::{decimal, owned, signed_decimal, u64_text};

verus! {

// ---------------------------------------------------------------------------
// Schemas
// ---------------------------------------------------------------------------

/// Bounds and step of a double, each held as its IEEE 754 bit pattern.
#[derive(Clone, Debug, Default, PartialEq, Eq)]
pub struct FloatConstraints {
    pub greater_than: Option<u64>,
    pub greater_or_equal: Option<u64>,
    pub less_than: Option<u64>,
    pub less_or_equal: Option<u64>,
    pub multiple_of: Option<u64>,
}

/// Bounds and step of a fraction.
#[derive(Clone, Debug, Default)]
pub struct FractionConstraints {
    pub greater_than: Option<Fraction>,
    pub greater_or_equal: Option<Fraction>,
    pub less_than: Option<Fraction>,
    pub less_or_equal: Option<Fraction>,
    pub multiple_of: Option<Fraction>,
}

/// Whether non-finite parts are allowed and the bounds of the magnitude of a
/// complex number, held as bit patterns.
#[derive(Clone, Debug, Default, PartialEq, Eq)]
pub struct ComplexConstraints {
    pub allow_non_finite: bool,
    pub magnitude_greater_or_equal: Option<u64>,
    pub magnitude_less_or_equal: Option<u64>,
}

/// A literal value a schema admits; integers as canonical decimal texts.
#[derive(Clone, Debug, PartialEq, Eq)]
pub enum LiteralValue {
    Null,
    Bool(bool),
    Integer(String),
    String(String),
    Bytes(Vec<u8>),
}

/// An enum schema: its name, its variants' names and, in the same order,
/// their input values.
#[derive(Clone, Debug)]
pub struct EnumSchema {
    pub name: &'static str,
    pub variant_names: Vec<&'static str>,
    pub inputs: Vec<LiteralValue>,
}

/// What a model does with input entries that name no field.
pub enum ExtraPolicy {
    Ignore,
    Forbid,
    Allow(Box<Schema>),
}

/// A field of a model schema.
pub struct ModelField {
    pub name: &'static str,
    pub schema: Schema,
    pub input: bool,
    pub has_default: bool,
    pub serialization_alias: Option<&'static str>,
    pub validation_aliases: Vec<AliasPath>,
}

/// A model schema: its name, fields and extra policy, whether fields may
/// be read by name beside their aliases, and whether errors are located by
/// alias.
pub struct ModelSchema {
    pub name: &'static str,
    pub fields: Vec<ModelField>,
    pub extra: ExtraPolicy,
    pub populate_by_name: bool,
    pub location_by_alias: bool,
}

/// A validation schema.
pub enum Schema {
    Null,
    Bool,
    Integer { target: IntegerTarget, constraints: IntegerConstraints },
    Float(FloatConstraints),
    Decimal(DecimalConstraints),
    Fraction(FractionConstraints),
    Complex(ComplexConstraints),
    String(StringConstraints),
    Bytes(BytesConstraints),
    Temporal(TemporalSchema),
    Uuid { version: Option<u8> },
    Url(UrlConstraints),
    Pattern(PatternSchema),
    Literal(Vec<LiteralValue>),
    Enum(EnumSchema),
    Nullable(Box<Schema>),
    Union(Vec<Schema>),
    TaggedUnion(Vec<Schema>),
    Definitions { definitions: Vec<(String, Schema)>, root: Box<Schema> },
    DefinitionRef { name: String },
    Model(ModelSchema),
    List { item: Box<Schema>, constraints: CollectionConstraints },
    MutableSet { item: Box<Schema>, constraints: CollectionConstraints },
    FrozenSet { item: Box<Schema>, constraints: CollectionConstraints },
    Generator { item: Box<Schema>, constraints: CollectionConstraints },
    Tuple(Vec<Schema>),
    Mapping { key: Box<Schema>, value: Box<Schema>, constraints: CollectionConstraints },
    EmbeddedJson(Box<Schema>),
    LaxOrStrict { lax: Box<Schema>, strict: Box<Schema> },
    JsonOrStructural { json: Box<Schema>, structural: Box<Schema> },
    Chain(Vec<Schema>),
}

// ---------------------------------------------------------------------------
// Documents as token streams
// ---------------------------------------------------------------------------

/// One token of a JSON document written in order: objects and arrays open
/// and close, object members start with their key, doubles are bit patterns.
#[derive(Clone, Debug, PartialEq, Eq)]
pub enum Token {
    BeginObject,
    EndObject,
    BeginArray,
    EndArray,
    Key(String),
    Null,
    Bool(bool),
    Number(String),
    Double(u64),
    Text(String),
}

/// A token as plain values.
pub enum TokenView {
    BeginObject,
    EndObject,
    BeginArray,
    EndArray,
    Key(Seq<char>),
    Null,
    Bool(bool),
    Number(Seq<char>),
    Double(u64),
    Text(Seq<char>),
}

impl View for Token {
    type V = TokenView;

    open spec fn view(&self) -> TokenView {
        match self {
            Token::BeginObject => TokenView::BeginObject,
            Token::EndObject => TokenView::EndObject,
            Token::BeginArray => TokenView::BeginArray,
            Token::EndArray => TokenView::EndArray,
            Token::Key(k) => TokenView::Key(k@),
            Token::Null => TokenView::Null,
            Token::Bool(b) => TokenView::Bool(*b),
            Token::Number(n) => TokenView::Number(n@),
            Token::Double(bits) => TokenView::Double(*bits),
            Token::Text(t) => TokenView::Text(t@),
        }
    }
}

/// The view of tokens.
pub open spec fn tokens(v: Seq<Token>) -> Seq<TokenView> {
    v.map_values(|t: Token| t@)
}

/// A JSON Schema error as its kind and message.
pub type SchemaFault = (JsonSchemaErrorKind, Seq<char>);

/// The largest nesting of schemas that generation follows.
pub const MAX_JSON_SCHEMA_DEPTH: usize = 256;

/// The JSON Schema dialect that generated documents declare.
pub open spec fn dialect() -> Seq<char> {
    "https://json-schema.org/draft/2020-12/schema"@
}

pub open spec fn unsupported_fault(message: Seq<char>) -> SchemaFault {
    (JsonSchemaErrorKind::UnsupportedSchema, message)
}

pub open spec fn invalid_fault(message: Seq<char>) -> SchemaFault {
    (JsonSchemaErrorKind::InvalidNumber, message)
}

/// An object opened with a `type` member.
pub open spec fn typed(name: Seq<char>) -> Seq<TokenView> {
    seq![TokenView::BeginObject, TokenView::Key("type"@), TokenView::Text(name)]
}

/// A member holding a length, when there is one.
pub open spec fn opt_usize(key: Seq<char>, value: Option<usize>) -> Seq<TokenView> {
    match value {
        Some(n) => seq![TokenView::Key(key), TokenView::Number(decimal(n as nat))],
        None => Seq::empty(),
    }
}

/// Whether a double's bit pattern is a finite number.
pub open spec fn finite(bits: u64) -> bool {
    (bits >> 52u64) & 0x7ffu64 != 0x7ffu64
}

/// Whether a double's bit pattern is at most zero or not finite, so that it
/// cannot be a step.
pub open spec fn bad_float_step(bits: u64) -> bool {
    !finite(bits) || (bits >> 63u64) == 1u64 || bits == 0u64
}

/// A member holding a double, when there is one; a non-finite double is
/// refused.
pub open spec fn opt_double(key: Seq<char>, value: Option<u64>) -> Result<Seq<TokenView>, SchemaFault> {
    match value {
        Some(bits) => if finite(bits) {
            Ok(seq![TokenView::Key(key), TokenView::Double(bits)])
        } else {
            Err(invalid_fault("non-finite constraint cannot be represented in JSON Schema"@))
        },
        None => Ok(Seq::empty()),
    }
}

/// Joins two results of token runs, the first error winning.
pub open spec fn join(a: Result<Seq<TokenView>, SchemaFault>, b: Result<Seq<TokenView>, SchemaFault>) -> Result<
    Seq<TokenView>,
    SchemaFault,
> {
    match a {
        Err(e) => Err(e),
        Ok(x) => match b {
            Err(e) => Err(e),
            Ok(y) => Ok(x + y),
        },
    }
}

/// The tokens of a keyword object from `integer_schema`.
pub open spec fn keyword_tokens(keys: Seq<(Seq<char>, ScalarView)>) -> Seq<TokenView>
    decreases keys.len(),
{
    if keys.len() == 0 {
        Seq::empty()
    } else {
        keyword_tokens(keys.drop_last()) + seq![
            TokenView::Key(keys.last().0),
            match keys.last().1 {
                ScalarView::Text(t) => TokenView::Text(t),
                ScalarView::Number(n) => TokenView::Number(n),
            },
        ]
    }
}

// ---------------------------------------------------------------------------
// Literal schemas
// ---------------------------------------------------------------------------

/// The integer texts among literal values, in order.
pub open spec fn literal_integers(values: Seq<LiteralValue>) -> Seq<Seq<char>>
    decreases values.len(),
{
    if values.len() == 0 {
        Seq::empty()
    } else {
        literal_integers(values.drop_last()) + match values.last() {
            LiteralValue::Integer(t) => seq![t@],
            _ => Seq::<Seq<char>>::empty(),
        }
    }
}

/// Whether an integer lies in the range a JavaScript number holds exactly.
pub open spec fn javascript_safe(t: Seq<char>) -> bool {
    -javascript_safe_limit() <= integer_value(t) <= javascript_safe_limit()
}

/// The least of nonempty integer texts by value, the first when equal.
pub open spec fn least_integer(ts: Seq<Seq<char>>) -> Seq<char>
    decreases ts.len(),
{
    if ts.len() <= 1 {
        ts[0]
    } else {
        let m = least_integer(ts.drop_last());
        if integer_value(ts.last()) < integer_value(m) {
            ts.last()
        } else {
            m
        }
    }
}

/// The greatest of nonempty integer texts by value, the first when equal.
pub open spec fn greatest_integer(ts: Seq<Seq<char>>) -> Seq<char>
    decreases ts.len(),
{
    if ts.len() <= 1 {
        ts[0]
    } else {
        let m = greatest_integer(ts.drop_last());
        if integer_value(ts.last()) > integer_value(m) {
            ts.last()
        } else {
            m
        }
    }
}

/// The token of one literal value.
pub open spec fn literal_token(value: LiteralValue, mode: JsonSchemaMode, profile: JsonIntegerProfile) -> Result<
    TokenView,
    SchemaFault,
> {
    match value {
        LiteralValue::Null => Ok(TokenView::Null),
        LiteralValue::Bool(b) => Ok(TokenView::Bool(b)),
        LiteralValue::Integer(t) => if mode == JsonSchemaMode::Serialization && profile
            == JsonIntegerProfile::StringInts {
            Ok(TokenView::Text(t@))
        } else {
            match json_number_text(t@) {
                Some(n) => Ok(TokenView::Number(n)),
                None => Err(invalid_fault("integer constraint cannot be represented exactly in JSON Schema"@)),
            }
        },
        LiteralValue::String(s) => Ok(TokenView::Text(s@)),
        LiteralValue::Bytes(_) => Err(unsupported_fault("byte literal JSON Schema needs an explicit byte representation"@)),
    }
}

/// The tokens of the first `n` literal values, or the first error.
pub open spec fn literal_tokens(values: Seq<LiteralValue>, n: nat, mode: JsonSchemaMode, profile: JsonIntegerProfile) -> Result<
    Seq<TokenView>,
    SchemaFault,
>
    decreases n,
{
    if n == 0 {
        Ok(Seq::empty())
    } else {
        match literal_tokens(values, (n - 1) as nat, mode, profile) {
            Err(e) => Err(e),
            Ok(done) => match literal_token(values[n - 1], mode, profile) {
                Err(e) => Err(e),
                Ok(t) => Ok(done.push(t)),
            },
        }
    }
}

/// The JSON Schema of a choice among literal values: `const` for one value
/// and `enum` for several; integer values add their profile, their least
/// and greatest value and the profile's notes. A web profile refuses an
/// integer beyond the JavaScript-safe range.
pub open spec fn spec_literal(values: Seq<LiteralValue>, mode: JsonSchemaMode, profile: JsonIntegerProfile) -> Result<
    Seq<TokenView>,
    SchemaFault,
> {
    let ints = literal_integers(values);
    if exists|i: int| 0 <= i < ints.len() && !canonical_integer(#[trigger] ints[i]) {
        Err(invalid_fault("integer literal is not a canonical integer"@))
    } else if profile == JsonIntegerProfile::Web && exists|i: int|
        0 <= i < ints.len() && !javascript_safe(#[trigger] ints[i]) {
        Err(
            (
                JsonSchemaErrorKind::IntegerPolicy,
                "SIFR-INT-0009: json.web integer literal is outside the JavaScript-safe range"@,
            ),
        )
    } else {
        match literal_tokens(values, values.len(), mode, profile) {
            Err(e) => Err(e),
            Ok(items) => {
                let head = if values.len() == 1 {
                    seq![TokenView::BeginObject, TokenView::Key("const"@)] + items
                } else {
                    seq![TokenView::BeginObject, TokenView::Key("enum"@), TokenView::BeginArray] + items + seq![
                        TokenView::EndArray,
                    ]
                };
                if ints.len() == 0 {
                    Ok(head + seq![TokenView::EndObject])
                } else {
                    match json_number_text(least_integer(ints)) {
                        None => Err(invalid_fault("integer constraint cannot be represented exactly in JSON Schema"@)),
                        Some(lo) => match json_number_text(greatest_integer(ints)) {
                            None => Err(
                                invalid_fault("integer constraint cannot be represented exactly in JSON Schema"@),
                            ),
                            Some(hi) => Ok(
                                head + seq![
                                    TokenView::Key("x-sifr-integer-profile"@),
                                    TokenView::Text(profile_name(profile)),
                                    TokenView::Key("x-sifr-minimum"@),
                                    TokenView::Number(lo),
                                    TokenView::Key("x-sifr-maximum"@),
                                    TokenView::Number(hi),
                                ] + (if profile == JsonIntegerProfile::Exact {
                                    seq![
                                        TokenView::Key("x-sifr-generated-client-warning"@),
                                        TokenView::Text(
                                            "client must use an exact integer JSON parser for this field"@,
                                        ),
                                    ]
                                } else {
                                    Seq::empty()
                                }) + (if mode == JsonSchemaMode::Serialization && profile
                                    == JsonIntegerProfile::StringInts && ints.len() == values.len() {
                                    seq![TokenView::Key("x-sifr-format"@), TokenView::Text("integer-decimal-string"@)]
                                } else {
                                    Seq::empty()
                                }) + seq![TokenView::EndObject],
                            ),
                        },
                    }
                }
            },
        }
    }
}

// ---------------------------------------------------------------------------
// The JSON Schema of a schema
// ---------------------------------------------------------------------------

/// The members of a fraction bound written as text, when there is one.
pub open spec fn fraction_text_member(key: Seq<char>, value: Option<Fraction>) -> Seq<TokenView> {
    match value {
        Some(f) => seq![TokenView::Key(key), TokenView::Text(f.spec_text())],
        None => Seq::empty(),
    }
}

/// The double that num-rational's `to_f64` gives for a fraction, as a bit
/// pattern, if it gives one.
pub uninterp spec fn rational_double(numerator: Seq<char>, denominator: Seq<char>) -> Option<u64>;

/// The fraction that num-rational's `from_float` reads from a double, as
/// numerator and denominator texts, if it reads one.
pub uninterp spec fn double_rational(bits: u64) -> Option<(Seq<char>, Seq<char>)>;

/// A fraction bound as a JSON number, when the double nearest to it is the
/// fraction itself; a fraction that has no double is refused.
pub open spec fn exact_double_member(key: Seq<char>, value: Option<(Seq<char>, Seq<char>)>) -> Result<
    Seq<TokenView>,
    SchemaFault,
> {
    match value {
        None => Ok(Seq::empty()),
        Some((n, d)) => match rational_double(n, d) {
            None => Err(invalid_fault("fraction constraint cannot be represented as a finite JSON number"@)),
            Some(bits) => if double_rational(bits) == Some((n, d)) {
                opt_double(key, Some(bits))
            } else {
                Ok(Seq::empty())
            },
        },
    }
}

/// The parts of an optional fraction.
pub open spec fn fraction_parts(value: Option<Fraction>) -> Option<(Seq<char>, Seq<char>)> {
    match value {
        Some(f) => Some((f.spec_numerator(), f.spec_denominator())),
        None => None,
    }
}

/// The parts of the magnitude of an optional fraction.
pub open spec fn magnitude_parts(value: Option<Fraction>) -> Option<(Seq<char>, Seq<char>)> {
    match value {
        Some(f) => Some(
            (
                if f.spec_numerator().len() > 0 && f.spec_numerator()[0] == '-' {
                    f.spec_numerator().drop_first()
                } else {
                    f.spec_numerator()
                },
                f.spec_denominator(),
            ),
        ),
        None => None,
    }
}

/// The string alternative of a fraction's JSON Schema.
pub open spec fn fraction_text_object(c: FractionConstraints) -> Seq<TokenView> {
    typed("string"@) + seq![TokenView::Key("format"@), TokenView::Text("fraction"@)] + fraction_text_member(
        "x-sifr-exclusive-minimum"@,
        c.greater_than,
    ) + fraction_text_member("x-sifr-minimum"@, c.greater_or_equal) + fraction_text_member(
        "x-sifr-exclusive-maximum"@,
        c.less_than,
    ) + fraction_text_member("x-sifr-maximum"@, c.less_or_equal) + fraction_text_member(
        "x-sifr-multiple-of"@,
        c.multiple_of,
    ) + seq![TokenView::EndObject]
}

/// The JSON Schema of a fraction: a string with the fraction's bounds as
/// text, and in validation also a number with the bounds that a double
/// holds exactly.
pub open spec fn spec_fraction(c: FractionConstraints, mode: JsonSchemaMode) -> Result<Seq<TokenView>, SchemaFault> {
    if c.multiple_of matches Some(f) && f.spec_numerator() == "0"@ {
        Err(invalid_fault("fraction multipleOf must not be zero"@))
    } else {
        let text = fraction_text_object(c);
        if mode == JsonSchemaMode::Serialization {
            Ok(text)
        } else {
            let number = fraction_number(c);
            match number {
                Err(e) => Err(e),
                Ok(num) => Ok(
                    seq![TokenView::BeginObject, TokenView::Key("anyOf"@), TokenView::BeginArray] + num + text + seq![
                        TokenView::EndArray,
                        TokenView::EndObject,
                    ],
                ),
            }
        }
    }
}

/// The JSON Schema of a complex number: a string with its policy, and in
/// validation also any number.
pub open spec fn spec_complex(c: ComplexConstraints, mode: JsonSchemaMode) -> Result<Seq<TokenView>, SchemaFault> {
    match join(
        join(
            Ok(
                typed("string"@) + seq![
                    TokenView::Key("format"@),
                    TokenView::Text("complex"@),
                    TokenView::Key("x-sifr-allow-non-finite"@),
                    TokenView::Bool(c.allow_non_finite),
                ],
            ),
            opt_double("x-sifr-magnitude-minimum"@, c.magnitude_greater_or_equal),
        ),
        opt_double("x-sifr-magnitude-maximum"@, c.magnitude_less_or_equal),
    ) {
        Err(e) => Err(e),
        Ok(obj) => if mode == JsonSchemaMode::Serialization {
            Ok(obj + seq![TokenView::EndObject])
        } else {
            Ok(
                seq![
                    TokenView::BeginObject,
                    TokenView::Key("anyOf"@),
                    TokenView::BeginArray,
                    TokenView::BeginObject,
                    TokenView::Key("type"@),
                    TokenView::Text("number"@),
                    TokenView::EndObject,
                ] + obj + seq![TokenView::EndObject, TokenView::EndArray, TokenView::EndObject],
            )
        },
    }
}

/// The JSON Schema of a double's bounds and step.
pub open spec fn spec_float(c: FloatConstraints) -> Result<Seq<TokenView>, SchemaFault> {
    match join(
        join(
            join(
                join(Ok(typed("number"@)), opt_double("exclusiveMinimum"@, c.greater_than)),
                opt_double("minimum"@, c.greater_or_equal),
            ),
            opt_double("exclusiveMaximum"@, c.less_than),
        ),
        opt_double("maximum"@, c.less_or_equal),
    ) {
        Err(e) => Err(e),
        Ok(obj) => if c.multiple_of matches Some(step) && bad_float_step(step) {
            Err(invalid_fault("floating-point multipleOf must be finite and greater than zero"@))
        } else {
            join(Ok(obj), join(opt_double("multipleOf"@, c.multiple_of), Ok(seq![TokenView::EndObject])))
        },
    }
}

/// The canonical text of an optional integer.
pub open spec fn opt_text(v: Option<int>) -> Option<Seq<char>> {
    match v {
        Some(x) => Some(signed_decimal(x)),
        None => None,
    }
}

/// The JSON Schema of an integer: its bounds narrowed by the target, its
/// step and its profile; refused when a bound is not canonical or the step
/// is not positive.
pub open spec fn spec_integer(
    target: IntegerTarget,
    c: IntegerConstraints,
    mode: JsonSchemaMode,
    profile: JsonIntegerProfile,
) -> Result<Seq<TokenView>, SchemaFault> {
    if !integer_constraints_wf(c) {
        Err(invalid_fault("integer constraint is not a canonical integer"@))
    } else if c.multiple_of matches Some(step) && integer_value(step@) <= 0 {
        Err(invalid_fault("integer multipleOf must be greater than zero"@))
    } else {
        let (lo, hi) = spec_integer_bounds(target, c);
        match spec_integer_schema(mode, profile, opt_text(lo), opt_text(hi), bound_text(c.multiple_of)) {
            Err(e) => Err(e),
            Ok(keys) => Ok(seq![TokenView::BeginObject] + keyword_tokens(keys) + seq![TokenView::EndObject]),
        }
    }
}

/// num-rational's `to_f64` of the fraction of two canonical integer texts,
/// as a bit pattern, with num-rational's `from_float` of that double read
/// back as numerator and denominator texts. Trusted: the outcome depends on
/// the two texts alone; which double num-rational picks, and what it reads
/// back, is not restated here.
#[verifier::external_body]
fn rational_as_double(numerator: &str, denominator: &str) -> (r: Option<(u64, Option<(String, String)>)>)
    requires
        canonical_integer(numerator@),
        canonical_integer(denominator@),
        integer_value(denominator@) != 0,
    ensures
        match (r, rational_double(numerator@, denominator@)) {
            (None, None) => true,
            (Some((bits, back)), Some(bits2)) => bits == bits2 && match (back, double_rational(bits)) {
                (Some((n, d)), Some((a, b))) => n@ == a && d@ == b,
                (None, None) => true,
                _ => false,
            },
            _ => false,
        },
{
    let n = num_bigint::BigInt::from_str(numerator).unwrap_or_default();
    let d = num_bigint::BigInt::from_str(denominator).unwrap_or_default();
    num_traits::ToPrimitive::to_f64(&num_rational::BigRational::new(n, d)).map(
        |x| (x.to_bits(), num_rational::BigRational::from_float(x).map(|q| (q.numer().to_string(), q.denom().to_string()))),
    )
}

// ---------------------------------------------------------------------------
// Generation
// ---------------------------------------------------------------------------

/// The fault for a schema nested too deeply.
pub open spec fn depth_fault() -> SchemaFault {
    (JsonSchemaErrorKind::DepthLimit, "JSON Schema generation exceeded the static schema depth limit"@)
}

/// The texts as string tokens.
pub open spec fn text_tokens(names: Seq<Seq<char>>) -> Seq<TokenView>
    decreases names.len(),
{
    if names.len() == 0 {
        Seq::empty()
    } else {
        text_tokens(names.drop_last()).push(TokenView::Text(names.last()))
    }
}

/// The format that a temporal kind is written with.
pub open spec fn temporal_format(kind: TemporalKind) -> Seq<char> {
    match kind {
        TemporalKind::Date => "date"@,
        TemporalKind::Time => "time"@,
        TemporalKind::DateTime => "date-time"@,
        TemporalKind::Duration => "duration"@,
    }
}

/// The optional serialization alias of a field as text.
pub open spec fn alias_text(alias: Option<&'static str>) -> Option<Seq<char>> {
    match alias {
        Some(a) => Some(a@),
        None => None,
    }
}

/// The schemas of the first `n` items, one after another, or the first
/// error.
pub open spec fn spec_items(
    items: Seq<Schema>,
    n: nat,
    options: JsonSchemaOptions,
    profile: JsonIntegerProfile,
    depth: nat,
) -> Result<Seq<TokenView>, SchemaFault>
    decreases items, n,
{
    if n == 0 || n > items.len() {
        Ok(Seq::empty())
    } else {
        join(
            spec_items(items, (n - 1) as nat, options, profile, depth),
            spec_generate(items[n - 1], options, profile, depth),
        )
    }
}

/// The definitions among the first `n`, as object members, or the first
/// error.
pub open spec fn spec_definitions(
    defs: Seq<(String, Schema)>,
    n: nat,
    options: JsonSchemaOptions,
    profile: JsonIntegerProfile,
    depth: nat,
) -> Result<Seq<TokenView>, SchemaFault>
    decreases defs, n,
{
    if n == 0 || n > defs.len() {
        Ok(Seq::empty())
    } else {
        join(
            spec_definitions(defs, (n - 1) as nat, options, profile, depth),
            join(Ok(seq![TokenView::Key(defs[n - 1].0@)]), spec_generate(defs[n - 1].1, options, profile, depth)),
        )
    }
}

/// The properties, required names and seen names of the first `n` fields
/// of a model, or the first error.
pub open spec fn spec_fields(
    fields: Seq<ModelField>,
    n: nat,
    populate_by_name: bool,
    options: JsonSchemaOptions,
    profile: JsonIntegerProfile,
    depth: nat,
) -> Result<(Seq<TokenView>, Seq<Seq<char>>, Seq<Seq<char>>), SchemaFault>
    decreases fields, n,
{
    if n == 0 || n > fields.len() {
        Ok((Seq::empty(), Seq::empty(), Seq::empty()))
    } else {
        match spec_fields(fields, (n - 1) as nat, populate_by_name, options, profile, depth) {
            Err(e) => Err(e),
            Ok((props, required, seen)) => {
                let f = fields[n - 1];
                if options.mode == JsonSchemaMode::Validation && !f.input {
                    Ok((props, required, seen))
                } else {
                    match spec_property_name(
                        options,
                        f.name@,
                        alias_text(f.serialization_alias),
                        f.validation_aliases@,
                        populate_by_name,
                        true,
                    ) {
                        Err(message) => Err(unsupported_fault(message)),
                        Ok(name) => if seen.contains(name) {
                            Err(unsupported_fault("model aliases produce duplicate JSON Schema property names"@))
                        } else {
                            match spec_generate(f.schema, options, profile, depth) {
                                Err(e) => Err(e),
                                Ok(t) => Ok(
                                    (
                                        props + seq![TokenView::Key(name)] + t,
                                        if options.mode == JsonSchemaMode::Serialization || !f.has_default {
                                            required.push(name)
                                        } else {
                                            required
                                        },
                                        seen.push(name),
                                    ),
                                ),
                            }
                        },
                    }
                }
            },
        }
    }
}

/// A token run that is one object.
pub open spec fn is_object(t: Seq<TokenView>) -> bool {
    t.len() >= 2 && t[0] == TokenView::BeginObject && t.last() == TokenView::EndObject
}

/// The JSON Schema of a schema at a nesting depth, as tokens, or the fault
/// that stops it.
pub open spec fn spec_generate(
    schema: Schema,
    options: JsonSchemaOptions,
    profile: JsonIntegerProfile,
    depth: nat,
) -> Result<Seq<TokenView>, SchemaFault>
    decreases schema, 2nat,
{
    if depth > 256 {
        Err(depth_fault())
    } else if is_compound(schema) {
        spec_compound(schema, options, profile, depth)
    } else {
        spec_leaf(schema, options, profile, depth)
    }
}

/// The JSON Schema of a schema that holds no other schema.
pub open spec fn spec_leaf(
    schema: Schema,
    options: JsonSchemaOptions,
    profile: JsonIntegerProfile,
    depth: nat,
) -> Result<Seq<TokenView>, SchemaFault>
{
    let mode = options.mode;
    match schema {
            Schema::Null => Ok(typed("null"@) + seq![TokenView::EndObject]),
            Schema::Bool => Ok(typed("boolean"@) + seq![TokenView::EndObject]),
            Schema::Integer { target, constraints } => spec_integer(target, constraints, mode, profile),
            Schema::Float(c) => spec_float(c),
            Schema::Decimal(_) => Err(unsupported_fault("decimal JSON Schema representation is not implemented"@)),
            Schema::Fraction(c) => spec_fraction(c, mode),
            Schema::Complex(c) => spec_complex(c, mode),
            Schema::String(c) => Ok(
                typed("string"@) + opt_usize("minLength"@, c.min_length) + opt_usize("maxLength"@, c.max_length)
                    + match c.pattern {
                    Some(p) => seq![TokenView::Key("pattern"@), TokenView::Text(p.spec_source())],
                    None => Seq::empty(),
                } + seq![TokenView::EndObject],
            ),
            Schema::Bytes(_) => Err(unsupported_fault("byte JSON Schema representation is not implemented"@)),
            Schema::Temporal(t) => if mode == JsonSchemaMode::Validation {
                Ok(
                    typed("string"@) + seq![
                        TokenView::Key("format"@),
                        TokenView::Text(temporal_format(t.kind)),
                        TokenView::EndObject,
                    ],
                )
            } else {
                Err(unsupported_fault("temporal serialization JSON Schema needs a matching output policy"@))
            },
            Schema::Uuid { version } => if mode == JsonSchemaMode::Validation {
                Ok(
                    typed("string"@) + seq![TokenView::Key("format"@), TokenView::Text("uuid"@)] + match version {
                        Some(v) => seq![TokenView::Key("x-sifr-uuid-version"@), TokenView::Number(decimal(v as nat))],
                        None => Seq::empty(),
                    } + seq![TokenView::EndObject],
                )
            } else {
                Err(unsupported_fault("UUID serialization JSON Schema needs a matching output policy"@))
            },
            Schema::Url(c) => Ok(
                typed("string"@) + seq![TokenView::Key("format"@), TokenView::Text("uri"@)] + opt_usize(
                    "maxLength"@,
                    c.max_length,
                ) + seq![TokenView::EndObject],
            ),
            Schema::Pattern(_) => if mode == JsonSchemaMode::Validation {
                Ok(
                    typed("string"@) + seq![
                        TokenView::Key("format"@),
                        TokenView::Text("regex"@),
                        TokenView::EndObject,
                    ],
                )
            } else {
                Err(unsupported_fault("pattern serialization JSON Schema needs a matching output policy"@))
            },
            Schema::Literal(values) => spec_literal(values@, mode, profile),
            Schema::Enum(e) => spec_literal(e.inputs@, mode, profile),
        _ => Err(unsupported_fault("schema kind is not supported"@)),
    }
}

/// The JSON Schema of a schema that holds other schemas.
pub open spec fn spec_compound(
    schema: Schema,
    options: JsonSchemaOptions,
    profile: JsonIntegerProfile,
    depth: nat,
) -> Result<Seq<TokenView>, SchemaFault>
    decreases schema, 1nat,
{
    let mode = options.mode;
    let d = depth + 1;
    match schema {
        Schema::Definitions { .. } => spec_definitions_node(schema, options, profile, depth),
        Schema::Model(_) => spec_model_node(schema, options, profile, depth),
        Schema::Tuple(_) => spec_tuple_node(schema, options, profile, depth),
        Schema::Mapping { .. } => spec_mapping_node(schema, options, profile, depth),
            Schema::Nullable(inner) => join(
                join(
                    Ok(seq![TokenView::BeginObject, TokenView::Key("anyOf"@), TokenView::BeginArray]),
                    spec_generate(*inner, options, profile, d),
                ),
                Ok(typed("null"@) + seq![TokenView::EndObject, TokenView::EndArray, TokenView::EndObject]),
            ),
            Schema::Union(choices) => join(
                join(
                    Ok(seq![TokenView::BeginObject, TokenView::Key("anyOf"@), TokenView::BeginArray]),
                    spec_items(choices@, choices@.len(), options, profile, d),
                ),
                Ok(seq![TokenView::EndArray, TokenView::EndObject]),
            ),
            Schema::TaggedUnion(choices) => join(
                join(
                    Ok(seq![TokenView::BeginObject, TokenView::Key("oneOf"@), TokenView::BeginArray]),
                    spec_items(choices@, choices@.len(), options, profile, d),
                ),
                Ok(seq![TokenView::EndArray, TokenView::EndObject]),
            ),
            Schema::DefinitionRef { name } => Ok(
                seq![
                    TokenView::BeginObject,
                    TokenView::Key("$ref"@),
                    TokenView::Text("#/$defs/"@ + pointer_token(name@)),
                    TokenView::EndObject,
                ],
            ),
            Schema::List { item, constraints } => spec_array(*item, constraints, false, options, profile, d),
            Schema::MutableSet { item, constraints } => spec_array(*item, constraints, true, options, profile, d),
            Schema::FrozenSet { item, constraints } => spec_array(*item, constraints, true, options, profile, d),
            Schema::Generator { item, constraints } => spec_array(*item, constraints, false, options, profile, d),
            Schema::EmbeddedJson(inner) => if mode == JsonSchemaMode::Validation {
                join(
                    Ok(
                        typed("string"@) + seq![
                            TokenView::Key("contentMediaType"@),
                            TokenView::Text("application/json"@),
                            TokenView::Key("contentSchema"@),
                        ],
                    ),
                    join(spec_generate(*inner, options, profile, d), Ok(seq![TokenView::EndObject])),
                )
            } else {
                spec_generate(*inner, options, profile, d)
            },
            Schema::LaxOrStrict { lax, strict } => if mode == JsonSchemaMode::Validation {
                spec_generate(*lax, options, profile, d)
            } else {
                spec_generate(*strict, options, profile, d)
            },
            Schema::JsonOrStructural { json, structural } => if mode == JsonSchemaMode::Validation {
                spec_generate(*json, options, profile, d)
            } else {
                spec_generate(*structural, options, profile, d)
            },
            Schema::Chain(steps) => if steps@.len() == 0 {
                Err(unsupported_fault("empty typed chain has no JSON Schema representation"@))
            } else if mode == JsonSchemaMode::Validation {
                spec_generate(steps@[0], options, profile, d)
            } else {
                spec_generate(steps@.last(), options, profile, d)
            },
        _ => Err(unsupported_fault("schema kind is not supported"@)),
    }
}

/// The JSON Schema of a definition scope.
pub open spec fn spec_definitions_node(
    schema: Schema,
    options: JsonSchemaOptions,
    profile: JsonIntegerProfile,
    depth: nat,
) -> Result<Seq<TokenView>, SchemaFault>
    decreases schema, 0nat,
{
    let mode = options.mode;
    let d = depth + 1;
    match schema {
            Schema::Definitions { definitions, root } => if depth == 0 {
                match spec_definitions(definitions@, definitions@.len(), options, profile, d) {
                    Err(e) => Err(e),
                    Ok(defs) => match spec_generate(*root, options, profile, d) {
                        Err(e) => Err(e),
                        Ok(r) => if is_object(r) {
                            Ok(
                                r.drop_last() + seq![TokenView::Key("$defs"@), TokenView::BeginObject] + defs + seq![
                                    TokenView::EndObject,
                                    TokenView::EndObject,
                                ],
                            )
                        } else {
                            Err(unsupported_fault("definition root is not a JSON Schema object"@))
                        },
                    },
                }
            } else {
                Err(unsupported_fault("nested definition scopes do not have an exact JSON Schema reference base"@))
            },
        _ => Err(unsupported_fault("schema kind is not supported"@)),
    }
}

/// The `additionalProperties` of a model's JSON Schema: `false` when
/// serializing or forbidding extras, `true` when ignoring them, and the
/// schema of extra values when allowing them.
pub open spec fn spec_additional(
    extra: ExtraPolicy,
    options: JsonSchemaOptions,
    profile: JsonIntegerProfile,
    depth: nat,
) -> Result<Seq<TokenView>, SchemaFault>
    decreases extra, 0nat,
{
    match extra {
        ExtraPolicy::Allow(value) => if options.mode == JsonSchemaMode::Serialization {
            Ok(seq![TokenView::Bool(false)])
        } else {
            spec_generate(*value, options, profile, depth)
        },
        ExtraPolicy::Forbid => Ok(seq![TokenView::Bool(false)]),
        ExtraPolicy::Ignore => Ok(seq![TokenView::Bool(options.mode != JsonSchemaMode::Serialization)]),
    }
}

/// The JSON Schema of a model.
pub open spec fn spec_model_node(
    schema: Schema,
    options: JsonSchemaOptions,
    profile: JsonIntegerProfile,
    depth: nat,
) -> Result<Seq<TokenView>, SchemaFault>
    decreases schema, 0nat,
{
    let mode = options.mode;
    let d = depth + 1;
    match schema {
            Schema::Model(m) => match spec_fields(m.fields@, m.fields@.len(), m.populate_by_name, options, profile, d) {
                Err(e) => Err(e),
                Ok((props, required, _)) => {
                    let additional = spec_additional(m.extra, options, profile, d);
                    match additional {
                        Err(e) => Err(e),
                        Ok(a) => Ok(
                            typed("object"@) + seq![
                                TokenView::Key("title"@),
                                TokenView::Text(m.name@),
                                TokenView::Key("properties"@),
                                TokenView::BeginObject,
                            ] + props + seq![TokenView::EndObject, TokenView::Key("required"@), TokenView::BeginArray]
                                + text_tokens(required) + seq![
                                TokenView::EndArray,
                                TokenView::Key("additionalProperties"@),
                            ] + a + seq![TokenView::EndObject],
                        ),
                    }
                },
            },
        _ => Err(unsupported_fault("schema kind is not supported"@)),
    }
}

/// The JSON Schema of a tuple.
pub open spec fn spec_tuple_node(
    schema: Schema,
    options: JsonSchemaOptions,
    profile: JsonIntegerProfile,
    depth: nat,
) -> Result<Seq<TokenView>, SchemaFault>
    decreases schema, 0nat,
{
    let mode = options.mode;
    let d = depth + 1;
    match schema {
            Schema::Tuple(items) => join(
                join(
                    Ok(
                        typed("array"@) + seq![TokenView::Key("prefixItems"@), TokenView::BeginArray],
                    ),
                    spec_items(items@, items@.len(), options, profile, d),
                ),
                Ok(
                    seq![
                        TokenView::EndArray,
                        TokenView::Key("minItems"@),
                        TokenView::Number(decimal(items@.len())),
                        TokenView::Key("maxItems"@),
                        TokenView::Number(decimal(items@.len())),
                        TokenView::EndObject,
                    ],
                ),
            ),
        _ => Err(unsupported_fault("schema kind is not supported"@)),
    }
}

/// The JSON Schema of a mapping.
pub open spec fn spec_mapping_node(
    schema: Schema,
    options: JsonSchemaOptions,
    profile: JsonIntegerProfile,
    depth: nat,
) -> Result<Seq<TokenView>, SchemaFault>
    decreases schema, 0nat,
{
    let mode = options.mode;
    let d = depth + 1;
    match schema {
            Schema::Mapping { key, value, constraints } => if !(*key is String) {
                Err(unsupported_fault("non-string JSON object keys need an exact property-name representation"@))
            } else {
                join(
                    join(
                        join(
                            Ok(typed("object"@) + seq![TokenView::Key("additionalProperties"@)]),
                            spec_generate(*value, options, profile, d),
                        ),
                        join(Ok(seq![TokenView::Key("propertyNames"@)]), spec_generate(*key, options, profile, d)),
                    ),
                    Ok(
                        opt_usize("minProperties"@, constraints.min_length) + opt_usize(
                            "maxProperties"@,
                            constraints.max_length,
                        ) + seq![TokenView::EndObject],
                    ),
                )
            },
        _ => Err(unsupported_fault("schema kind is not supported"@)),
    }
}

/// The JSON Schema of a list, set, frozen set or generator.
pub open spec fn spec_array(
    item: Schema,
    c: CollectionConstraints,
    unique: bool,
    options: JsonSchemaOptions,
    profile: JsonIntegerProfile,
    depth: nat,
) -> Result<Seq<TokenView>, SchemaFault>
    decreases item, 3nat,
{
    join(
        join(Ok(typed("array"@) + seq![TokenView::Key("items"@)]), spec_generate(item, options, profile, depth)),
        Ok(
            opt_usize("minItems"@, c.min_length) + opt_usize("maxItems"@, c.max_length) + (if unique {
                seq![TokenView::Key("uniqueItems"@), TokenView::Bool(true)]
            } else {
                Seq::empty()
            }) + seq![TokenView::EndObject],
        ),
    )
}

/// A JSON Schema document: the schema's JSON Schema with the dialect it is
/// written in.
pub open spec fn spec_document(schema: Schema, options: JsonSchemaOptions, profile: JsonIntegerProfile) -> Result<
    Seq<TokenView>,
    SchemaFault,
> {
    match spec_generate(schema, options, profile, 0) {
        Err(e) => Err(e),
        Ok(t) => if is_object(t) {
            Ok(t.drop_last() + seq![TokenView::Key("$schema"@), TokenView::Text(dialect()), TokenView::EndObject])
        } else {
            Err(unsupported_fault("JSON Schema document root is not an object"@))
        },
    }
}

// ---------------------------------------------------------------------------
// Writing tokens
// ---------------------------------------------------------------------------

fn put(out: &mut Vec<Token>, t: Token)
    ensures
        tokens(final(out)@) == tokens(old(out)@).push(t@),
{
    let ghost before = out@;
    out.push(t);
    proof {
        assert(tokens(out@) =~= tokens(before).push(t@));
    }
}

fn put_key(out: &mut Vec<Token>, key: &str)
    ensures
        tokens(final(out)@) == tokens(old(out)@).push(TokenView::Key(key@)),
{
    put(out, Token::Key(owned(key)));
}

fn put_text(out: &mut Vec<Token>, text: &str)
    ensures
        tokens(final(out)@) == tokens(old(out)@).push(TokenView::Text(text@)),
{
    put(out, Token::Text(owned(text)));
}

fn put_typed(out: &mut Vec<Token>, name: &str)
    ensures
        tokens(final(out)@) == tokens(old(out)@) + typed(name@),
{
    let ghost before = tokens(out@);
    put(out, Token::BeginObject);
    put_key(out, "type");
    put_text(out, name);
    proof {
        assert(tokens(out@) =~= before + typed(name@));
    }
}

fn put_all(out: &mut Vec<Token>, more: Vec<Token>)
    ensures
        tokens(final(out)@) == tokens(old(out)@) + tokens(more@),
{
    let ghost before = out@;
    let ghost added = more@;
    let mut more = more;
    out.append(&mut more);
    proof {
        assert(out@ == before + added);
        assert(tokens(out@) =~= tokens(before) + tokens(added));
    }
}

fn put_usize(out: &mut Vec<Token>, key: &str, value: Option<usize>)
    ensures
        tokens(final(out)@) == tokens(old(out)@) + opt_usize(key@, value),
{
    let ghost before = tokens(out@);
    if let Some(n) = value {
        put_key(out, key);
        put(out, Token::Number(u64_text(n as u64)));
    }
    proof {
        assert(tokens(out@) =~= before + opt_usize(key@, value));
    }
}

fn is_finite_bits(bits: u64) -> (r: bool)
    ensures
        r == finite(bits),
{
    (bits >> 52u64) & 0x7ffu64 != 0x7ffu64
}

fn put_double(out: &mut Vec<Token>, key: &str, value: Option<u64>) -> (r: Result<(), JsonSchemaError>)
    ensures
        match opt_double(key@, value) {
            Ok(t) => r is Ok && tokens(final(out)@) == tokens(old(out)@) + t,
            Err(e) => r matches Err(x) && x@ == e,
        },
{
    let ghost before = tokens(out@);
    if let Some(bits) = value {
        if !is_finite_bits(bits) {
            return Err(
                JsonSchemaError::new(
                    JsonSchemaErrorKind::InvalidNumber,
                    owned("non-finite constraint cannot be represented in JSON Schema"),
                ),
            );
        }
        put_key(out, key);
        put(out, Token::Double(bits));
    }
    proof {
        assert(tokens(out@) =~= before + opt_double(key@, value)->Ok_0);
    }
    Ok(())
}

fn fault(kind: JsonSchemaErrorKind, message: &str) -> (r: JsonSchemaError)
    ensures
        r@ == (kind, message@),
{
    JsonSchemaError::new(kind, owned(message))
}

fn contains_text(names: &Vec<String>, name: &str) -> (r: bool)
    ensures
        r == names@.map_values(|n: String| n@).contains(name@),
{
    let ghost views = names@.map_values(|n: String| n@);
    let mut i: usize = 0;
    while i < names.len()
        invariant
            i <= names@.len(),
            views == names@.map_values(|n: String| n@),
            forall|j: int| 0 <= j < i ==> views[j] != name@,
        decreases names@.len() - i,
    {
        if crate::text::str_equal(names[i].as_str(), name) {
            assert(views[i as int] == name@);
            return true;
        }
        i = i + 1;
    }
    false
}

// ---------------------------------------------------------------------------
// Writing literal, numeric and fraction schemas
// ---------------------------------------------------------------------------

fn is_canonical(text: &str) -> (r: bool)
    ensures
        r == canonical_integer(text@),
{
    parse_canonical_integer(text).is_ok()
}

fn integers_of(values: &Vec<LiteralValue>) -> (r: Vec<String>)
    ensures
        r@.map_values(|t: String| t@) == literal_integers(values@),
{
    let mut ints: Vec<String> = Vec::new();
    let mut i: usize = 0;
    while i < values.len()
        invariant
            i <= values@.len(),
            ints@.map_values(|t: String| t@) == literal_integers(values@.take(i as int)),
        decreases values@.len() - i,
    {
        let ghost before = ints@;
        proof {
            assert(values@.take(i + 1).drop_last() =~= values@.take(i as int));
        }
        if let LiteralValue::Integer(t) = &values[i] {
            ints.push(owned(t.as_str()));
            proof {
                assert(ints@.map_values(|t: String| t@) =~= before.map_values(|t: String| t@).push(t@));
            }
        } else {
            proof {
                assert(literal_integers(values@.take(i + 1)) =~= literal_integers(values@.take(i as int)));
            }
        }
        i = i + 1;
    }
    proof {
        assert(values@.take(values@.len() as int) =~= values@);
    }
    ints
}

fn put_literal_token(out: &mut Vec<Token>, value: &LiteralValue, mode: JsonSchemaMode, profile: JsonIntegerProfile) -> (r: Result<
    (),
    JsonSchemaError,
>)
    ensures
        match literal_token(*value, mode, profile) {
            Ok(t) => r is Ok && tokens(final(out)@) == tokens(old(out)@).push(t),
            Err(e) => r matches Err(x) && x@ == e,
        },
{
    match value {
        LiteralValue::Null => put(out, Token::Null),
        LiteralValue::Bool(b) => put(out, Token::Bool(*b)),
        LiteralValue::Integer(t) => {
            if mode == JsonSchemaMode::Serialization && profile == JsonIntegerProfile::StringInts {
                put_text(out, t.as_str());
            } else {
                match crate::json_schema::json_number(t.as_str()) {
                    Some(n) => put(out, Token::Number(n)),
                    None => {
                        return Err(
                            fault(
                                JsonSchemaErrorKind::InvalidNumber,
                                "integer constraint cannot be represented exactly in JSON Schema",
                            ),
                        );
                    },
                }
            }
        },
        LiteralValue::String(t) => put_text(out, t.as_str()),
        LiteralValue::Bytes(_) => {
            return Err(
                fault(
                    JsonSchemaErrorKind::UnsupportedSchema,
                    "byte literal JSON Schema needs an explicit byte representation",
                ),
            );
        },
    }
    Ok(())
}

proof fn lemma_literal_error_stays(
    values: Seq<LiteralValue>,
    k: nat,
    n: nat,
    mode: JsonSchemaMode,
    profile: JsonIntegerProfile,
)
    requires
        k <= n,
        literal_tokens(values, k, mode, profile) is Err,
    ensures
        literal_tokens(values, n, mode, profile) == literal_tokens(values, k, mode, profile),
    decreases n - k,
{
    if k < n {
        lemma_literal_error_stays(values, k, (n - 1) as nat, mode, profile);
    }
}

/// Whether an integer text lies within the JavaScript-safe range.
fn javascript_safe_text(t: &str) -> (r: bool)
    requires
        canonical_integer(t@),
    ensures
        r == javascript_safe(t@),
{
    let low = Some(owned(t));
    let high = Some(owned(t));
    is_javascript_safe_range(&low, &high)
}

fn least_of(ints: &Vec<String>, greatest: bool) -> (r: String)
    requires
        ints@.len() > 0,
        forall|i: int| 0 <= i < ints@.len() ==> canonical_integer((#[trigger] ints@[i])@),
    ensures
        greatest ==> r@ == greatest_integer(ints@.map_values(|t: String| t@)),
        !greatest ==> r@ == least_integer(ints@.map_values(|t: String| t@)),
{
    let ghost views = ints@.map_values(|t: String| t@);
    let mut m = owned(ints[0].as_str());
    let mut i: usize = 1;
    proof {
        assert(views.take(1) =~= seq![views[0]]);
    }
    while i < ints.len()
        invariant
            1 <= i <= ints@.len(),
            views == ints@.map_values(|t: String| t@),
            forall|j: int| 0 <= j < ints@.len() ==> canonical_integer((#[trigger] ints@[j])@),
            canonical_integer(m@),
            greatest ==> m@ == greatest_integer(views.take(i as int)),
            !greatest ==> m@ == least_integer(views.take(i as int)),
        decreases ints@.len() - i,
    {
        proof {
            assert(views.take(i + 1).drop_last() =~= views.take(i as int));
            assert(views.take(i + 1).last() == views[i as int]);
            assert(canonical_integer(ints@[i as int]@));
        }
        let o = compare_integers(ints[i].as_str(), m.as_str());
        if greatest {
            if o == Order::Greater {
                m = owned(ints[i].as_str());
            }
        } else {
            if o == Order::Less {
                m = owned(ints[i].as_str());
            }
        }
        i = i + 1;
    }
    proof {
        assert(views.take(ints@.len() as int) =~= views);
    }
    m
}

/// Checks the integer values of literals: each must be canonical, and under
/// the web profile within the JavaScript-safe range.
fn check_literal_integers(ints: &Vec<String>, profile: JsonIntegerProfile) -> (r: Result<(), JsonSchemaError>)
    ensures
        ({
            let iv = ints@.map_values(|t: String| t@);
            if exists|i: int| 0 <= i < iv.len() && !canonical_integer(#[trigger] iv[i]) {
                r matches Err(x) && x@ == invalid_fault("integer literal is not a canonical integer"@)
            } else if profile == JsonIntegerProfile::Web && exists|i: int|
                0 <= i < iv.len() && !javascript_safe(#[trigger] iv[i]) {
                r matches Err(x) && x@ == (
                    JsonSchemaErrorKind::IntegerPolicy,
                    "SIFR-INT-0009: json.web integer literal is outside the JavaScript-safe range"@,
                )
            } else {
                r is Ok
            }
        }),
        r is Ok ==> forall|i: int| 0 <= i < ints@.len() ==> canonical_integer((#[trigger] ints@[i])@),
{
    let ghost iv = ints@.map_values(|t: String| t@);
    let mut i: usize = 0;
    while i < ints.len()
        invariant
            i <= ints@.len(),
            iv == ints@.map_values(|t: String| t@),
            forall|j: int| 0 <= j < i ==> canonical_integer(#[trigger] iv[j]),
        decreases ints@.len() - i,
    {
        if !is_canonical(ints[i].as_str()) {
            proof {
                assert(!canonical_integer(iv[i as int]));
            }
            return Err(fault(JsonSchemaErrorKind::InvalidNumber, "integer literal is not a canonical integer"));
        }
        i = i + 1;
    }
    proof {
        assert forall|j: int| 0 <= j < ints@.len() implies canonical_integer((#[trigger] ints@[j])@) by {
            assert(iv[j] == ints@[j]@);
            assert(canonical_integer(iv[j]));
        }
    }
    if profile == JsonIntegerProfile::Web {
        let mut k: usize = 0;
        while k < ints.len()
            invariant
                k <= ints@.len(),
                profile == JsonIntegerProfile::Web,
                iv == ints@.map_values(|t: String| t@),
                forall|j: int| 0 <= j < ints@.len() ==> canonical_integer(#[trigger] iv[j]),
                forall|j: int| 0 <= j < k ==> javascript_safe(#[trigger] iv[j]),
            decreases ints@.len() - k,
        {
            proof {
                assert(iv[k as int] == ints@[k as int]@);
                assert(canonical_integer(iv[k as int]));
            }
            if !javascript_safe_text(ints[k].as_str()) {
                proof {
                    assert(!javascript_safe(iv[k as int]));
                    assert(!exists|i: int| 0 <= i < iv.len() && !canonical_integer(#[trigger] iv[i]));
                }
                return Err(
                    fault(
                        JsonSchemaErrorKind::IntegerPolicy,
                        "SIFR-INT-0009: json.web integer literal is outside the JavaScript-safe range",
                    ),
                );
            }
            k = k + 1;
        }
        proof {
            assert(!exists|i: int| 0 <= i < iv.len() && !javascript_safe(#[trigger] iv[i]));
        }
    }
    proof {
        assert(!exists|i: int| 0 <= i < iv.len() && !canonical_integer(#[trigger] iv[i]));
    }
    Ok(())
}

/// Writes the tokens of the literal values, as `literal_tokens` says.
fn put_literal_items(out: &mut Vec<Token>, values: &Vec<LiteralValue>, mode: JsonSchemaMode, profile: JsonIntegerProfile) -> (r: Result<
    (),
    JsonSchemaError,
>)
    ensures
        match literal_tokens(values@, values@.len(), mode, profile) {
            Ok(t) => r is Ok && tokens(final(out)@) == tokens(old(out)@) + t,
            Err(e) => r matches Err(x) && x@ == e,
        },
{
    let ghost start = tokens(out@);
    let mut n: usize = 0;
    assert(tokens(out@) =~= start + Seq::<TokenView>::empty());
    while n < values.len()
        invariant
            n <= values@.len(),
            literal_tokens(values@, n as nat, mode, profile) matches Ok(done) && tokens(out@) == start + done,
        decreases values@.len() - n,
    {
        let ghost done = literal_tokens(values@, n as nat, mode, profile)->Ok_0;
        match put_literal_token(out, &values[n], mode, profile) {
            Ok(()) => {
                proof {
                    let t = literal_token(values@[n as int], mode, profile)->Ok_0;
                    assert(tokens(out@) =~= start + done.push(t));
                }
            },
            Err(e) => {
                proof {
                    lemma_literal_error_stays(values@, (n + 1) as nat, values@.len(), mode, profile);
                }
                return Err(e);
            },
        }
        n = n + 1;
    }
    Ok(())
}

/// Writes the JSON Schema of a choice among literal values, as
/// `spec_literal` says.
#[verifier::rlimit(100)]
fn put_literal(out: &mut Vec<Token>, values: &Vec<LiteralValue>, mode: JsonSchemaMode, profile: JsonIntegerProfile) -> (r: Result<
    (),
    JsonSchemaError,
>)
    ensures
        match spec_literal(values@, mode, profile) {
            Ok(t) => r is Ok && tokens(final(out)@) == tokens(old(out)@) + t,
            Err(e) => r matches Err(x) && x@ == e,
        },
{
    let ghost before = tokens(out@);
    let ints = integers_of(values);
    check_literal_integers(&ints, profile)?;
    let ghost iv = ints@.map_values(|t: String| t@);
    proof {
        assert(iv == literal_integers(values@));
        assert(!exists|i: int| 0 <= i < iv.len() && !canonical_integer(#[trigger] iv[i]));
        assert(!(profile == JsonIntegerProfile::Web && exists|i: int|
            0 <= i < iv.len() && !javascript_safe(#[trigger] iv[i])));
    }
    put(out, Token::BeginObject);
    if values.len() == 1 {
        put_key(out, "const");
    } else {
        put_key(out, "enum");
        put(out, Token::BeginArray);
    }
    put_literal_items(out, values, mode, profile)?;
    if values.len() != 1 {
        put(out, Token::EndArray);
    }
    if ints.len() == 0 {
        put(out, Token::EndObject);
        proof {
            assert(tokens(out@) =~= before + spec_literal(values@, mode, profile)->Ok_0);
        }
        return Ok(());
    }
    let lo = least_of(&ints, false);
    let hi = least_of(&ints, true);
    let lo_text = match crate::json_schema::json_number(lo.as_str()) {
        Some(t) => t,
        None => {
            return Err(
                fault(JsonSchemaErrorKind::InvalidNumber, "integer constraint cannot be represented exactly in JSON Schema"),
            );
        },
    };
    let hi_text = match crate::json_schema::json_number(hi.as_str()) {
        Some(t) => t,
        None => {
            return Err(
                fault(JsonSchemaErrorKind::InvalidNumber, "integer constraint cannot be represented exactly in JSON Schema"),
            );
        },
    };
    let name = match profile {
        JsonIntegerProfile::Exact => "exact",
        JsonIntegerProfile::Web => "web",
        JsonIntegerProfile::StringInts => "string_ints",
    };
    put_key(out, "x-sifr-integer-profile");
    put_text(out, name);
    put_key(out, "x-sifr-minimum");
    put(out, Token::Number(lo_text));
    put_key(out, "x-sifr-maximum");
    put(out, Token::Number(hi_text));
    if profile == JsonIntegerProfile::Exact {
        put_key(out, "x-sifr-generated-client-warning");
        put_text(out, "client must use an exact integer JSON parser for this field");
    }
    if mode == JsonSchemaMode::Serialization && profile == JsonIntegerProfile::StringInts && ints.len() == values.len() {
        put_key(out, "x-sifr-format");
        put_text(out, "integer-decimal-string");
    }
    put(out, Token::EndObject);
    proof {
        assert(tokens(out@) =~= before + spec_literal(values@, mode, profile)->Ok_0);
    }
    Ok(())
}

pub(crate) fn bound_is_canonical(bound: &Option<String>) -> (r: bool)
    ensures
        r == crate::constraints::integer_bound_wf(*bound),
{
    match bound {
        Some(b) => is_canonical(b.as_str()),
        None => true,
    }
}

proof fn lemma_bound_text(bound: Option<String>)
    requires
        crate::constraints::integer_bound_wf(bound),
    ensures
        bound_text(bound) == opt_text(bound_value(bound)),
{
    if let Some(b) = bound {
        crate::integers::lemma_canonical_text(b@);
    }
}

fn put_keywords(out: &mut Vec<Token>, keys: &Vec<(&'static str, SchemaScalar)>)
    ensures
        tokens(final(out)@) == tokens(old(out)@) + keyword_tokens(keywords_view(keys@)),
{
    let ghost start = tokens(out@);
    let ghost kv = keywords_view(keys@);
    let mut i: usize = 0;
    assert(kv.take(0) =~= Seq::<(Seq<char>, ScalarView)>::empty());
    assert(tokens(out@) =~= start + keyword_tokens(kv.take(0)));
    while i < keys.len()
        invariant
            i <= keys@.len(),
            kv == keywords_view(keys@),
            tokens(out@) == start + keyword_tokens(kv.take(i as int)),
        decreases keys@.len() - i,
    {
        let ghost mid = tokens(out@);
        put_key(out, keys[i].0);
        match &keys[i].1 {
            SchemaScalar::Text(t) => put_text(out, t.as_str()),
            SchemaScalar::Number(n) => put(out, Token::Number(owned(n.as_str()))),
        }
        proof {
            assert(kv.take(i + 1).drop_last() =~= kv.take(i as int));
            assert(kv.take(i + 1).last() == kv[i as int]);
            assert(tokens(out@) =~= start + keyword_tokens(kv.take(i + 1)));
        }
        i = i + 1;
    }
    proof {
        assert(kv.take(keys@.len() as int) =~= kv);
    }
}

/// Writes the JSON Schema of an integer, as `spec_integer` says.
fn put_integer(
    out: &mut Vec<Token>,
    target: IntegerTarget,
    c: &IntegerConstraints,
    mode: JsonSchemaMode,
    profile: JsonIntegerProfile,
) -> (r: Result<(), JsonSchemaError>)
    ensures
        match spec_integer(target, *c, mode, profile) {
            Ok(t) => r is Ok && tokens(final(out)@) == tokens(old(out)@) + t,
            Err(e) => r matches Err(x) && x@ == e,
        },
{
    let ghost before = tokens(out@);
    if !(bound_is_canonical(&c.greater_than) && bound_is_canonical(&c.greater_or_equal) && bound_is_canonical(
        &c.less_than,
    ) && bound_is_canonical(&c.less_or_equal) && bound_is_canonical(&c.multiple_of)) {
        return Err(fault(JsonSchemaErrorKind::InvalidNumber, "integer constraint is not a canonical integer"));
    }
    if let Some(step) = &c.multiple_of {
        proof {
            reveal_strlit("0");
            assert(integer_value("0"@) == 0) by {
                assert("0"@ =~= seq!['0']);
                reveal_with_fuel(crate::integers::digits_value, 2);
            }
            assert(canonical_integer("0"@)) by {
                assert("0"@ =~= seq!['0']);
            }
        }
        if compare_integers(step.as_str(), "0") != Order::Greater {
            return Err(fault(JsonSchemaErrorKind::InvalidNumber, "integer multipleOf must be greater than zero"));
        }
    }
    let (lo, hi) = integer_bounds(target, c);
    proof {
        lemma_bound_text(lo);
        lemma_bound_text(hi);
    }
    let keys = integer_schema(mode, profile, &lo, &hi, &c.multiple_of)?;
    put(out, Token::BeginObject);
    put_keywords(out, &keys);
    put(out, Token::EndObject);
    proof {
        assert(tokens(out@) =~= before + spec_integer(target, *c, mode, profile)->Ok_0);
    }
    Ok(())
}

fn bad_step_bits(bits: u64) -> (r: bool)
    ensures
        r == bad_float_step(bits),
{
    !is_finite_bits(bits) || (bits >> 63u64) == 1u64 || bits == 0u64
}

/// Writes the JSON Schema of a double, as `spec_float` says.
fn put_float(out: &mut Vec<Token>, c: &FloatConstraints) -> (r: Result<(), JsonSchemaError>)
    ensures
        match spec_float(*c) {
            Ok(t) => r is Ok && tokens(final(out)@) == tokens(old(out)@) + t,
            Err(e) => r matches Err(x) && x@ == e,
        },
{
    let ghost before = tokens(out@);
    put_typed(out, "number");
    put_double(out, "exclusiveMinimum", c.greater_than)?;
    put_double(out, "minimum", c.greater_or_equal)?;
    put_double(out, "exclusiveMaximum", c.less_than)?;
    put_double(out, "maximum", c.less_or_equal)?;
    let ghost obj = tokens(out@).subrange(before.len() as int, tokens(out@).len() as int);
    proof {
        assert(tokens(out@) =~= before + obj);
    }
    if let Some(step) = c.multiple_of {
        if bad_step_bits(step) {
            return Err(
                fault(
                    JsonSchemaErrorKind::InvalidNumber,
                    "floating-point multipleOf must be finite and greater than zero",
                ),
            );
        }
    }
    put_double(out, "multipleOf", c.multiple_of)?;
    put(out, Token::EndObject);
    proof {
        assert(tokens(out@) =~= before + spec_float(*c)->Ok_0);
    }
    Ok(())
}

/// Writes the JSON Schema of a complex number, as `spec_complex` says.
fn put_complex(out: &mut Vec<Token>, c: &ComplexConstraints, mode: JsonSchemaMode) -> (r: Result<
    (),
    JsonSchemaError,
>)
    ensures
        match spec_complex(*c, mode) {
            Ok(t) => r is Ok && tokens(final(out)@) == tokens(old(out)@) + t,
            Err(e) => r matches Err(x) && x@ == e,
        },
{
    let ghost before = tokens(out@);
    let validation = mode == JsonSchemaMode::Validation;
    if validation {
        put(out, Token::BeginObject);
        put_key(out, "anyOf");
        put(out, Token::BeginArray);
        put_typed(out, "number");
        put(out, Token::EndObject);
    }
    let ghost head = tokens(out@);
    put_typed(out, "string");
    put_key(out, "format");
    put_text(out, "complex");
    put_key(out, "x-sifr-allow-non-finite");
    put(out, Token::Bool(c.allow_non_finite));
    put_double(out, "x-sifr-magnitude-minimum", c.magnitude_greater_or_equal)?;
    put_double(out, "x-sifr-magnitude-maximum", c.magnitude_less_or_equal)?;
    put(out, Token::EndObject);
    if validation {
        put(out, Token::EndArray);
        put(out, Token::EndObject);
    }
    proof {
        assert(tokens(out@) =~= before + spec_complex(*c, mode)->Ok_0);
    }
    Ok(())
}

fn put_fraction_text(out: &mut Vec<Token>, key: &str, value: &Option<Fraction>)
    ensures
        tokens(final(out)@) == tokens(old(out)@) + fraction_text_member(key@, *value),
{
    let ghost before = tokens(out@);
    if let Some(f) = value {
        put_key(out, key);
        put_text(out, f.text());
    }
    proof {
        assert(tokens(out@) =~= before + fraction_text_member(key@, *value));
    }
}

fn put_exact_double(out: &mut Vec<Token>, key: &str, numerator: &str, denominator: &str) -> (r: Result<
    (),
    JsonSchemaError,
>)
    requires
        canonical_integer(numerator@),
        canonical_integer(denominator@),
        integer_value(denominator@) > 0,
    ensures
        match exact_double_member(key@, Some((numerator@, denominator@))) {
            Ok(t) => r is Ok && tokens(final(out)@) == tokens(old(out)@) + t,
            Err(e) => r matches Err(x) && x@ == e,
        },
{
    let ghost before = tokens(out@);
    match rational_as_double(numerator, denominator) {
        None => Err(
            fault(JsonSchemaErrorKind::InvalidNumber, "fraction constraint cannot be represented as a finite JSON number"),
        ),
        Some((bits, back)) => {
            let same = match &back {
                Some((n, d)) => crate::text::str_equal(n.as_str(), numerator) && crate::text::str_equal(
                    d.as_str(),
                    denominator,
                ),
                None => false,
            };
            if same {
                put_double(out, key, Some(bits))
            } else {
                proof {
                    assert(tokens(out@) =~= before + Seq::<TokenView>::empty());
                }
                Ok(())
            }
        },
    }
}

/// The digits of a canonical integer text without its minus sign.
fn magnitude_text(text: &str) -> (r: String)
    requires
        canonical_integer(text@),
    ensures
        r@ == (if text@.len() > 0 && text@[0] == '-' {
            text@.drop_first()
        } else {
            text@
        }),
        canonical_integer(r@),
{
    let n = text.unicode_len();
    let ghost t = text@;
    let negative = n > 0 && text.get_char(0) == '-';
    let mut out = String::new();
    let mut i: usize = if negative { 1 } else { 0 };
    let ghost first = i as int;
    while i < n
        invariant
            t == text@,
            n == t.len(),
            0 <= first <= i <= n,
            out@ == t.subrange(first, i as int),
        decreases n - i,
    {
        let c = text.get_char(i);
        let ghost before_out = out@;
        crate::text::push_char(&mut out, c);
        proof {
            assert(c == t[i as int]);
            assert(out@ == before_out.push(c));
            assert(t.subrange(first, i + 1) =~= t.subrange(first, i as int).push(c));
        }
        i = i + 1;
    }
    proof {
        if negative {
            assert(t.subrange(1, n as int) =~= t.drop_first());
            assert(crate::scalars::integer_digits(t) == t.drop_first());
            let d = t.drop_first();
            assert(crate::scalars::integer_digits(d) == d);
            assert(d != seq!['-', '0']);
        } else {
            assert(t.subrange(0, n as int) =~= t);
        }
    }
    out
}

/// The number alternative of a fraction's JSON Schema.
pub open spec fn fraction_number(c: FractionConstraints) -> Result<Seq<TokenView>, SchemaFault> {
    join(
        join(
            join(
                join(
                    join(
                        Ok(typed("number"@)),
                        exact_double_member("exclusiveMinimum"@, fraction_parts(c.greater_than)),
                    ),
                    exact_double_member("minimum"@, fraction_parts(c.greater_or_equal)),
                ),
                exact_double_member("exclusiveMaximum"@, fraction_parts(c.less_than)),
            ),
            exact_double_member("maximum"@, fraction_parts(c.less_or_equal)),
        ),
        join(exact_double_member("multipleOf"@, magnitude_parts(c.multiple_of)), Ok(seq![TokenView::EndObject])),
    )
}

fn put_exact_part(
    out: &mut Vec<Token>,
    key: &str,
    value: &Option<Fraction>,
    magnitude: bool,
    Ghost(done): Ghost<Result<Seq<TokenView>, SchemaFault>>,
    Ghost(start): Ghost<Seq<TokenView>>,
) -> (r: Result<(), JsonSchemaError>)
    requires
        done matches Ok(d) && tokens(old(out)@) == start + d,
    ensures
        ({
            let parts = if magnitude {
                magnitude_parts(*value)
            } else {
                fraction_parts(*value)
            };
            match join(done, exact_double_member(key@, parts)) {
                Ok(t) => r is Ok && tokens(final(out)@) == start + t,
                Err(e) => r matches Err(x) && x@ == e,
            }
        }),
{
    let ghost before = tokens(out@);
    if let Some(f) = value {
        if magnitude {
            let m = magnitude_text(f.numerator());
            put_exact_double(out, key, m.as_str(), f.denominator())?;
        } else {
            put_exact_double(out, key, f.numerator(), f.denominator())?;
        }
    }
    proof {
        let parts = if magnitude {
            magnitude_parts(*value)
        } else {
            fraction_parts(*value)
        };
        let m = exact_double_member(key@, parts)->Ok_0;
        assert(tokens(out@) =~= start + (done->Ok_0 + m));
    }
    Ok(())
}

fn put_fraction_number(out: &mut Vec<Token>, c: &FractionConstraints) -> (r: Result<(), JsonSchemaError>)
    ensures
        match fraction_number(*c) {
            Ok(t) => r is Ok && tokens(final(out)@) == tokens(old(out)@) + t,
            Err(e) => r matches Err(x) && x@ == e,
        },
{
    let ghost before = tokens(out@);
    put_typed(out, "number");
    let ghost p0: Result<Seq<TokenView>, SchemaFault> = Ok(typed("number"@));
    let ghost p1 = join(p0, exact_double_member("exclusiveMinimum"@, fraction_parts(c.greater_than)));
    let ghost p2 = join(p1, exact_double_member("minimum"@, fraction_parts(c.greater_or_equal)));
    let ghost p3 = join(p2, exact_double_member("exclusiveMaximum"@, fraction_parts(c.less_than)));
    let ghost p4 = join(p3, exact_double_member("maximum"@, fraction_parts(c.less_or_equal)));
    let ghost p5 = join(p4, exact_double_member("multipleOf"@, magnitude_parts(c.multiple_of)));
    proof {
        assert(tokens(out@) == before + p0->Ok_0);
    }
    put_exact_part(out, "exclusiveMinimum", &c.greater_than, false, Ghost(p0), Ghost(before))?;
    put_exact_part(out, "minimum", &c.greater_or_equal, false, Ghost(p1), Ghost(before))?;
    put_exact_part(out, "exclusiveMaximum", &c.less_than, false, Ghost(p2), Ghost(before))?;
    put_exact_part(out, "maximum", &c.less_or_equal, false, Ghost(p3), Ghost(before))?;
    put_exact_part(out, "multipleOf", &c.multiple_of, true, Ghost(p4), Ghost(before))?;
    put(out, Token::EndObject);
    proof {
        assert(fraction_number(*c) == join(p4, join(exact_double_member("multipleOf"@, magnitude_parts(c.multiple_of)), Ok(seq![TokenView::EndObject]))));
        assert(tokens(out@) =~= before + fraction_number(*c)->Ok_0);
    }
    Ok(())
}

fn put_fraction_text_object(out: &mut Vec<Token>, c: &FractionConstraints)
    ensures
        tokens(final(out)@) == tokens(old(out)@) + fraction_text_object(*c),
{
    let ghost before = tokens(out@);
    put_typed(out, "string");
    put_key(out, "format");
    put_text(out, "fraction");
    put_fraction_text(out, "x-sifr-exclusive-minimum", &c.greater_than);
    put_fraction_text(out, "x-sifr-minimum", &c.greater_or_equal);
    put_fraction_text(out, "x-sifr-exclusive-maximum", &c.less_than);
    put_fraction_text(out, "x-sifr-maximum", &c.less_or_equal);
    put_fraction_text(out, "x-sifr-multiple-of", &c.multiple_of);
    put(out, Token::EndObject);
    proof {
        assert(tokens(out@) =~= before + fraction_text_object(*c));
    }
}

/// Writes the JSON Schema of a fraction, as `spec_fraction` says.
#[verifier::rlimit(60)]
fn put_fraction(out: &mut Vec<Token>, c: &FractionConstraints, mode: JsonSchemaMode) -> (r: Result<
    (),
    JsonSchemaError,
>)
    ensures
        match spec_fraction(*c, mode) {
            Ok(t) => r is Ok && tokens(final(out)@) == tokens(old(out)@) + t,
            Err(e) => r matches Err(x) && x@ == e,
        },
{
    let ghost before = tokens(out@);
    if let Some(step) = &c.multiple_of {
        if crate::text::str_equal(step.numerator(), "0") {
            return Err(fault(JsonSchemaErrorKind::InvalidNumber, "fraction multipleOf must not be zero"));
        }
    }
    let validation = mode == JsonSchemaMode::Validation;
    if validation {
        put(out, Token::BeginObject);
        put_key(out, "anyOf");
        put(out, Token::BeginArray);
        put_fraction_number(out, c)?;
    }
    put_fraction_text_object(out, c);
    if validation {
        put(out, Token::EndArray);
        put(out, Token::EndObject);
    }
    proof {
        assert(tokens(out@) =~= before + spec_fraction(*c, mode)->Ok_0);
    }
    Ok(())
}

// ---------------------------------------------------------------------------
// Generating
// ---------------------------------------------------------------------------

proof fn lemma_items_error_stays(
    items: Seq<Schema>,
    k: nat,
    n: nat,
    options: JsonSchemaOptions,
    profile: JsonIntegerProfile,
    depth: nat,
)
    requires
        k <= n <= items.len(),
        spec_items(items, k, options, profile, depth) is Err,
    ensures
        spec_items(items, n, options, profile, depth) == spec_items(items, k, options, profile, depth),
    decreases n - k,
{
    if k < n {
        lemma_items_error_stays(items, k, (n - 1) as nat, options, profile, depth);
    }
}

proof fn lemma_definitions_error_stays(
    defs: Seq<(String, Schema)>,
    k: nat,
    n: nat,
    options: JsonSchemaOptions,
    profile: JsonIntegerProfile,
    depth: nat,
)
    requires
        k <= n <= defs.len(),
        spec_definitions(defs, k, options, profile, depth) is Err,
    ensures
        spec_definitions(defs, n, options, profile, depth) == spec_definitions(defs, k, options, profile, depth),
    decreases n - k,
{
    if k < n {
        lemma_definitions_error_stays(defs, k, (n - 1) as nat, options, profile, depth);
    }
}

proof fn lemma_fields_error_stays(
    fields: Seq<ModelField>,
    k: nat,
    n: nat,
    populate_by_name: bool,
    options: JsonSchemaOptions,
    profile: JsonIntegerProfile,
    depth: nat,
)
    requires
        k <= n <= fields.len(),
        spec_fields(fields, k, populate_by_name, options, profile, depth) is Err,
    ensures
        spec_fields(fields, n, populate_by_name, options, profile, depth) == spec_fields(
            fields,
            k,
            populate_by_name,
            options,
            profile,
            depth,
        ),
    decreases n - k,
{
    if k < n {
        lemma_fields_error_stays(fields, k, (n - 1) as nat, populate_by_name, options, profile, depth);
    }
}

/// Writes the JSON Schemas of items one after another, as `spec_items`
/// says.
fn gen_items(
    items: &Vec<Schema>,
    options: JsonSchemaOptions,
    profile: JsonIntegerProfile,
    depth: usize,
    out: &mut Vec<Token>,
) -> (r: Result<(), JsonSchemaError>)
    ensures
        match spec_items(items@, items@.len(), options, profile, depth as nat) {
            Ok(t) => r is Ok && tokens(final(out)@) == tokens(old(out)@) + t,
            Err(e) => r matches Err(x) && x@ == e,
        },
    decreases items, 0nat,
{
    let ghost start = tokens(out@);
    let mut i: usize = 0;
    assert(tokens(out@) =~= start + Seq::<TokenView>::empty());
    while i < items.len()
        invariant
            i <= items@.len(),
            spec_items(items@, i as nat, options, profile, depth as nat) matches Ok(done) && tokens(out@) == start
                + done,
        decreases items@.len() - i,
    {
        let ghost done = spec_items(items@, i as nat, options, profile, depth as nat)->Ok_0;
        match generate_node(&items[i], options, profile, depth, out) {
            Ok(()) => {
                proof {
                    let t = spec_generate(items@[i as int], options, profile, depth as nat)->Ok_0;
                    assert(tokens(out@) =~= start + (done + t));
                }
            },
            Err(e) => {
                proof {
                    lemma_items_error_stays(items@, (i + 1) as nat, items@.len(), options, profile, depth as nat);
                }
                return Err(e);
            },
        }
        i = i + 1;
    }
    Ok(())
}

/// Writes definitions as object members, as `spec_definitions` says.
fn gen_definitions(
    defs: &Vec<(String, Schema)>,
    options: JsonSchemaOptions,
    profile: JsonIntegerProfile,
    depth: usize,
    out: &mut Vec<Token>,
) -> (r: Result<(), JsonSchemaError>)
    ensures
        match spec_definitions(defs@, defs@.len(), options, profile, depth as nat) {
            Ok(t) => r is Ok && tokens(final(out)@) == tokens(old(out)@) + t,
            Err(e) => r matches Err(x) && x@ == e,
        },
    decreases defs, 0nat,
{
    let ghost start = tokens(out@);
    let mut i: usize = 0;
    assert(tokens(out@) =~= start + Seq::<TokenView>::empty());
    while i < defs.len()
        invariant
            i <= defs@.len(),
            spec_definitions(defs@, i as nat, options, profile, depth as nat) matches Ok(done) && tokens(out@)
                == start + done,
        decreases defs@.len() - i,
    {
        let ghost done = spec_definitions(defs@, i as nat, options, profile, depth as nat)->Ok_0;
        put_key(out, defs[i].0.as_str());
        match generate_node(&defs[i].1, options, profile, depth, out) {
            Ok(()) => {
                proof {
                    let t = spec_generate(defs@[i as int].1, options, profile, depth as nat)->Ok_0;
                    assert(tokens(out@) =~= start + (done + (seq![TokenView::Key(defs@[i as int].0@)] + t)));
                }
            },
            Err(e) => {
                proof {
                    lemma_definitions_error_stays(defs@, (i + 1) as nat, defs@.len(), options, profile, depth as nat);
                }
                return Err(e);
            },
        }
        i = i + 1;
    }
    Ok(())
}

/// Writes the properties of a model's fields and collects the required
/// names, as `spec_fields` says.
fn gen_fields(
    fields: &Vec<ModelField>,
    populate_by_name: bool,
    options: JsonSchemaOptions,
    profile: JsonIntegerProfile,
    depth: usize,
    out: &mut Vec<Token>,
) -> (r: Result<Vec<String>, JsonSchemaError>)
    ensures
        match spec_fields(fields@, fields@.len(), populate_by_name, options, profile, depth as nat) {
            Ok((props, required, _)) => r matches Ok(names) && tokens(final(out)@) == tokens(old(out)@) + props
                && names@.map_values(|n: String| n@) == required,
            Err(e) => r matches Err(x) && x@ == e,
        },
    decreases fields, 0nat,
{
    let ghost start = tokens(out@);
    let mut required: Vec<String> = Vec::new();
    let mut seen: Vec<String> = Vec::new();
    let mut i: usize = 0;
    assert(tokens(out@) =~= start + Seq::<TokenView>::empty());
    assert(required@.map_values(|n: String| n@) =~= Seq::<Seq<char>>::empty());
    assert(seen@.map_values(|n: String| n@) =~= Seq::<Seq<char>>::empty());
    while i < fields.len()
        invariant
            i <= fields@.len(),
            spec_fields(fields@, i as nat, populate_by_name, options, profile, depth as nat) matches Ok(
                (props, req, sn),
            ) && tokens(out@) == start + props && required@.map_values(|n: String| n@) == req
                && seen@.map_values(|n: String| n@) == sn,
        decreases fields@.len() - i,
    {
        let ghost prev = spec_fields(fields@, i as nat, populate_by_name, options, profile, depth as nat)->Ok_0;
        let f = &fields[i];
        if options.mode == JsonSchemaMode::Validation && !f.input {
            i = i + 1;
            continue;
        }
        let name = match model_field_name(
            populate_by_name,
            f.name,
            f.serialization_alias,
            f.validation_aliases.as_slice(),
            options,
        ) {
            Ok(n) => n,
            Err(e) => {
                proof {
                    lemma_fields_error_stays(fields@, (i + 1) as nat, fields@.len(), populate_by_name, options, profile, depth as nat);
                }
                return Err(e);
            },
        };
        if contains_text(&seen, name) {
            proof {
                lemma_fields_error_stays(fields@, (i + 1) as nat, fields@.len(), populate_by_name, options, profile, depth as nat);
            }
            return Err(
                fault(
                    JsonSchemaErrorKind::UnsupportedSchema,
                    "model aliases produce duplicate JSON Schema property names",
                ),
            );
        }
        put_key(out, name);
        match generate_node(&f.schema, options, profile, depth, out) {
            Ok(()) => {},
            Err(e) => {
                proof {
                    lemma_fields_error_stays(fields@, (i + 1) as nat, fields@.len(), populate_by_name, options, profile, depth as nat);
                }
                return Err(e);
            },
        }
        let ghost rb = required@;
        let ghost sb = seen@;
        if options.mode == JsonSchemaMode::Serialization || !f.has_default {
            required.push(owned(name));
        }
        seen.push(owned(name));
        proof {
            let t = spec_generate(fields@[i as int].schema, options, profile, depth as nat)->Ok_0;
            assert(tokens(out@) =~= start + (prev.0 + seq![TokenView::Key(name@)] + t));
            assert(seen@.map_values(|n: String| n@) =~= sb.map_values(|n: String| n@).push(name@));
            if options.mode == JsonSchemaMode::Serialization || !fields@[i as int].has_default {
                assert(required@.map_values(|n: String| n@) =~= rb.map_values(|n: String| n@).push(name@));
            }
        }
        i = i + 1;
    }
    Ok(required)
}

fn put_names(out: &mut Vec<Token>, names: &Vec<String>)
    ensures
        tokens(final(out)@) == tokens(old(out)@) + text_tokens(names@.map_values(|n: String| n@)),
{
    let ghost start = tokens(out@);
    let ghost nv = names@.map_values(|n: String| n@);
    let mut i: usize = 0;
    assert(nv.take(0) =~= Seq::<Seq<char>>::empty());
    assert(tokens(out@) =~= start + text_tokens(nv.take(0)));
    while i < names.len()
        invariant
            i <= names@.len(),
            nv == names@.map_values(|n: String| n@),
            tokens(out@) == start + text_tokens(nv.take(i as int)),
        decreases names@.len() - i,
    {
        put_text(out, names[i].as_str());
        proof {
            assert(nv.take(i + 1).drop_last() =~= nv.take(i as int));
            assert(tokens(out@) =~= start + text_tokens(nv.take(i + 1)));
        }
        i = i + 1;
    }
    proof {
        assert(nv.take(names@.len() as int) =~= nv);
    }
}

fn is_object_tokens(t: &Vec<Token>) -> (r: bool)
    ensures
        r == is_object(tokens(t@)),
{
    if t.len() < 2 {
        return false;
    }
    let first = match &t[0] {
        Token::BeginObject => true,
        _ => false,
    };
    let last = match &t[t.len() - 1] {
        Token::EndObject => true,
        _ => false,
    };
    proof {
        assert(tokens(t@)[0] == t@[0]@);
        assert(tokens(t@).last() == t@[t@.len() - 1]@);
    }
    first && last
}

/// Writes the JSON Schema of a schema at a nesting depth, as
/// `spec_generate` says.
#[verifier::rlimit(100)]
#[verifier::spinoff_prover]
pub fn generate_node(
    schema: &Schema,
    options: JsonSchemaOptions,
    profile: JsonIntegerProfile,
    depth: usize,
    out: &mut Vec<Token>,
) -> (r: Result<(), JsonSchemaError>)
    ensures
        match spec_generate(*schema, options, profile, depth as nat) {
            Ok(t) => r is Ok && tokens(final(out)@) == tokens(old(out)@) + t,
            Err(e) => r matches Err(x) && x@ == e,
        },
    decreases schema, 3nat,
{
    let ghost before = tokens(out@);
    if depth > 256 {
        return Err(fault(JsonSchemaErrorKind::DepthLimit, "JSON Schema generation exceeded the static schema depth limit"));
    }
    let mode = options.mode;
    let validation = mode == JsonSchemaMode::Validation;
    let d = depth + 1;
    match schema {
        Schema::Null => {
            put_typed(out, "null");
            put(out, Token::EndObject);
        },
        Schema::Bool => {
            put_typed(out, "boolean");
            put(out, Token::EndObject);
        },
        Schema::Integer { target, constraints } => {
            return put_integer(out, *target, constraints, mode, profile);
        },
        Schema::Float(c) => {
            return put_float(out, c);
        },
        Schema::Decimal(_) => {
            return Err(
                fault(JsonSchemaErrorKind::UnsupportedSchema, "decimal JSON Schema representation is not implemented"),
            );
        },
        Schema::Fraction(c) => {
            return put_fraction(out, c, mode);
        },
        Schema::Complex(c) => {
            return put_complex(out, c, mode);
        },
        Schema::String(c) => {
            put_typed(out, "string");
            put_usize(out, "minLength", c.min_length);
            put_usize(out, "maxLength", c.max_length);
            let ghost mid = tokens(out@);
            if let Some(p) = &c.pattern {
                put_key(out, "pattern");
                put_text(out, p.source());
            }
            put(out, Token::EndObject);
        },
        Schema::Bytes(_) => {
            return Err(fault(JsonSchemaErrorKind::UnsupportedSchema, "byte JSON Schema representation is not implemented"));
        },
        Schema::Temporal(t) => {
            if !validation {
                return Err(
                    fault(
                        JsonSchemaErrorKind::UnsupportedSchema,
                        "temporal serialization JSON Schema needs a matching output policy",
                    ),
                );
            }
            put_typed(out, "string");
            put_key(out, "format");
            put_text(
                out,
                match t.kind {
                    TemporalKind::Date => "date",
                    TemporalKind::Time => "time",
                    TemporalKind::DateTime => "date-time",
                    TemporalKind::Duration => "duration",
                },
            );
            put(out, Token::EndObject);
        },
        Schema::Uuid { version } => {
            if !validation {
                return Err(
                    fault(
                        JsonSchemaErrorKind::UnsupportedSchema,
                        "UUID serialization JSON Schema needs a matching output policy",
                    ),
                );
            }
            put_typed(out, "string");
            put_key(out, "format");
            put_text(out, "uuid");
            if let Some(v) = version {
                put_key(out, "x-sifr-uuid-version");
                put(out, Token::Number(u64_text(*v as u64)));
            }
            put(out, Token::EndObject);
        },
        Schema::Url(c) => {
            put_typed(out, "string");
            put_key(out, "format");
            put_text(out, "uri");
            put_usize(out, "maxLength", c.max_length);
            put(out, Token::EndObject);
        },
        Schema::Pattern(_) => {
            if !validation {
                return Err(
                    fault(
                        JsonSchemaErrorKind::UnsupportedSchema,
                        "pattern serialization JSON Schema needs a matching output policy",
                    ),
                );
            }
            put_typed(out, "string");
            put_key(out, "format");
            put_text(out, "regex");
            put(out, Token::EndObject);
        },
        Schema::Literal(values) => {
            return put_literal(out, values, mode, profile);
        },
        Schema::Enum(e) => {
            return put_literal(out, &e.inputs, mode, profile);
        },
        _ => {
            return generate_compound(schema, options, profile, depth, out);
        },
    }
    proof {
        assert(tokens(out@) =~= before + spec_generate(*schema, options, profile, depth as nat)->Ok_0);
    }
    Ok(())
}

/// Writes the JSON Schema of a schema that holds other schemas, as
/// `spec_generate` says.
#[verifier::rlimit(100)]
#[verifier::spinoff_prover]
fn generate_compound(
    schema: &Schema,
    options: JsonSchemaOptions,
    profile: JsonIntegerProfile,
    depth: usize,
    out: &mut Vec<Token>,
) -> (r: Result<(), JsonSchemaError>)
    requires
        depth <= 256,
        is_compound(*schema),
    ensures
        match spec_generate(*schema, options, profile, depth as nat) {
            Ok(t) => r is Ok && tokens(final(out)@) == tokens(old(out)@) + t,
            Err(e) => r matches Err(x) && x@ == e,
        },
    decreases schema, 2nat,
{
    proof {
        assert(spec_generate(*schema, options, profile, depth as nat) == spec_compound(*schema, options, profile, depth as nat));
    }
    match schema {
        Schema::Definitions { .. } => {
            return gen_definitions_node(schema, options, profile, depth, out);
        },
        Schema::Model(_) => {
            return gen_model_node(schema, options, profile, depth, out);
        },
        Schema::Tuple(_) => {
            return gen_tuple_node(schema, options, profile, depth, out);
        },
        Schema::Mapping { .. } => {
            return gen_mapping_node(schema, options, profile, depth, out);
        },
        Schema::List { .. } | Schema::MutableSet { .. } | Schema::FrozenSet { .. } | Schema::Generator { .. } => {
            return gen_collection_node(schema, options, profile, depth, out);
        },
        _ => {
            return gen_wrapper_node(schema, options, profile, depth, out);
        },
    }
}

#[verifier::rlimit(100)]
#[verifier::spinoff_prover]
fn gen_wrapper_node(
    schema: &Schema,
    options: JsonSchemaOptions,
    profile: JsonIntegerProfile,
    depth: usize,
    out: &mut Vec<Token>,
) -> (r: Result<(), JsonSchemaError>)
    requires
        depth <= 256,
        schema is Nullable || schema is Union || schema is TaggedUnion || schema is DefinitionRef || schema is EmbeddedJson || schema is LaxOrStrict || schema is JsonOrStructural || schema is Chain,
    ensures
        match spec_generate(*schema, options, profile, depth as nat) {
            Ok(t) => r is Ok && tokens(final(out)@) == tokens(old(out)@) + t,
            Err(e) => r matches Err(x) && x@ == e,
        },
    decreases schema, 1nat,
{
    proof {
        assert(spec_generate(*schema, options, profile, depth as nat) == spec_compound(*schema, options, profile, depth as nat));
    }
    let ghost before = tokens(out@);
    let mode = options.mode;
    let validation = mode == JsonSchemaMode::Validation;
    let d = depth + 1;
    match schema {
        Schema::Nullable(inner) => {
            put(out, Token::BeginObject);
            put_key(out, "anyOf");
            put(out, Token::BeginArray);
            generate_node(inner, options, profile, d, out)?;
            put_typed(out, "null");
            put(out, Token::EndObject);
            put(out, Token::EndArray);
            put(out, Token::EndObject);
        },
        Schema::Union(choices) => {
            put(out, Token::BeginObject);
            put_key(out, "anyOf");
            put(out, Token::BeginArray);
            gen_items(choices, options, profile, d, out)?;
            put(out, Token::EndArray);
            put(out, Token::EndObject);
        },
        Schema::TaggedUnion(choices) => {
            put(out, Token::BeginObject);
            put_key(out, "oneOf");
            put(out, Token::BeginArray);
            gen_items(choices, options, profile, d, out)?;
            put(out, Token::EndArray);
            put(out, Token::EndObject);
        },
        Schema::DefinitionRef { name } => {
            let mut target = owned("#/$defs/");
            let escaped = escape_json_pointer(name.as_str());
            target.append(escaped.as_str());
            put(out, Token::BeginObject);
            put_key(out, "$ref");
            put(out, Token::Text(target));
            put(out, Token::EndObject);
        },
        Schema::EmbeddedJson(inner) => {
            if validation {
                put_typed(out, "string");
                put_key(out, "contentMediaType");
                put_text(out, "application/json");
                put_key(out, "contentSchema");
                generate_node(inner, options, profile, d, out)?;
                put(out, Token::EndObject);
            } else {
                return generate_node(inner, options, profile, d, out);
            }
        },
        Schema::LaxOrStrict { lax, strict } => {
            return generate_node(if validation { lax } else { strict }, options, profile, d, out);
        },
        Schema::JsonOrStructural { json, structural } => {
            return generate_node(if validation { json } else { structural }, options, profile, d, out);
        },
        Schema::Chain(steps) => {
            if steps.len() == 0 {
                return Err(
                    fault(JsonSchemaErrorKind::UnsupportedSchema, "empty typed chain has no JSON Schema representation"),
                );
            }
            let chosen = if validation { &steps[0] } else { &steps[steps.len() - 1] };
            return generate_node(chosen, options, profile, d, out);
        },
        _ => {
            proof {
                assert(false);
            }
            return Err(fault(JsonSchemaErrorKind::UnsupportedSchema, "schema kind is not supported"));
        },
    }
    proof {
        assert(tokens(out@) =~= before + spec_generate(*schema, options, profile, depth as nat)->Ok_0);
    }
    Ok(())
}

#[verifier::rlimit(100)]
#[verifier::spinoff_prover]
fn gen_collection_node(
    schema: &Schema,
    options: JsonSchemaOptions,
    profile: JsonIntegerProfile,
    depth: usize,
    out: &mut Vec<Token>,
) -> (r: Result<(), JsonSchemaError>)
    requires
        depth <= 256,
        schema is List || schema is MutableSet || schema is FrozenSet || schema is Generator,
    ensures
        match spec_generate(*schema, options, profile, depth as nat) {
            Ok(t) => r is Ok && tokens(final(out)@) == tokens(old(out)@) + t,
            Err(e) => r matches Err(x) && x@ == e,
        },
    decreases schema, 1nat,
{
    proof {
        assert(spec_generate(*schema, options, profile, depth as nat) == spec_compound(*schema, options, profile, depth as nat));
    }
    let ghost before = tokens(out@);
    let mode = options.mode;
    let validation = mode == JsonSchemaMode::Validation;
    let d = depth + 1;
    match schema {
        Schema::List { item, constraints } => {
            return gen_array(item, constraints, false, options, profile, d, out);
        },
        Schema::MutableSet { item, constraints } => {
            return gen_array(item, constraints, true, options, profile, d, out);
        },
        Schema::FrozenSet { item, constraints } => {
            return gen_array(item, constraints, true, options, profile, d, out);
        },
        Schema::Generator { item, constraints } => {
            return gen_array(item, constraints, false, options, profile, d, out);
        },
        _ => {
            proof {
                assert(false);
            }
            return Err(fault(JsonSchemaErrorKind::UnsupportedSchema, "schema kind is not supported"));
        },
    }
    proof {
        assert(tokens(out@) =~= before + spec_generate(*schema, options, profile, depth as nat)->Ok_0);
    }
    Ok(())
}


fn gen_array(
    item: &Schema,
    c: &CollectionConstraints,
    unique: bool,
    options: JsonSchemaOptions,
    profile: JsonIntegerProfile,
    depth: usize,
    out: &mut Vec<Token>,
) -> (r: Result<(), JsonSchemaError>)
    ensures
        match spec_array(*item, *c, unique, options, profile, depth as nat) {
            Ok(t) => r is Ok && tokens(final(out)@) == tokens(old(out)@) + t,
            Err(e) => r matches Err(x) && x@ == e,
        },
    decreases item, 4nat,
{
    let ghost before = tokens(out@);
    put_typed(out, "array");
    put_key(out, "items");
    generate_node(item, options, profile, depth, out)?;
    put_usize(out, "minItems", c.min_length);
    put_usize(out, "maxItems", c.max_length);
    if unique {
        put_key(out, "uniqueItems");
        put(out, Token::Bool(true));
    }
    put(out, Token::EndObject);
    proof {
        assert(tokens(out@) =~= before + spec_array(*item, *c, unique, options, profile, depth as nat)->Ok_0);
    }
    Ok(())
}

#[verifier::rlimit(100)]
fn gen_definitions_node(
    schema: &Schema,
    options: JsonSchemaOptions,
    profile: JsonIntegerProfile,
    depth: usize,
    out: &mut Vec<Token>,
) -> (r: Result<(), JsonSchemaError>)
    requires
        depth <= 256,
        schema is Definitions,
    ensures
        match spec_generate(*schema, options, profile, depth as nat) {
            Ok(t) => r is Ok && tokens(final(out)@) == tokens(old(out)@) + t,
            Err(e) => r matches Err(x) && x@ == e,
        },
    decreases schema, 1nat,
{
    proof {
        assert(spec_generate(*schema, options, profile, depth as nat) == spec_compound(*schema, options, profile, depth as nat));
        assert(spec_compound(*schema, options, profile, depth as nat) == spec_definitions_node(*schema, options, profile, depth as nat));
    }
    let ghost before = tokens(out@);
    let mode = options.mode;
    let validation = mode == JsonSchemaMode::Validation;
    let d = depth + 1;
    match schema {
        Schema::Definitions { definitions, root } => {
            if depth != 0 {
                return Err(
                    fault(
                        JsonSchemaErrorKind::UnsupportedSchema,
                        "nested definition scopes do not have an exact JSON Schema reference base",
                    ),
                );
            }
            let mut defs: Vec<Token> = Vec::new();
            gen_definitions(definitions, options, profile, d, &mut defs)?;
            let mut rooted: Vec<Token> = Vec::new();
            generate_node(root, options, profile, d, &mut rooted)?;
            proof {
                assert(tokens(defs@) =~= Seq::<TokenView>::empty() + tokens(defs@));
            }
            if !is_object_tokens(&rooted) {
                return Err(fault(JsonSchemaErrorKind::UnsupportedSchema, "definition root is not a JSON Schema object"));
            }
            let ghost rt = tokens(rooted@);
            rooted.pop();
            proof {
                assert(tokens(rooted@) =~= rt.drop_last());
            }
            put_all(out, rooted);
            put_key(out, "$defs");
            put(out, Token::BeginObject);
            put_all(out, defs);
            put(out, Token::EndObject);
            put(out, Token::EndObject);
        },
        _ => {
            proof {
                assert(false);
            }
            return Err(fault(JsonSchemaErrorKind::UnsupportedSchema, "schema kind is not supported"));
        },
    }
    proof {
        assert(tokens(out@) =~= before + spec_generate(*schema, options, profile, depth as nat)->Ok_0);
    }
    Ok(())
}

fn gen_additional(
    extra: &ExtraPolicy,
    options: JsonSchemaOptions,
    profile: JsonIntegerProfile,
    depth: usize,
    out: &mut Vec<Token>,
) -> (r: Result<(), JsonSchemaError>)
    ensures
        match spec_additional(*extra, options, profile, depth as nat) {
            Ok(t) => r is Ok && tokens(final(out)@) == tokens(old(out)@) + t,
            Err(e) => r matches Err(x) && x@ == e,
        },
    decreases extra, 0nat,
{
    let ghost before = tokens(out@);
    let validation = options.mode == JsonSchemaMode::Validation;
    match extra {
        ExtraPolicy::Allow(value) => {
            if validation {
                return generate_node(value, options, profile, depth, out);
            }
            put(out, Token::Bool(false));
        },
        ExtraPolicy::Forbid => put(out, Token::Bool(false)),
        ExtraPolicy::Ignore => put(out, Token::Bool(validation)),
    }
    proof {
        assert(tokens(out@) =~= before + spec_additional(*extra, options, profile, depth as nat)->Ok_0);
    }
    Ok(())
}

#[verifier::rlimit(100)]
fn gen_model_node(
    schema: &Schema,
    options: JsonSchemaOptions,
    profile: JsonIntegerProfile,
    depth: usize,
    out: &mut Vec<Token>,
) -> (r: Result<(), JsonSchemaError>)
    requires
        depth <= 256,
        schema is Model,
    ensures
        match spec_generate(*schema, options, profile, depth as nat) {
            Ok(t) => r is Ok && tokens(final(out)@) == tokens(old(out)@) + t,
            Err(e) => r matches Err(x) && x@ == e,
        },
    decreases schema, 1nat,
{
    proof {
        assert(spec_generate(*schema, options, profile, depth as nat) == spec_compound(*schema, options, profile, depth as nat));
        assert(spec_compound(*schema, options, profile, depth as nat) == spec_model_node(*schema, options, profile, depth as nat));
    }
    let ghost before = tokens(out@);
    let mode = options.mode;
    let validation = mode == JsonSchemaMode::Validation;
    let d = depth + 1;
    match schema {
        Schema::Model(m) => {
            put_typed(out, "object");
            put_key(out, "title");
            put_text(out, m.name);
            put_key(out, "properties");
            put(out, Token::BeginObject);
            let ghost head = tokens(out@);
            let required = gen_fields(&m.fields, m.populate_by_name, options, profile, d, out)?;
            let ghost fr = spec_fields(m.fields@, m.fields@.len(), m.populate_by_name, options, profile, d as nat)->Ok_0;
            put(out, Token::EndObject);
            put_key(out, "required");
            put(out, Token::BeginArray);
            put_names(out, &required);
            put(out, Token::EndArray);
            put_key(out, "additionalProperties");
            let ghost mid = tokens(out@);
            gen_additional(&m.extra, options, profile, d, out)?;
            put(out, Token::EndObject);
        },
        _ => {
            proof {
                assert(false);
            }
            return Err(fault(JsonSchemaErrorKind::UnsupportedSchema, "schema kind is not supported"));
        },
    }
    proof {
        assert(tokens(out@) =~= before + spec_generate(*schema, options, profile, depth as nat)->Ok_0);
    }
    Ok(())
}

#[verifier::rlimit(100)]
fn gen_tuple_node(
    schema: &Schema,
    options: JsonSchemaOptions,
    profile: JsonIntegerProfile,
    depth: usize,
    out: &mut Vec<Token>,
) -> (r: Result<(), JsonSchemaError>)
    requires
        depth <= 256,
        schema is Tuple,
    ensures
        match spec_generate(*schema, options, profile, depth as nat) {
            Ok(t) => r is Ok && tokens(final(out)@) == tokens(old(out)@) + t,
            Err(e) => r matches Err(x) && x@ == e,
        },
    decreases schema, 1nat,
{
    proof {
        assert(spec_generate(*schema, options, profile, depth as nat) == spec_compound(*schema, options, profile, depth as nat));
        assert(spec_compound(*schema, options, profile, depth as nat) == spec_tuple_node(*schema, options, profile, depth as nat));
    }
    let ghost before = tokens(out@);
    let mode = options.mode;
    let validation = mode == JsonSchemaMode::Validation;
    let d = depth + 1;
    match schema {
        Schema::Tuple(items) => {
            put_typed(out, "array");
            put_key(out, "prefixItems");
            put(out, Token::BeginArray);
            gen_items(items, options, profile, d, out)?;
            put(out, Token::EndArray);
            put_key(out, "minItems");
            put(out, Token::Number(u64_text(items.len() as u64)));
            put_key(out, "maxItems");
            put(out, Token::Number(u64_text(items.len() as u64)));
            put(out, Token::EndObject);
        },
        _ => {
            proof {
                assert(false);
            }
            return Err(fault(JsonSchemaErrorKind::UnsupportedSchema, "schema kind is not supported"));
        },
    }
    proof {
        assert(tokens(out@) =~= before + spec_generate(*schema, options, profile, depth as nat)->Ok_0);
    }
    Ok(())
}

#[verifier::rlimit(100)]
fn gen_mapping_node(
    schema: &Schema,
    options: JsonSchemaOptions,
    profile: JsonIntegerProfile,
    depth: usize,
    out: &mut Vec<Token>,
) -> (r: Result<(), JsonSchemaError>)
    requires
        depth <= 256,
        schema is Mapping,
    ensures
        match spec_generate(*schema, options, profile, depth as nat) {
            Ok(t) => r is Ok && tokens(final(out)@) == tokens(old(out)@) + t,
            Err(e) => r matches Err(x) && x@ == e,
        },
    decreases schema, 1nat,
{
    proof {
        assert(spec_generate(*schema, options, profile, depth as nat) == spec_compound(*schema, options, profile, depth as nat));
        assert(spec_compound(*schema, options, profile, depth as nat) == spec_mapping_node(*schema, options, profile, depth as nat));
    }
    let ghost before = tokens(out@);
    let mode = options.mode;
    let validation = mode == JsonSchemaMode::Validation;
    let d = depth + 1;
    match schema {
        Schema::Mapping { key, value, constraints } => {
            let string_key = match &**key {
                Schema::String(_) => true,
                _ => false,
            };
            if !string_key {
                return Err(
                    fault(
                        JsonSchemaErrorKind::UnsupportedSchema,
                        "non-string JSON object keys need an exact property-name representation",
                    ),
                );
            }
            put_typed(out, "object");
            put_key(out, "additionalProperties");
            generate_node(value, options, profile, d, out)?;
            put_key(out, "propertyNames");
            generate_node(key, options, profile, d, out)?;
            put_usize(out, "minProperties", constraints.min_length);
            put_usize(out, "maxProperties", constraints.max_length);
            put(out, Token::EndObject);
        },
        _ => {
            proof {
                assert(false);
            }
            return Err(fault(JsonSchemaErrorKind::UnsupportedSchema, "schema kind is not supported"));
        },
    }
    proof {
        assert(tokens(out@) =~= before + spec_generate(*schema, options, profile, depth as nat)->Ok_0);
    }
    Ok(())
}

/// The schemas that hold other schemas.
pub open spec fn is_compound(s: Schema) -> bool {
    ||| s is Nullable
    ||| s is Union
    ||| s is TaggedUnion
    ||| s is Definitions
    ||| s is DefinitionRef
    ||| s is Model
    ||| s is List
    ||| s is MutableSet
    ||| s is FrozenSet
    ||| s is Generator
    ||| s is Tuple
    ||| s is Mapping
    ||| s is EmbeddedJson
    ||| s is LaxOrStrict
    ||| s is JsonOrStructural
    ||| s is Chain
}

/// The JSON Schema of a schema at a nesting depth, as tokens.
pub fn generate(schema: &Schema, options: JsonSchemaOptions, profile: JsonIntegerProfile, depth: usize) -> (r: Result<
    Vec<Token>,
    JsonSchemaError,
>)
    ensures
        match spec_generate(*schema, options, profile, depth as nat) {
            Ok(t) => r matches Ok(out) && tokens(out@) == t,
            Err(e) => r matches Err(x) && x@ == e,
        },
{
    let mut out: Vec<Token> = Vec::new();
    proof {
        assert(tokens(out@) =~= Seq::<TokenView>::empty());
    }
    match generate_node(schema, options, profile, depth, &mut out) {
        Ok(()) => {
            proof {
                assert(tokens(out@) =~= spec_generate(*schema, options, profile, depth as nat)->Ok_0);
            }
            Ok(out)
        },
        Err(e) => Err(e),
    }
}

/// A JSON Schema document for a schema: its JSON Schema with the `$schema`
/// dialect added, as tokens.
pub fn generate_json_schema(schema: &Schema, options: JsonSchemaOptions, profile: JsonIntegerProfile) -> (r: Result<
    Vec<Token>,
    JsonSchemaError,
>)
    ensures
        match spec_document(*schema, options, profile) {
            Ok(t) => r matches Ok(out) && tokens(out@) == t,
            Err(e) => r matches Err(x) && x@ == e,
        },
{
    let mut document = generate(schema, options, profile, 0)?;
    if !is_object_tokens(&document) {
        return Err(fault(JsonSchemaErrorKind::UnsupportedSchema, "JSON Schema document root is not an object"));
    }
    let ghost whole = tokens(document@);
    document.pop();
    proof {
        assert(tokens(document@) =~= whole.drop_last());
    }
    put_key(&mut document, "$schema");
    put_text(&mut document, "https://json-schema.org/draft/2020-12/schema");
    put(&mut document, Token::EndObject);
    proof {
        reveal_strlit("https://json-schema.org/draft/2020-12/schema");
        assert(tokens(document@) =~= spec_document(*schema, options, profile)->Ok_0);
    }
    Ok(document)
}

// ---------------------------------------------------------------------------
// Keywords of temporal and double schemas
// ---------------------------------------------------------------------------

/// In validation mode a temporal schema is a string with the format of its
/// kind: `date` for a date, `time` for a time of day, `date-time` for a
/// date with a time and `duration` for a duration, whatever its relative
/// constraint; so a date's format is not the format of a date-time.
pub proof fn law_temporal_formats(t: TemporalSchema, options: JsonSchemaOptions, profile: JsonIntegerProfile, depth: nat)
    requires
        options.mode == JsonSchemaMode::Validation,
        depth <= 256,
    ensures
        t.kind == TemporalKind::Date ==> spec_generate(Schema::Temporal(t), options, profile, depth) == Ok::<
            Seq<TokenView>,
            SchemaFault,
        >(
            seq![
                TokenView::BeginObject,
                TokenView::Key("type"@),
                TokenView::Text("string"@),
                TokenView::Key("format"@),
                TokenView::Text("date"@),
                TokenView::EndObject,
            ],
        ),
        t.kind == TemporalKind::Time ==> spec_generate(Schema::Temporal(t), options, profile, depth) == Ok::<
            Seq<TokenView>,
            SchemaFault,
        >(
            seq![
                TokenView::BeginObject,
                TokenView::Key("type"@),
                TokenView::Text("string"@),
                TokenView::Key("format"@),
                TokenView::Text("time"@),
                TokenView::EndObject,
            ],
        ),
        t.kind == TemporalKind::DateTime ==> spec_generate(Schema::Temporal(t), options, profile, depth) == Ok::<
            Seq<TokenView>,
            SchemaFault,
        >(
            seq![
                TokenView::BeginObject,
                TokenView::Key("type"@),
                TokenView::Text("string"@),
                TokenView::Key("format"@),
                TokenView::Text("date-time"@),
                TokenView::EndObject,
            ],
        ),
        t.kind == TemporalKind::Duration ==> spec_generate(Schema::Temporal(t), options, profile, depth) == Ok::<
            Seq<TokenView>,
            SchemaFault,
        >(
            seq![
                TokenView::BeginObject,
                TokenView::Key("type"@),
                TokenView::Text("string"@),
                TokenView::Key("format"@),
                TokenView::Text("duration"@),
                TokenView::EndObject,
            ],
        ),
{
    assert(typed("string"@) + seq![TokenView::Key("format"@), TokenView::Text(temporal_format(t.kind)), TokenView::EndObject]
        =~= seq![
        TokenView::BeginObject,
        TokenView::Key("type"@),
        TokenView::Text("string"@),
        TokenView::Key("format"@),
        TokenView::Text(temporal_format(t.kind)),
        TokenView::EndObject,
    ]);
}

/// The bounds of a double appear under the keyword of their kind, right
/// after the type: a strict lower bound (`greater_than`) under
/// `exclusiveMinimum`, an inclusive lower bound (`greater_or_equal`) under
/// `minimum`, a strict upper bound under `exclusiveMaximum` and an
/// inclusive upper bound under `maximum`; a schema with one finite bound is
/// exactly the number type with that bound.
pub proof fn law_double_bound_keywords(
    c: FloatConstraints,
    b: u64,
    options: JsonSchemaOptions,
    profile: JsonIntegerProfile,
    depth: nat,
)
    requires
        depth <= 256,
    ensures
        spec_generate(Schema::Float(c), options, profile, depth) matches Ok(t) ==> ({
            &&& c.greater_than matches Some(x) ==> t[3] == TokenView::Key("exclusiveMinimum"@) && t[4]
                == TokenView::Double(x)
            &&& c.greater_than is None ==> (c.greater_or_equal matches Some(x) ==> t[3] == TokenView::Key(
                "minimum"@,
            ) && t[4] == TokenView::Double(x))
            &&& c.greater_than is Some ==> (c.greater_or_equal matches Some(x) ==> t[5] == TokenView::Key(
                "minimum"@,
            ) && t[6] == TokenView::Double(x))
        }),
        finite(b) && c == (FloatConstraints { greater_than: Some(b), greater_or_equal: None, less_than: None, less_or_equal: None, multiple_of: None })
            ==> spec_generate(Schema::Float(c), options, profile, depth) == Ok::<Seq<TokenView>, SchemaFault>(
            seq![
                TokenView::BeginObject,
                TokenView::Key("type"@),
                TokenView::Text("number"@),
                TokenView::Key("exclusiveMinimum"@),
                TokenView::Double(b),
                TokenView::EndObject,
            ],
        ),
        finite(b) && c == (FloatConstraints { greater_than: None, greater_or_equal: Some(b), less_than: None, less_or_equal: None, multiple_of: None })
            ==> spec_generate(Schema::Float(c), options, profile, depth) == Ok::<Seq<TokenView>, SchemaFault>(
            seq![
                TokenView::BeginObject,
                TokenView::Key("type"@),
                TokenView::Text("number"@),
                TokenView::Key("minimum"@),
                TokenView::Double(b),
                TokenView::EndObject,
            ],
        ),
        finite(b) && c == (FloatConstraints { greater_than: None, greater_or_equal: None, less_than: Some(b), less_or_equal: None, multiple_of: None })
            ==> spec_generate(Schema::Float(c), options, profile, depth) == Ok::<Seq<TokenView>, SchemaFault>(
            seq![
                TokenView::BeginObject,
                TokenView::Key("type"@),
                TokenView::Text("number"@),
                TokenView::Key("exclusiveMaximum"@),
                TokenView::Double(b),
                TokenView::EndObject,
            ],
        ),
        finite(b) && c == (FloatConstraints { greater_than: None, greater_or_equal: None, less_than: None, less_or_equal: Some(b), multiple_of: None })
            ==> spec_generate(Schema::Float(c), options, profile, depth) == Ok::<Seq<TokenView>, SchemaFault>(
            seq![
                TokenView::BeginObject,
                TokenView::Key("type"@),
                TokenView::Text("number"@),
                TokenView::Key("maximum"@),
                TokenView::Double(b),
                TokenView::EndObject,
            ],
        ),
{
    let end = seq![TokenView::EndObject];
    assert(seq![TokenView::BeginObject, TokenView::Key("type"@), TokenView::Text("number"@)] + seq![
        TokenView::Key("exclusiveMinimum"@),
        TokenView::Double(b),
    ] + Seq::<TokenView>::empty() + Seq::<TokenView>::empty() + Seq::<TokenView>::empty() + (Seq::<TokenView>::empty()
        + end) =~= seq![
        TokenView::BeginObject,
        TokenView::Key("type"@),
        TokenView::Text("number"@),
        TokenView::Key("exclusiveMinimum"@),
        TokenView::Double(b),
        TokenView::EndObject,
    ]);
    assert(seq![TokenView::BeginObject, TokenView::Key("type"@), TokenView::Text("number"@)] + Seq::<TokenView>::empty()
        + seq![TokenView::Key("minimum"@), TokenView::Double(b)] + Seq::<TokenView>::empty() + Seq::<TokenView>::empty()
        + (Seq::<TokenView>::empty() + end) =~= seq![
        TokenView::BeginObject,
        TokenView::Key("type"@),
        TokenView::Text("number"@),
        TokenView::Key("minimum"@),
        TokenView::Double(b),
        TokenView::EndObject,
    ]);
    assert(seq![TokenView::BeginObject, TokenView::Key("type"@), TokenView::Text("number"@)] + Seq::<TokenView>::empty()
        + Seq::<TokenView>::empty() + seq![TokenView::Key("exclusiveMaximum"@), TokenView::Double(b)]
        + Seq::<TokenView>::empty() + (Seq::<TokenView>::empty() + end) =~= seq![
        TokenView::BeginObject,
        TokenView::Key("type"@),
        TokenView::Text("number"@),
        TokenView::Key("exclusiveMaximum"@),
        TokenView::Double(b),
        TokenView::EndObject,
    ]);
    assert(seq![TokenView::BeginObject, TokenView::Key("type"@), TokenView::Text("number"@)] + Seq::<TokenView>::empty()
        + Seq::<TokenView>::empty() + Seq::<TokenView>::empty() + seq![TokenView::Key("maximum"@), TokenView::Double(b)]
        + (Seq::<TokenView>::empty() + end) =~= seq![
        TokenView::BeginObject,
        TokenView::Key("type"@),
        TokenView::Text("number"@),
        TokenView::Key("maximum"@),
        TokenView::Double(b),
        TokenView::EndObject,
    ]);
}

/// In validation mode a UUID is a string of format `uuid`, with the
/// required version, when there is one, under `x-sifr-uuid-version`.
pub proof fn law_uuid_format(version: Option<u8>, options: JsonSchemaOptions, profile: JsonIntegerProfile, depth: nat)
    requires
        options.mode == JsonSchemaMode::Validation,
        depth <= 256,
    ensures
        version is None ==> spec_generate(Schema::Uuid { version }, options, profile, depth) == Ok::<
            Seq<TokenView>,
            SchemaFault,
        >(
            seq![
                TokenView::BeginObject,
                TokenView::Key("type"@),
                TokenView::Text("string"@),
                TokenView::Key("format"@),
                TokenView::Text("uuid"@),
                TokenView::EndObject,
            ],
        ),
        version matches Some(v) ==> spec_generate(Schema::Uuid { version }, options, profile, depth) == Ok::<
            Seq<TokenView>,
            SchemaFault,
        >(
            seq![
                TokenView::BeginObject,
                TokenView::Key("type"@),
                TokenView::Text("string"@),
                TokenView::Key("format"@),
                TokenView::Text("uuid"@),
                TokenView::Key("x-sifr-uuid-version"@),
                TokenView::Number(decimal(v as nat)),
                TokenView::EndObject,
            ],
        ),
{
    let t = typed("string"@) + seq![TokenView::Key("format"@), TokenView::Text("uuid"@)];
    match version {
        Some(v) => {
            assert(t + seq![TokenView::Key("x-sifr-uuid-version"@), TokenView::Number(decimal(v as nat))] + seq![
                TokenView::EndObject,
            ] =~= seq![
                TokenView::BeginObject,
                TokenView::Key("type"@),
                TokenView::Text("string"@),
                TokenView::Key("format"@),
                TokenView::Text("uuid"@),
                TokenView::Key("x-sifr-uuid-version"@),
                TokenView::Number(decimal(v as nat)),
                TokenView::EndObject,
            ]);
        },
        None => {
            assert(t + Seq::<TokenView>::empty() + seq![TokenView::EndObject] =~= seq![
                TokenView::BeginObject,
                TokenView::Key("type"@),
                TokenView::Text("string"@),
                TokenView::Key("format"@),
                TokenView::Text("uuid"@),
                TokenView::EndObject,
            ]);
        },
    }
}

/// A URL is a string of format `uri`, and a pattern (in validation mode) a
/// string of format `regex`.
pub proof fn law_url_and_pattern_formats(
    url: UrlConstraints,
    pattern: PatternSchema,
    options: JsonSchemaOptions,
    profile: JsonIntegerProfile,
    depth: nat,
)
    requires
        depth <= 256,
    ensures
        url.max_length is None ==> spec_generate(Schema::Url(url), options, profile, depth) == Ok::<
            Seq<TokenView>,
            SchemaFault,
        >(
            seq![
                TokenView::BeginObject,
                TokenView::Key("type"@),
                TokenView::Text("string"@),
                TokenView::Key("format"@),
                TokenView::Text("uri"@),
                TokenView::EndObject,
            ],
        ),
        options.mode == JsonSchemaMode::Validation ==> spec_generate(Schema::Pattern(pattern), options, profile, depth)
            == Ok::<Seq<TokenView>, SchemaFault>(
            seq![
                TokenView::BeginObject,
                TokenView::Key("type"@),
                TokenView::Text("string"@),
                TokenView::Key("format"@),
                TokenView::Text("regex"@),
                TokenView::EndObject,
            ],
        ),
{
    assert(typed("string"@) + seq![TokenView::Key("format"@), TokenView::Text("uri"@)] + Seq::<TokenView>::empty()
        + seq![TokenView::EndObject] =~= seq![
        TokenView::BeginObject,
        TokenView::Key("type"@),
        TokenView::Text("string"@),
        TokenView::Key("format"@),
        TokenView::Text("uri"@),
        TokenView::EndObject,
    ]);
    assert(typed("string"@) + seq![TokenView::Key("format"@), TokenView::Text("regex"@), TokenView::EndObject] =~= seq![
        TokenView::BeginObject,
        TokenView::Key("type"@),
        TokenView::Text("string"@),
        TokenView::Key("format"@),
        TokenView::Text("regex"@),
        TokenView::EndObject,
    ]);
}

} // verus!
