use vstd::prelude::*;

use crate::error::{plain_error, type_error, ValidationError};

verus! {

/// A pattern that could not be compiled, with the compiler's description.
#[derive(Clone, Debug, PartialEq, Eq)]
pub struct PatternCompileError {
    pub(crate) message: String,
}

impl PatternCompileError {
    pub closed spec fn spec_message(&self) -> Seq<char> {
        self.message@
    }

    pub fn message(&self) -> (r: &str)
        ensures
            r@ == self.spec_message(),
    {
        self.message.as_str()
    }
}

/// The integer type that a value must fit.
#[derive(Clone, Copy, Debug, PartialEq, Eq, Structural)]
pub enum IntegerTarget {
    Exact,
    I8,
    I16,
    I32,
    I64,
    U8,
    U16,
    U32,
    U64,
}

impl IntegerTarget {
    /// The name used in messages and JSON Schema formats.
    pub fn name(self) -> (r: &'static str)
        ensures
            r@ == match self {
                IntegerTarget::Exact => "int"@,
                IntegerTarget::I8 => "int8"@,
                IntegerTarget::I16 => "int16"@,
                IntegerTarget::I32 => "int32"@,
                IntegerTarget::I64 => "int64"@,
                IntegerTarget::U8 => "uint8"@,
                IntegerTarget::U16 => "uint16"@,
                IntegerTarget::U32 => "uint32"@,
                IntegerTarget::U64 => "uint64"@,
            },
    {
        match self {
            IntegerTarget::Exact => "int",
            IntegerTarget::I8 => "int8",
            IntegerTarget::I16 => "int16",
            IntegerTarget::I32 => "int32",
            IntegerTarget::I64 => "int64",
            IntegerTarget::U8 => "uint8",
            IntegerTarget::U16 => "uint16",
            IntegerTarget::U32 => "uint32",
            IntegerTarget::U64 => "uint64",
        }
    }

    /// The least and the greatest value of a fixed-width target; none for
    /// an exact integer.
    pub fn bounds(self) -> (r: Option<(i64, u64)>)
        ensures
            r == match self {
                IntegerTarget::Exact => None,
                IntegerTarget::I8 => Some((i8::MIN as i64, i8::MAX as u64)),
                IntegerTarget::I16 => Some((i16::MIN as i64, i16::MAX as u64)),
                IntegerTarget::I32 => Some((i32::MIN as i64, i32::MAX as u64)),
                IntegerTarget::I64 => Some((i64::MIN, i64::MAX as u64)),
                IntegerTarget::U8 => Some((0i64, u8::MAX as u64)),
                IntegerTarget::U16 => Some((0i64, u16::MAX as u64)),
                IntegerTarget::U32 => Some((0i64, u32::MAX as u64)),
                IntegerTarget::U64 => Some((0i64, u64::MAX)),
            },
    {
        match self {
            IntegerTarget::Exact => None,
            IntegerTarget::I8 => Some((-128, 127)),
            IntegerTarget::I16 => Some((-32768, 32767)),
            IntegerTarget::I32 => Some((-2147483648, 2147483647)),
            IntegerTarget::I64 => Some((-9223372036854775808, 9223372036854775807)),
            IntegerTarget::U8 => Some((0, 255)),
            IntegerTarget::U16 => Some((0, 65535)),
            IntegerTarget::U32 => Some((0, 4294967295)),
            IntegerTarget::U64 => Some((0, 18446744073709551615)),
        }
    }

    /// The name of the structural primitive that holds the value.
    pub fn structural_name(self) -> (r: &'static str)
        ensures
            r@ == match self {
                IntegerTarget::Exact => "int"@,
                IntegerTarget::I8 => "i8"@,
                IntegerTarget::I16 => "i16"@,
                IntegerTarget::I32 => "i32"@,
                IntegerTarget::I64 => "i64"@,
                IntegerTarget::U8 => "u8"@,
                IntegerTarget::U16 => "u16"@,
                IntegerTarget::U32 => "u32"@,
                IntegerTarget::U64 => "u64"@,
            },
    {
        match self {
            IntegerTarget::Exact => "int",
            IntegerTarget::I8 => "i8",
            IntegerTarget::I16 => "i16",
            IntegerTarget::I32 => "i32",
            IntegerTarget::I64 => "i64",
            IntegerTarget::U8 => "u8",
            IntegerTarget::U16 => "u16",
            IntegerTarget::U32 => "u32",
            IntegerTarget::U64 => "u64",
        }
    }
}

/// Bounds and a step that an integer must respect, each held as the
/// canonical decimal text of an integer.
#[derive(Clone, Debug, Default, PartialEq, Eq)]
pub struct IntegerConstraints {
    pub greater_than: Option<String>,
    pub greater_or_equal: Option<String>,
    pub less_than: Option<String>,
    pub less_or_equal: Option<String>,
    pub multiple_of: Option<String>,
}

/// An optional bound that is the canonical text of an integer when present.
pub open spec fn integer_bound_wf(bound: Option<String>) -> bool {
    bound matches Some(b) ==> crate::scalars::canonical_integer(b@)
}

/// Every bound and the step are canonical integer texts.
pub open spec fn integer_constraints_wf(c: IntegerConstraints) -> bool {
    &&& integer_bound_wf(c.greater_than)
    &&& integer_bound_wf(c.greater_or_equal)
    &&& integer_bound_wf(c.less_than)
    &&& integer_bound_wf(c.less_or_equal)
    &&& integer_bound_wf(c.multiple_of)
}

/// How bytes are read from and written to JSON.
#[derive(Clone, Copy, Debug, Default, PartialEq, Eq, Structural)]
pub enum BytesJsonMode {
    #[default]
    Utf8,
    Base64,
}

/// Length bounds and the JSON form of bytes.
#[derive(Clone, Debug, Default, PartialEq, Eq)]
pub struct BytesConstraints {
    pub min_length: Option<usize>,
    pub max_length: Option<usize>,
    pub json_mode: BytesJsonMode,
}

/// Length bounds of a collection.
#[derive(Clone, Debug, Default, PartialEq, Eq)]
pub struct CollectionConstraints {
    pub min_length: Option<usize>,
    pub max_length: Option<usize>,
}

#[derive(Clone, Copy, Debug, PartialEq, Eq, Structural)]
pub enum TemporalKind {
    Date,
    Time,
    DateTime,
    Duration,
}

/// Whether a temporal value must lie before or after the validation clock.
#[derive(Clone, Copy, Debug, PartialEq, Eq, Structural)]
pub enum RelativeTimeConstraint {
    Past,
    Future,
}

#[derive(Clone, Debug, PartialEq, Eq)]
pub struct TemporalSchema {
    pub kind: TemporalKind,
    pub relative: Option<RelativeTimeConstraint>,
}

impl TemporalSchema {
    /// The name of the structural nominal type that holds the value.
    pub fn structural_name(&self) -> (r: &'static str)
        ensures
            r@ == match self.kind {
                TemporalKind::Date => "pydantic_sifr.Date"@,
                TemporalKind::Time => "pydantic_sifr.Time"@,
                TemporalKind::DateTime => "pydantic_sifr.DateTime"@,
                TemporalKind::Duration => "pydantic_sifr.Duration"@,
            },
    {
        match self.kind {
            TemporalKind::Date => "pydantic_sifr.Date",
            TemporalKind::Time => "pydantic_sifr.Time",
            TemporalKind::DateTime => "pydantic_sifr.DateTime",
            TemporalKind::Duration => "pydantic_sifr.Duration",
        }
    }
}

/// The flags a compiled pattern value must carry.
#[derive(Clone, Debug, PartialEq, Eq)]
pub struct PatternSchema {
    pub case_insensitive: bool,
    pub multi_line: bool,
    pub dot_matches_new_line: bool,
}

/// The length bound and the allowed schemes of a URL.
#[derive(Clone, Debug, Default, PartialEq, Eq)]
pub struct UrlConstraints {
    pub max_length: Option<usize>,
    pub allowed_schemes: Vec<String>,
}

/// One step of an alias path: a field by name or an item by position.
#[derive(Clone, Copy, Debug, PartialEq, Eq)]
pub enum AliasSegment {
    Field(&'static str),
    Index(usize),
}

/// A path through the input at which a field may be found.
#[derive(Clone, Debug, PartialEq, Eq)]
pub struct AliasPath {
    pub segments: Vec<AliasSegment>,
}

impl AliasPath {
    /// The path made of one field.
    pub fn field(name: &'static str) -> (r: AliasPath)
        ensures
            r.segments@ == seq![AliasSegment::Field(name)],
    {
        let r = AliasPath { segments: vec![AliasSegment::Field(name)] };
        assert(r.segments@ =~= seq![AliasSegment::Field(name)]);
        r
    }
}

/// The `schema_invalid` error with a message and an expectation.
pub fn schema_error(message: &'static str, expected: &'static str) -> (r: ValidationError)
    ensures
        r@ == plain_error("schema_invalid"@, message@, expected@),
{
    type_error("schema_invalid", message, expected)
}

} // verus!
