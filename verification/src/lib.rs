//! Native foundations for `pydantic-sifr`: checked arenas, program
//! envelopes, error registries, input arenas and their resource limits.

pub mod adapter;
pub mod arena;
pub mod canonical;
pub mod chain;
pub mod chains;
pub mod collections;
pub mod constraints;
pub mod decimals;
pub mod engine;
pub mod error;
pub mod fractions;
pub mod generation;

pub mod fields;
pub mod input;
pub mod input_checks;
pub mod integers;
pub mod keys;
pub mod models;
pub mod json;
pub mod json_schema;
pub mod native;
pub mod numeric;
pub mod options;
pub mod order;
pub mod plan;
pub mod readback;
pub mod registry;
pub mod reports;
pub mod scalars;
pub mod schema;
pub mod selection;
pub mod serializer;
pub mod special;
pub mod strings;
pub mod subtree;
pub mod sorting;
pub mod sums;
pub(crate) mod text;
pub mod values;

pub use adapter::{TypeAdapterBuildError, TypeAdapterBuildErrorKind};
pub use arena::{Arena, ArenaError, ArenaId};
pub use constraints::{
    AliasPath, AliasSegment, BytesConstraints, BytesJsonMode, CollectionConstraints, IntegerConstraints,
    IntegerTarget, PatternCompileError, PatternSchema, RelativeTimeConstraint, TemporalKind, TemporalSchema,
    UrlConstraints,
};
pub use decimals::DecimalConstraints;
pub use error::{ErrorDetail, LocationItem, ValidationError, ValidationLimits};
pub use input::{InputArena, InputId, InputValue, JsonInputError, JsonLimits, NativeInputError, ObjectKind, SequenceKind};
pub use json::parse_json;
pub use json_schema::{JsonSchemaError, JsonSchemaErrorKind, JsonSchemaMode, JsonSchemaOptions};
pub use native::{build_native_input, NativeValue};
pub use numeric::{Fraction, FractionError};
pub use options::{ClockSnapshot, InputProfile, ValidationOptions};
pub use selection::{SelectionPath, SelectionSegment, SerializationOptions};
pub use serializer::{
    SchemaTag, SerializationError, SerializationErrorKind, SerializationPlanError, SerializerFieldPlan, SerializerNode, SerializerNodeId,
};
pub use strings::{StringConstraints, StringPattern};
pub use sums::{DiscriminatorPath, SchemaErrorOverride, UnionMode};
pub use values::{
    DateTimeValue, DateValue, DurationValue, EnumValue, ModelValue, TimeValue, UnionValue, ValidatedValue, ValueId,
};
