use vstd::prelude::*;

use crate::error::{error_text, ValidationError};
use crate::serializer::SerializationPlanError;

verus! {

/// Why a type adapter could not be built.
#[derive(Clone, Copy, Debug, PartialEq, Eq, Structural)]
pub enum TypeAdapterBuildErrorKind {
    InvalidSchema,
    ShapeMismatch,
    InvalidSerializationPlan,
}

/// A type adapter that could not be built: why, and a description.
#[derive(Debug)]
pub struct TypeAdapterBuildError {
    kind: TypeAdapterBuildErrorKind,
    message: String,
}

impl View for TypeAdapterBuildError {
    type V = (TypeAdapterBuildErrorKind, Seq<char>);

    closed spec fn view(&self) -> (TypeAdapterBuildErrorKind, Seq<char>) {
        (self.kind, self.message@)
    }
}

impl TypeAdapterBuildError {
    pub fn kind(&self) -> (r: TypeAdapterBuildErrorKind)
        ensures
            r == self@.0,
    {
        self.kind
    }

    pub fn message(&self) -> (r: &str)
        ensures
            r@ == self@.1,
    {
        self.message.as_str()
    }

    pub(crate) fn new(kind: TypeAdapterBuildErrorKind, message: String) -> (r: TypeAdapterBuildError)
        ensures
            r@ == (kind, message@),
    {
        TypeAdapterBuildError { kind, message }
    }
}

/// A schema that failed its checks, as an `InvalidSchema` build error with
/// the validation error's text.
pub fn invalid_schema(error: ValidationError) -> (r: TypeAdapterBuildError)
    ensures
        r@ == (TypeAdapterBuildErrorKind::InvalidSchema, error_text(error@)),
{
    TypeAdapterBuildError::new(TypeAdapterBuildErrorKind::InvalidSchema, error.text())
}

/// A serializer plan that could not be built, as an
/// `InvalidSerializationPlan` build error with the plan error's message.
pub fn invalid_serialization_plan(error: SerializationPlanError) -> (r: TypeAdapterBuildError)
    ensures
        r@ == (TypeAdapterBuildErrorKind::InvalidSerializationPlan, error@),
{
    TypeAdapterBuildError::new(TypeAdapterBuildErrorKind::InvalidSerializationPlan, crate::text::owned(error.message()))
}

} // verus!
