use vstd::prelude::*;

use crate::error::{error_text, ValidationError};

verus! {

/// The kind of a schema node, as a serializer plan records it.
#[derive(Clone, Copy, Debug, PartialEq, Eq, Structural)]
pub enum SchemaTag {
    NoneSchema,
    Bool,
    Integer,
    Float,
    Decimal,
    Fraction,
    Complex,
    String,
    Bytes,
    Temporal,
    Uuid,
    Url,
    Pattern,
    Literal,
    Enum,
    Nullable,
    Union,
    TaggedUnion,
    Definitions,
    DefinitionRef,
    Model,
    List,
    Tuple,
    Mapping,
    SetSchema,
    FrozenSet,
    Generator,
    EmbeddedJson,
    LaxOrStrict,
    JsonOrStructural,
    Chain,
}

/// A compact index of a node in a serializer plan.
#[derive(Clone, Copy, Debug, PartialEq, Eq, Structural, Hash, PartialOrd, Ord)]
pub struct SerializerNodeId(pub(crate) u32);

impl View for SerializerNodeId {
    type V = nat;

    closed spec fn view(&self) -> nat {
        self.0 as nat
    }
}

impl SerializerNodeId {
    pub fn raw(self) -> (r: u32)
        ensures
            r == self@,
    {
        self.0
    }
}

/// A model field in a serializer plan: its name and its node.
#[derive(Clone, Debug, PartialEq, Eq)]
pub struct SerializerFieldPlan {
    pub(crate) name: &'static str,
    pub(crate) node: SerializerNodeId,
}

impl SerializerFieldPlan {
    pub closed spec fn spec_name(&self) -> &'static str {
        self.name
    }

    pub closed spec fn spec_node(&self) -> SerializerNodeId {
        self.node
    }

    pub fn name(&self) -> (r: &'static str)
        ensures
            r == self.spec_name(),
    {
        self.name
    }

    pub fn node(&self) -> (r: SerializerNodeId)
        ensures
            r == self.spec_node(),
    {
        self.node
    }
}

/// A node of a serializer plan: its schema kind, its children and, for a
/// model, its fields.
#[derive(Clone, Debug, PartialEq, Eq)]
pub struct SerializerNode {
    pub(crate) tag: SchemaTag,
    pub(crate) children: Vec<SerializerNodeId>,
    pub(crate) fields: Vec<SerializerFieldPlan>,
}

impl SerializerNode {
    pub closed spec fn spec_tag(&self) -> SchemaTag {
        self.tag
    }

    pub closed spec fn spec_children(&self) -> Seq<SerializerNodeId> {
        self.children@
    }

    pub closed spec fn spec_fields(&self) -> Seq<SerializerFieldPlan> {
        self.fields@
    }

    pub fn tag(&self) -> (r: SchemaTag)
        ensures
            r == self.spec_tag(),
    {
        self.tag
    }

    pub fn children(&self) -> (r: &[SerializerNodeId])
        ensures
            r@ == self.spec_children(),
    {
        self.children.as_slice()
    }

    pub fn fields(&self) -> (r: &[SerializerFieldPlan])
        ensures
            r@ == self.spec_fields(),
    {
        self.fields.as_slice()
    }
}

/// A serializer plan that could not be built.
#[derive(Clone, Debug, PartialEq, Eq)]
pub struct SerializationPlanError {
    message: String,
}

impl View for SerializationPlanError {
    type V = Seq<char>;

    closed spec fn view(&self) -> Seq<char> {
        self.message@
    }
}

impl SerializationPlanError {
    pub fn message(&self) -> (r: &str)
        ensures
            r@ == self@,
    {
        self.message.as_str()
    }
}

/// A plan error with the given message.
pub fn plan_error(message: String) -> (r: SerializationPlanError)
    ensures
        r@ == message@,
{
    SerializationPlanError { message }
}

/// A plan error for a schema that could not be read, with the validation
/// error's text.
pub fn validation_error(error: ValidationError) -> (r: SerializationPlanError)
    ensures
        r@ == error_text(error@),
{
    plan_error(error.text())
}

/// Why a value could not be serialized.
#[derive(Clone, Copy, Debug, PartialEq, Eq, Structural)]
pub enum SerializationErrorKind {
    ShapeMismatch,
    InvalidProjection,
    Limit,
    UnsupportedJsonValue,
    IntegerRange,
}

/// A value that could not be serialized: why, and a description. The
/// integer-range detail of an `IntegerRange` failure is not held here.
#[derive(Clone, Debug, PartialEq, Eq)]
pub struct SerializationError {
    kind: SerializationErrorKind,
    message: String,
}

impl View for SerializationError {
    type V = (SerializationErrorKind, Seq<char>);

    closed spec fn view(&self) -> (SerializationErrorKind, Seq<char>) {
        (self.kind, self.message@)
    }
}

impl SerializationError {
    pub fn kind(&self) -> (r: SerializationErrorKind)
        ensures
            r == self@.0,
    {
        self.kind
    }

    pub fn message(&self) -> (r: &str)
        ensures
            r@ == self@.1,
    {
        self.message.as_str()
    }

    pub(crate) fn new(kind: SerializationErrorKind, message: String) -> (r: SerializationError)
        ensures
            r@ == (kind, message@),
    {
        SerializationError { kind, message }
    }
}

/// Two SerializerNodeId values are equal exactly when their raw values are.
pub proof fn law_serializer_node_ids_equal_iff_raw_equal(a: SerializerNodeId, b: SerializerNodeId)
    ensures
        a == b <==> a@ == b@,
{
}

} // verus!
