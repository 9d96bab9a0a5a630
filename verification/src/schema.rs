use vstd::prelude::*;

use crate::registry::ErrorOverride;
use crate::text::str_equal;

verus! {

/// The largest canonical program that a compiler envelope may carry.
pub const MAX_PROGRAM_BYTES: usize = 16777216;

/// Features that this backend understands; every other bit is refused.
pub const SUPPORTED_FEATURES: u64 = 0;

/// The longest accepted structural shape identity, in bytes.
pub const MAX_SHAPE_IDENTITY_BYTES: usize = 4096;

/// The index of a node in a schema program.
#[derive(Clone, Copy, Debug, PartialEq, Eq, Structural, Hash, PartialOrd, Ord)]
pub struct NodeIndex(u32);

impl View for NodeIndex {
    type V = nat;

    closed spec fn view(&self) -> nat {
        self.0 as nat
    }
}

impl NodeIndex {
    pub fn new(value: u32) -> (r: NodeIndex)
        ensures
            r@ == value,
    {
        NodeIndex(value)
    }

    pub fn raw(self) -> (r: u32)
        ensures
            r == self@,
    {
        self.0
    }

    /// The index as a position; every `u32` fits a `usize` here.
    pub fn as_usize(self) -> (r: Result<usize, SchemaVerificationError>)
        ensures
            r matches Ok(v) && v == self@,
    {
        Ok(self.0 as usize)
    }
}

/// The contract versions that a schema program was compiled against.
#[derive(Clone, Copy, Debug, PartialEq, Eq, Structural)]
pub struct ContractVersions {
    pub schema_program: u16,
    pub structural_contract: u16,
    pub structural_call: u16,
    pub callback_abi: u16,
}

/// The versions that this backend implements.
pub open spec fn spec_current_versions() -> ContractVersions {
    ContractVersions { schema_program: 1, structural_contract: 1, structural_call: 1, callback_abi: 1 }
}

impl ContractVersions {
    /// The versions that this backend implements.
    pub fn current() -> (r: ContractVersions)
        ensures
            r == spec_current_versions(),
    {
        ContractVersions { schema_program: 1, structural_contract: 1, structural_call: 1, callback_abi: 1 }
    }
}

/// The header of a decoded schema program.
#[derive(Clone, Debug)]
pub struct ProgramHeader {
    pub versions: ContractVersions,
    pub feature_bitmap: u64,
    pub shape_identity: String,
    pub payload_sha256: String,
}

/// One node of a decoded schema program.
#[derive(Clone, Debug)]
pub struct SchemaNode {
    pub kind: SchemaKind,
    pub children: Vec<NodeIndex>,
    pub definition: Option<String>,
    pub reference: Option<String>,
    pub error_override: Option<ErrorOverride>,
}

/// A decoded schema program.
#[derive(Clone, Debug)]
pub struct SchemaProgram {
    pub header: ProgramHeader,
    pub root: NodeIndex,
    pub nodes: Vec<SchemaNode>,
}

/// The kinds of schema node that a program may name.
#[derive(Clone, Copy, Debug, PartialEq, Eq, Structural, Hash, PartialOrd, Ord)]
pub enum SchemaKind {
    ComputedField,
    DataclassField,
    ModelField,
    TypedDictField,
    Any,
    Arguments,
    ArgumentsV3,
    Bool,
    Bytes,
    Call,
    Callable,
    Chain,
    Complex,
    CustomError,
    Dataclass,
    DataclassArgs,
    Date,
    DateTime,
    Decimal,
    Default,
    DefinitionRef,
    Definitions,
    Dict,
    Enum,
    Float,
    Fraction,
    FrozenSet,
    FunctionAfter,
    FunctionBefore,
    FunctionPlain,
    FunctionWrap,
    Generator,
    Int,
    Invalid,
    IsInstance,
    IsSubclass,
    Json,
    JsonOrPython,
    LaxOrStrict,
    List,
    Literal,
    MissingSentinel,
    Model,
    ModelFields,
    MultiHostUrl,
    NoneSchema,
    Nullable,
    SetSchema,
    Str,
    TaggedUnion,
    Time,
    TimeDelta,
    Tuple,
    TypedDict,
    Union,
    Url,
    Uuid,
}

/// The kinds that this backend never executes.
pub open spec fn spec_is_unavailable(kind: SchemaKind) -> bool {
    ||| kind == SchemaKind::Any
    ||| kind == SchemaKind::Arguments
    ||| kind == SchemaKind::ArgumentsV3
    ||| kind == SchemaKind::Call
    ||| kind == SchemaKind::Callable
    ||| kind == SchemaKind::Invalid
    ||| kind == SchemaKind::IsInstance
    ||| kind == SchemaKind::IsSubclass
    ||| kind == SchemaKind::MissingSentinel
}

impl SchemaKind {
    pub fn is_unavailable(self) -> (r: bool)
        ensures
            r == spec_is_unavailable(self),
    {
        match self {
            SchemaKind::Any => true,
            SchemaKind::Arguments => true,
            SchemaKind::ArgumentsV3 => true,
            SchemaKind::Call => true,
            SchemaKind::Callable => true,
            SchemaKind::Invalid => true,
            SchemaKind::IsInstance => true,
            SchemaKind::IsSubclass => true,
            SchemaKind::MissingSentinel => true,
            _ => false,
        }
    }
}

/// The immutable header of a compiler program envelope.
#[derive(Clone, Copy, Debug)]
pub struct EnvelopeHeader<'a> {
    pub versions: ContractVersions,
    pub feature_bitmap: u64,
    pub shape_identity: &'a str,
    pub program_identity: [u8; 32],
}

/// A compiler-sealed schema program: its header, root node and canonical
/// bytes.
#[derive(Clone, Copy, Debug)]
pub struct CompilerProgramEnvelope<'a> {
    pub header: EnvelopeHeader<'a>,
    pub root: NodeIndex,
    pub canonical_bytes: &'a [u8],
}

/// A schema program whose compiler envelope matches one concrete type.
///
/// Fields are private so callers cannot manufacture a verified value.
#[derive(Clone, Copy, Debug)]
pub struct VerifiedSchemaProgram<'a> {
    header: EnvelopeHeader<'a>,
    root: NodeIndex,
    canonical_bytes: &'a [u8],
}

impl<'a> VerifiedSchemaProgram<'a> {
    pub closed spec fn spec_header(&self) -> EnvelopeHeader<'a> {
        self.header
    }

    pub closed spec fn spec_root(&self) -> NodeIndex {
        self.root
    }

    pub closed spec fn spec_canonical_bytes(&self) -> Seq<u8> {
        self.canonical_bytes@
    }

    pub fn header(&self) -> (r: EnvelopeHeader<'a>)
        ensures
            r == self.spec_header(),
    {
        self.header
    }

    pub fn root(&self) -> (r: NodeIndex)
        ensures
            r == self.spec_root(),
    {
        self.root
    }

    pub fn canonical_bytes(&self) -> (r: &'a [u8])
        ensures
            r@ == self.spec_canonical_bytes(),
    {
        self.canonical_bytes
    }
}

/// The error `verify_program` gives for an envelope and the expected
/// identities, or `None` when the envelope is accepted; checks run in this
/// order.
pub open spec fn spec_verify_error(
    envelope: CompilerProgramEnvelope,
    expected_program_identity: Seq<u8>,
    expected_shape_identity: Seq<char>,
) -> Option<SchemaVerificationError> {
    let header = envelope.header;
    if header.versions != spec_current_versions() {
        Some(SchemaVerificationError::ContractVersionMismatch {
            expected: spec_current_versions(),
            actual: header.versions,
        })
    } else if header.feature_bitmap != 0 {
        Some(SchemaVerificationError::UnsupportedFeatures(header.feature_bitmap))
    } else if header.shape_identity@.len() == 0
        || crate::text::str_len(header.shape_identity) > MAX_SHAPE_IDENTITY_BYTES {
        Some(SchemaVerificationError::InvalidShapeIdentity)
    } else if header.program_identity@ != expected_program_identity {
        Some(SchemaVerificationError::ProgramIdentityMismatch)
    } else if header.shape_identity@ != expected_shape_identity {
        Some(SchemaVerificationError::ShapeIdentityMismatch)
    } else if envelope.canonical_bytes@.len() == 0 {
        Some(SchemaVerificationError::EmptyProgram)
    } else if envelope.canonical_bytes@.len() > MAX_PROGRAM_BYTES {
        Some(SchemaVerificationError::ProgramTooLarge)
    } else {
        None
    }
}

fn identities_equal(left: &[u8; 32], right: &[u8; 32]) -> (r: bool)
    ensures
        r == (left@ == right@),
{
    let mut index: usize = 0;
    while index < 32
        invariant
            index <= 32,
            left@.len() == 32,
            right@.len() == 32,
            forall|j: int| 0 <= j < index ==> left@[j] == right@[j],
        decreases 32 - index,
    {
        if left[index] != right[index] {
            return false;
        }
        index = index + 1;
    }
    assert(left@ =~= right@);
    true
}

/// Checks only the immutable compiler envelope before user input is read.
pub fn verify_program<'a>(
    envelope: CompilerProgramEnvelope<'a>,
    expected_program_identity: [u8; 32],
    expected_shape_identity: &str,
) -> (r: Result<VerifiedSchemaProgram<'a>, SchemaVerificationError>)
    ensures
        match spec_verify_error(envelope, expected_program_identity@, expected_shape_identity@) {
            Some(e) => r == Err::<VerifiedSchemaProgram<'a>, SchemaVerificationError>(e),
            None => r matches Ok(p) && p.spec_header() == envelope.header
                && p.spec_root() == envelope.root
                && p.spec_canonical_bytes() == envelope.canonical_bytes@,
        },
{
    let header = envelope.header;
    let current = ContractVersions::current();
    if header.versions != current {
        return Err(SchemaVerificationError::ContractVersionMismatch {
            expected: current,
            actual: header.versions,
        });
    }
    let bitmap = header.feature_bitmap;
    assert(bitmap & !0u64 == bitmap) by (bit_vector);
    if bitmap & !SUPPORTED_FEATURES != 0 {
        return Err(SchemaVerificationError::UnsupportedFeatures(bitmap));
    }
    if header.shape_identity.is_empty() || header.shape_identity.len() > MAX_SHAPE_IDENTITY_BYTES {
        return Err(SchemaVerificationError::InvalidShapeIdentity);
    }
    if !identities_equal(&header.program_identity, &expected_program_identity) {
        return Err(SchemaVerificationError::ProgramIdentityMismatch);
    }
    if !str_equal(header.shape_identity, expected_shape_identity) {
        return Err(SchemaVerificationError::ShapeIdentityMismatch);
    }
    if envelope.canonical_bytes.len() == 0 {
        return Err(SchemaVerificationError::EmptyProgram);
    }
    if envelope.canonical_bytes.len() > MAX_PROGRAM_BYTES {
        return Err(SchemaVerificationError::ProgramTooLarge);
    }
    Ok(VerifiedSchemaProgram {
        header: envelope.header,
        root: envelope.root,
        canonical_bytes: envelope.canonical_bytes,
    })
}

#[derive(Clone, Copy, Debug, PartialEq, Eq, Structural)]
pub enum SchemaVerificationError {
    ContractVersionMismatch { expected: ContractVersions, actual: ContractVersions },
    UnsupportedFeatures(u64),
    InvalidShapeIdentity,
    ProgramIdentityMismatch,
    ShapeIdentityMismatch,
    EmptyProgram,
    ProgramTooLarge,
}

/// The lowercase hexadecimal text of a number, without leading zeros.
pub open spec fn lower_hex(n: nat) -> Seq<char>
    decreases n,
{
    if n < 16 {
        seq![crate::canonical::hex_char(n as u8)]
    } else {
        lower_hex(n / 16) + seq![crate::canonical::hex_char((n % 16) as u8)]
    }
}

fn hex_digit_str(d: u64) -> (r: &'static str)
    requires
        d < 16,
    ensures
        r@ == seq![crate::canonical::hex_char(d as u8)],
{
    proof {
        reveal_strlit("0");
        reveal_strlit("1");
        reveal_strlit("2");
        reveal_strlit("3");
        reveal_strlit("4");
        reveal_strlit("5");
        reveal_strlit("6");
        reveal_strlit("7");
        reveal_strlit("8");
        reveal_strlit("9");
        reveal_strlit("a");
        reveal_strlit("b");
        reveal_strlit("c");
        reveal_strlit("d");
        reveal_strlit("e");
        reveal_strlit("f");
    }
    if d == 0 { "0" } else if d == 1 { "1" } else if d == 2 { "2" } else if d == 3 { "3" }
    else if d == 4 { "4" } else if d == 5 { "5" } else if d == 6 { "6" } else if d == 7 { "7" }
    else if d == 8 { "8" } else if d == 9 { "9" } else if d == 10 { "a" } else if d == 11 { "b" }
    else if d == 12 { "c" } else if d == 13 { "d" } else if d == 14 { "e" } else { "f" }
}

/// The lowercase hexadecimal text of a number.
fn hex_text_of(n: u64) -> (r: String)
    ensures
        r@ == lower_hex(n as nat),
    decreases n,
{
    if n < 16 {
        crate::text::owned(hex_digit_str(n))
    } else {
        let mut s = hex_text_of(n / 16);
        s.append(hex_digit_str(n % 16));
        s
    }
}

/// The debug text of contract versions.
pub open spec fn versions_text(v: ContractVersions) -> Seq<char> {
    "ContractVersions { schema_program: "@ + crate::text::decimal(v.schema_program as nat)
        + ", structural_contract: "@ + crate::text::decimal(v.structural_contract as nat)
        + ", structural_call: "@ + crate::text::decimal(v.structural_call as nat) + ", callback_abi: "@
        + crate::text::decimal(v.callback_abi as nat) + " }"@
}

fn versions_debug(v: ContractVersions) -> (r: String)
    ensures
        r@ == versions_text(v),
{
    let mut out = crate::text::owned("ContractVersions { schema_program: ");
    out.append(crate::text::u64_text(v.schema_program as u64).as_str());
    out.append(", structural_contract: ");
    out.append(crate::text::u64_text(v.structural_contract as u64).as_str());
    out.append(", structural_call: ");
    out.append(crate::text::u64_text(v.structural_call as u64).as_str());
    out.append(", callback_abi: ");
    out.append(crate::text::u64_text(v.callback_abi as u64).as_str());
    out.append(" }");
    out
}

/// The human-readable description of a verification failure.
pub open spec fn verification_error_text(e: SchemaVerificationError) -> Seq<char> {
    match e {
        SchemaVerificationError::ContractVersionMismatch { expected, actual } => "schema contract mismatch: expected "@
            + versions_text(expected) + ", found "@ + versions_text(actual),
        SchemaVerificationError::UnsupportedFeatures(features) => "schema program uses unsupported features 0x"@
            + lower_hex(features as nat),
        SchemaVerificationError::InvalidShapeIdentity => "schema shape identity is invalid"@,
        SchemaVerificationError::ProgramIdentityMismatch => "schema program identity does not match the generated bridge"@,
        SchemaVerificationError::ShapeIdentityMismatch => "schema shape identity does not match the generated bridge"@,
        SchemaVerificationError::EmptyProgram => "schema program has no canonical bytes"@,
        SchemaVerificationError::ProgramTooLarge => "schema program exceeds the static byte limit"@,
    }
}

impl SchemaVerificationError {
    /// The human-readable description of the failure.
    pub fn message(&self) -> (r: String)
        ensures
            r@ == verification_error_text(*self),
    {
        match self {
            SchemaVerificationError::ContractVersionMismatch { expected, actual } => {
                let mut out = crate::text::owned("schema contract mismatch: expected ");
                out.append(versions_debug(*expected).as_str());
                out.append(", found ");
                out.append(versions_debug(*actual).as_str());
                out
            },
            SchemaVerificationError::UnsupportedFeatures(features) => {
                let mut out = crate::text::owned("schema program uses unsupported features 0x");
                out.append(hex_text_of(*features).as_str());
                out
            },
            SchemaVerificationError::InvalidShapeIdentity => crate::text::owned("schema shape identity is invalid"),
            SchemaVerificationError::ProgramIdentityMismatch => crate::text::owned(
                "schema program identity does not match the generated bridge",
            ),
            SchemaVerificationError::ShapeIdentityMismatch => crate::text::owned(
                "schema shape identity does not match the generated bridge",
            ),
            SchemaVerificationError::EmptyProgram => crate::text::owned("schema program has no canonical bytes"),
            SchemaVerificationError::ProgramTooLarge => crate::text::owned(
                "schema program exceeds the static byte limit",
            ),
        }
    }
}

/// Two NodeIndex values are equal exactly when their raw values are.
pub proof fn law_node_indices_equal_iff_raw_equal(a: NodeIndex, b: NodeIndex)
    ensures
        a == b <==> a@ == b@,
{
}

} // verus!
