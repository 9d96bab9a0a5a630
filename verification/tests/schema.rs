use pydantic_sifr_core::plan::{ExecutionPlan, PlanError, PlanOp};
use pydantic_sifr_core::schema::{
    verify_program, CompilerProgramEnvelope, ContractVersions, EnvelopeHeader, NodeIndex, SchemaKind,
    SchemaVerificationError,
};

fn envelope<'a>(shape: &'a str, bytes: &'a [u8]) -> CompilerProgramEnvelope<'a> {
    CompilerProgramEnvelope {
        header: EnvelopeHeader {
            versions: ContractVersions::current(),
            feature_bitmap: 0,
            shape_identity: shape,
            program_identity: [7; 32],
        },
        root: NodeIndex::new(2),
        canonical_bytes: bytes,
    }
}

#[test]
fn matching_envelopes_are_verified() {
    let program = verify_program(envelope("shape", b"{}"), [7; 32], "shape").unwrap();
    assert_eq!(program.root().raw(), 2);
    assert_eq!(program.canonical_bytes(), b"{}");
    assert_eq!(program.header().shape_identity, "shape");
    let plan = ExecutionPlan::from_verified(&program).unwrap();
    assert_eq!(plan.root(), NodeIndex::new(2));
    assert_eq!(plan.operations(), &[PlanOp::Enter(NodeIndex::new(2)), PlanOp::Leave(NodeIndex::new(2))]);
}

#[test]
fn envelope_faults_are_checked_in_order() {
    let mut old = envelope("shape", b"{}");
    old.header.versions.callback_abi = 2;
    let error = verify_program(old, [0; 32], "other").unwrap_err();
    assert!(matches!(error, SchemaVerificationError::ContractVersionMismatch { .. }));
    assert_eq!(
        error.message(),
        "schema contract mismatch: expected ContractVersions { schema_program: 1, structural_contract: 1, structural_call: 1, callback_abi: 1 }, found ContractVersions { schema_program: 1, structural_contract: 1, structural_call: 1, callback_abi: 2 }"
    );
    let mut featured = envelope("shape", b"{}");
    featured.header.feature_bitmap = 0x2a;
    let error = verify_program(featured, [7; 32], "shape").unwrap_err();
    assert_eq!(error, SchemaVerificationError::UnsupportedFeatures(0x2a));
    assert_eq!(error.message(), "schema program uses unsupported features 0x2a");
    assert_eq!(verify_program(envelope("", b"{}"), [7; 32], "").unwrap_err(), SchemaVerificationError::InvalidShapeIdentity);
    assert_eq!(verify_program(envelope("shape", b"{}"), [8; 32], "shape").unwrap_err(), SchemaVerificationError::ProgramIdentityMismatch);
    assert_eq!(verify_program(envelope("shape", b"{}"), [7; 32], "other").unwrap_err(), SchemaVerificationError::ShapeIdentityMismatch);
    assert_eq!(verify_program(envelope("shape", b""), [7; 32], "shape").unwrap_err(), SchemaVerificationError::EmptyProgram);
    let long = "s".repeat(4097);
    assert_eq!(verify_program(envelope(&long, b"{}"), [7; 32], &long).unwrap_err(), SchemaVerificationError::InvalidShapeIdentity);
}

#[test]
fn oversized_programs_are_refused() {
    let bytes = vec![b' '; 16 * 1024 * 1024 + 1];
    assert_eq!(verify_program(envelope("shape", &bytes), [7; 32], "shape").unwrap_err(), SchemaVerificationError::ProgramTooLarge);
}

#[test]
fn schema_kinds_know_what_is_unavailable() {
    assert!(SchemaKind::Any.is_unavailable());
    assert!(SchemaKind::IsInstance.is_unavailable());
    assert!(!SchemaKind::Model.is_unavailable());
    assert!(!SchemaKind::NoneSchema.is_unavailable());
}

#[test]
fn node_indices_and_plan_errors() {
    assert_eq!(NodeIndex::new(9).as_usize().unwrap(), 9);
    assert_eq!(PlanError::InvalidVerifiedProgram.message(), "verified schema program cannot form an execution plan");
}
