use vstd::prelude::*;

use crate::schema::{NodeIndex, VerifiedSchemaProgram};

verus! {

#[derive(Clone, Copy, Debug, PartialEq, Eq, Structural)]
pub enum PlanOp {
    Enter(NodeIndex),
    Leave(NodeIndex),
}

/// The operations that execute a verified program, starting at its root.
#[derive(Clone, Debug)]
pub struct ExecutionPlan {
    root: NodeIndex,
    operations: Vec<PlanOp>,
}

impl ExecutionPlan {
    pub closed spec fn spec_root(&self) -> NodeIndex {
        self.root
    }

    pub closed spec fn spec_operations(&self) -> Seq<PlanOp> {
        self.operations@
    }

    /// The plan enters and then leaves the program's root node.
    pub fn from_verified(program: &VerifiedSchemaProgram) -> (r: Result<ExecutionPlan, PlanError>)
        ensures
            r matches Ok(plan) && plan.spec_root() == program.spec_root()
                && plan.spec_operations() == seq![PlanOp::Enter(program.spec_root()), PlanOp::Leave(program.spec_root())],
    {
        let root = program.root();
        let operations = vec![PlanOp::Enter(root), PlanOp::Leave(root)];
        Ok(ExecutionPlan { root, operations })
    }

    pub fn root(&self) -> (r: NodeIndex)
        ensures
            r == self.spec_root(),
    {
        self.root
    }

    pub fn operations(&self) -> (r: &[PlanOp])
        ensures
            r@ == self.spec_operations(),
    {
        self.operations.as_slice()
    }
}

#[derive(Clone, Copy, Debug, PartialEq, Eq, Structural)]
pub enum PlanError {
    InvalidVerifiedProgram,
}

impl PlanError {
    pub fn message(&self) -> (r: &'static str)
        ensures
            r@ == "verified schema program cannot form an execution plan"@,
    {
        "verified schema program cannot form an execution plan"
    }
}

} // verus!
