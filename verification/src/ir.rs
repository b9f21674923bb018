//! The parts of the lowered program that the effect, dispatch and linking
//! rules read.

use vstd::prelude::*;

verus! {

/// Position of an operation in the execution plan.
#[derive(Clone, Copy, Debug, PartialEq, Eq, Structural)]
pub struct PlanNodeId(pub usize);

/// How a backend turns a block into a value.
#[derive(Clone, Copy, Debug, PartialEq, Eq, Structural)]
pub enum ExecutionMode {
    /// Rendered in process, to a value.
    InlineValue,
    /// Spliced in process, to a syntax tree.
    InlineAst,
    /// Run by a hosted process.
    Shim,
}

/// The renderer that splices values into a block, by its catalog number.
#[derive(Clone, Copy, Debug, PartialEq, Eq, Structural)]
pub struct SpliceRenderer(pub u32);

/// What the catalog says of one backend.
#[derive(Debug)]
pub struct BackendInterface {
    pub canonical: String,
    pub pure: bool,
    pub execution: ExecutionMode,
    pub renderer: SpliceRenderer,
}

/// How a schedule treats the work under it.
#[derive(Clone, Copy, Debug, PartialEq, Eq, Structural)]
pub enum PlanScheduleKind {
    Autonomous,
    Lazy,
    Other,
}

/// What one operation of the plan does.
#[derive(Debug)]
pub enum PlanNodeKind {
    Text,
    Load { name: String },
    Store { name: String },
    Group,
    Call,
    Request,
    Schedule { kind: PlanScheduleKind },
    Exec { env_id: u32, attr: Option<String>, backend: BackendInterface },
}

/// One operation of the plan.
#[derive(Debug)]
pub struct PlanNode {
    pub kind: PlanNodeKind,
}

/// How one operation depends on another.
#[derive(Clone, Copy, Debug, PartialEq, Eq, Structural)]
pub enum PlanEdgeKind {
    /// `from` is a part of `to`.
    PartOf,
    /// Any other dependency.
    Other,
}

/// A dependency between two operations.
#[derive(Clone, Copy, Debug)]
pub struct PlanEdge {
    pub from: PlanNodeId,
    pub to: PlanNodeId,
    pub kind: PlanEdgeKind,
}

/// The operations of a program and their dependencies.
#[derive(Debug)]
pub struct ExecutionPlan {
    pub nodes: Vec<PlanNode>,
    pub edges: Vec<PlanEdge>,
}

impl ExecutionPlan {
    /// Whether every edge joins operations of the plan.
    pub open spec fn wf(self) -> bool {
        forall|i: int|
            0 <= i < self.edges@.len() ==> (#[trigger] self.edges@[i]).from.0 < self.nodes@.len()
                && self.edges@[i].to.0 < self.nodes@.len()
    }
}

/// A lowered expression.
#[derive(Debug)]
pub enum OIr {
    Text(String),
    Load(String),
    Store { name: String },
    Invoke { name: String },
    Exec { env_id: u32, attr: Option<String>, backend: BackendInterface, body: Vec<OIr> },
}

} // verus!
