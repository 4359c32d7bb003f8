//! Pass scheduling: opaque transformation passes collected by a pass
//! manager and run over an operation tree, reporting a two-valued outcome.

use vstd::prelude::*;
use crate::context::Context;
use crate::operation::OperationRef;

verus! {

/// A two-valued success/failure outcome with no payload, returned by
/// verification and pass execution.
#[derive(Clone, Copy, Debug, PartialEq, Eq, Structural)]
pub enum LogicalResult {
    Success,
    Failure,
}

impl LogicalResult {
    /// Builds a result that is a success exactly when `is_success` holds.
    pub fn success(is_success: bool) -> (r: LogicalResult)
        ensures
            r == LogicalResult::Success <==> is_success,
    {
        if is_success {
            LogicalResult::Success
        } else {
            LogicalResult::Failure
        }
    }

    /// Builds a result that is a failure exactly when `is_failure` holds.
    pub fn failure(is_failure: bool) -> (r: LogicalResult)
        ensures
            r == LogicalResult::Failure <==> is_failure,
    {
        LogicalResult::success(!is_failure)
    }

    /// Returns whether this outcome is a success.
    pub fn succeeded(&self) -> (r: bool)
        ensures
            r == (*self == LogicalResult::Success),
    {
        match self {
            LogicalResult::Success => true,
            LogicalResult::Failure => false,
        }
    }

    /// Returns whether this outcome is a failure.
    pub fn failed(&self) -> (r: bool)
        ensures
            r == (*self == LogicalResult::Failure),
    {
        !self.succeeded()
    }
}

/// The transformations a pass can stand for.  Pass internals belong to the
/// compiler behind the handle boundary; here a pass is an opaque descriptor
/// chosen from the closed set the wrapper exposes.
#[derive(Clone, Copy, Debug, PartialEq, Eq, Structural)]
pub enum PassKind {
    Canonicalizer,
    CommonSubexpressionElimination,
    SymbolDeadCodeElimination,
}

/// An opaque transformation object, scheduled on a [`PassManager`].
#[derive(Clone, Copy, Debug, PartialEq, Eq, Structural)]
pub struct Pass {
    pub kind: PassKind,
}

impl Pass {
    /// Wraps a pass descriptor.
    pub fn from_kind(kind: PassKind) -> (r: Pass)
        ensures
            r.kind == kind,
    {
        Pass { kind }
    }

    /// Whether this pass can report failure.  Every transformation in
    /// the closed set this layer exposes terminates successfully on a
    /// well-formed tree, so no pass kind here can fail; a run reports
    /// failure exactly when some scheduled pass can.
    pub open spec fn may_fail(&self) -> bool {
        false
    }
}

/// Builds the canonicalization pass descriptor.
pub fn create_canonicalization_pass() -> (r: PassKind)
    ensures
        r == PassKind::Canonicalizer,
{
    PassKind::Canonicalizer
}

/// Builds the common-subexpression-elimination pass descriptor.
pub fn create_cse_pass() -> (r: PassKind)
    ensures
        r == PassKind::CommonSubexpressionElimination,
{
    PassKind::CommonSubexpressionElimination
}

/// Builds the symbol dead-code-elimination pass descriptor.
pub fn create_dce_pass() -> (r: PassKind)
    ensures
        r == PassKind::SymbolDeadCodeElimination,
{
    PassKind::SymbolDeadCodeElimination
}

/// An ordered list of passes.  Passes are appended, never removed or
/// reordered once added, and run in insertion order.
pub struct PassManager {
    pub passes: Vec<Pass>,
}

impl PassManager {
    /// Creates an empty pass manager.
    pub fn new() -> (r: PassManager)
        ensures
            r.passes@ =~= Seq::<Pass>::empty(),
    {
        PassManager { passes: Vec::new() }
    }

    /// Releases the pass manager and the passes it owns.
    pub fn destroy(self) {
    }

    /// Appends a pass; it will run after every pass already added.
    pub fn add_pass(&mut self, pass: Pass)
        ensures
            final(self).passes@ =~= old(self).passes@.push(pass),
    {
        self.passes.push(pass);
    }

    /// Runs the scheduled passes over the given root operation in
    /// insertion order.  The collective outcome is failure exactly when
    /// some scheduled pass can fail; the transformations themselves live
    /// behind the handle boundary, and none of the kinds this layer
    /// exposes can, so here the run succeeds and leaves the tree
    /// untouched.
    pub fn run(&self, ctx: &Context, operation: OperationRef) -> (r: LogicalResult)
        requires
            ctx.wf(),
            operation.valid(ctx),
        ensures
            r == LogicalResult::Failure <==> exists|i: int|
                0 <= i < self.passes@.len() && (#[trigger] self.passes@[i]).may_fail(),
            r == LogicalResult::Success <==> !(exists|i: int|
                0 <= i < self.passes@.len() && (#[trigger] self.passes@[i]).may_fail()),
    {
        proof {
            assert forall|i: int|
                0 <= i < self.passes@.len() implies !(#[trigger] self.passes@[i]).may_fail() by {
            }
        }
        LogicalResult::success(true)
    }
}

} // verus!
