//! The ways in which the pass gives up on a function.

use vstd::prelude::*;

verus! {

/// Why the pass could not finish. Each of these means that the function or
/// the request is outside what the pass supports; none is meant to be
/// retried.
#[derive(Clone, Copy, Debug, PartialEq, Eq, Hash, Structural)]
pub enum BladeError {
    /// A branch hands a block another number of arguments than the block
    /// has parameters.
    ArityMismatch,
    /// A control-flow edge is realized by an instruction that cannot pass
    /// block arguments.
    UnexpectedPredecessor,
    /// An instruction that needs a fence has not been placed in any block.
    InstNotInLayout,
    /// A block that needs a fence at its start has no instructions.
    EmptyBlock,
    /// A fence was asked for after a sink, which defines nothing.
    FenceAfterSink,
    /// A fence was asked for under a setting that places no fences.
    UnexpectedSetting,
    /// Pointer masking was asked for on a sink instead of a source.
    SlhOnSink,
    /// Pointer masking was asked for on a block parameter.
    SlhOnBlockParam,
    /// Pointer masking was asked for on an instruction that does not load.
    SlhOnNonLoad,
    /// The load to mask has more than one argument with bounds.
    SlhMultiplePointerArgs,
    /// The load to mask has no argument with bounds, and either made-up
    /// bounds are not allowed or the load has no argument at all.
    SlhNoPointerArg,
    /// The flow network has more nodes or edges than the graph can number.
    NetworkTooLarge,
    /// What the flow solver returned does not describe a cut between the
    /// two terminals, or its size differs from the flow value.
    SolverFailure,
}

} // verus!
