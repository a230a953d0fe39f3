//! The choice of mitigation.

use vstd::prelude::*;

verus! {

/// How the pass protects a function.
#[derive(Clone, Copy, Debug, PartialEq, Eq, Hash, Structural)]
pub enum Blade {
    /// Not at all: the pass leaves the function alone.
    Off,
    /// With fences, each right at the cut point.
    Lfence,
    /// With fences, each moved up to the start of its basic block.
    LfencePerBlock,
    /// By masking the pointers of the loads that feed the cut points.
    Slh,
}

} // verus!
