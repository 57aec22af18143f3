//! The failures that a run can end in.

use vstd::prelude::*;

verus! {

/// Why a run produced no matrix and no error bound.
#[derive(Clone, Copy, Debug, PartialEq, Eq, Structural)]
pub enum SirkError {
    /// No compute device or capability was available before the first iteration.
    Setup,
    /// The requested dimension needs an agent port or matrix cell that the
    /// record format cannot address, so no valid graph can be built for it.
    ContractViolation,
    /// The device failed during a dispatch, or the matrix that came back does
    /// not have the size of the output buffer.
    Device,
    /// The shift sequence is empty.
    DegenerateInput,
    /// The host reported a step that the orchestrator was not waiting for.
    OutOfOrder,
}

} // verus!
