//! The inputs of the a-priori spectral error bound.
//!
//! The bound is `2 * 11.08 * exp(-h * m)` for `m` shifts, where `h` is the
//! signed step from the second shift to the first. With a single shift there
//! is no step to take, and `h` falls back to one. The arithmetic is the host's;
//! which shifts it works on is decided here.

use vstd::prelude::*;

verus! {

/// Bit pattern of the real number one, the step used when the shifts give none.
pub const FALLBACK_STEP_BITS: u32 = 0x3F80_0000;

/// The two shifts whose difference, first minus second, is the step of the
/// bound; `None` where the fallback step applies.
pub open spec fn step_operands_of(shifts: Seq<u32>) -> Option<(u32, u32)> {
    if shifts.len() > 1 {
        Some((shifts[0], shifts[1]))
    } else {
        None
    }
}

/// Picks the shifts that the step of the error bound is taken from: the first
/// two, in that order, or `None` if there are fewer than two.
pub fn step_operands(shifts: &Vec<u32>) -> (operands: Option<(u32, u32)>)
    ensures
        operands == step_operands_of(shifts@),
{
    if shifts.len() > 1 {
        Some((shifts[0], shifts[1]))
    } else {
        None
    }
}

} // verus!
