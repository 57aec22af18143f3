//! The symbolic state model: one parameter record per basis wavefunction.
//!
//! A record describes `c * exp(-alpha * (x - x0)^2 + i * k0 * x)`. Every real
//! coefficient is held as its binary32 bit pattern, which is what the device
//! reads and what the host's arithmetic converts from and to.

use vstd::prelude::*;

verus! {

/// Family tag of the Gaussian-type wave packet.
pub const GAUSSIAN: u32 = 0;

/// Bit pattern of positive infinity, the largest pattern that is a positive
/// real and not a NaN.
pub const POSITIVE_INFINITY_BITS: u32 = 0x7F80_0000;

/// One basis wavefunction, by its parameters.
#[derive(Clone, Copy, Debug, PartialEq, Eq, Structural)]
pub struct SymbolicParams {
    /// Functional family of the record.
    pub type_id: u32,
    /// Width (decay) coefficient, as a bit pattern.
    pub alpha: u32,
    /// Center coordinate, as a bit pattern.
    pub x0: u32,
    /// Momentum coordinate, as a bit pattern.
    pub k0: u32,
    /// Real part of the amplitude, as a bit pattern.
    pub amp_real: u32,
    /// Imaginary part of the amplitude, as a bit pattern.
    pub amp_imag: u32,
}

/// A complex value of the output matrix: two real lanes, as bit patterns.
#[derive(Clone, Copy, Debug, PartialEq, Eq, Structural)]
pub struct Complex32 {
    /// Real lane.
    pub re: u32,
    /// Imaginary lane.
    pub im: u32,
}

impl SymbolicParams {
    /// The width coefficient is strictly positive: its sign bit is clear, it is
    /// not zero and it is not a NaN.
    pub open spec fn has_positive_width(self) -> bool {
        0 < self.alpha <= POSITIVE_INFINITY_BITS
    }

    /// A record of a known family that can be normalized.
    pub open spec fn well_formed(self) -> bool {
        self.type_id == GAUSSIAN && self.has_positive_width()
    }

    /// Tells whether the record is of a known family and has a strictly
    /// positive width.
    pub fn is_well_formed(&self) -> (ok: bool)
        ensures
            ok == self.well_formed(),
    {
        self.type_id == GAUSSIAN && 0 < self.alpha && self.alpha <= POSITIVE_INFINITY_BITS
    }
}

} // verus!
