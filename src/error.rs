//! The errors that the algebra and the rasterizers report.
use vstd::prelude::*;

verus! {

#[derive(Debug, Clone, Copy, PartialEq, Eq, Structural)]
pub enum RenderError {
    /// An integer division whose divisor is zero.
    DivisionByZero,
    /// A vector of length zero where a direction is needed.
    DegenerateGeometry,
    /// A pixel position outside the surface.
    OutOfBounds,
}

} // verus!
