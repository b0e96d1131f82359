//! Why a render is refused.

use vstd::prelude::*;

verus! {

/// A configuration that is rejected before any pixel is computed.
#[derive(Clone, Copy, Debug, PartialEq, Eq, Structural)]
pub enum RenderError {
    /// The raster has no columns or no rows.
    InvalidDimension,
    /// The iteration budget is negative.
    InvalidIterationBound,
}

} // verus!
