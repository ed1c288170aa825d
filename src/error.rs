//! The ways a render request can be refused.

use vstd::prelude::*;

verus! {

/// Why a render request was refused before any sampling took place.
#[derive(Clone, Copy, Debug, PartialEq, Eq, Structural)]
pub enum RenderError {
    /// Width or height is zero, or the image is too large to address.
    InvalidDimensions,
    /// The minor radius is not positive.
    InvalidRadius,
    /// The window does not fit the fixed-point range of sample points.
    WindowOutOfRange,
    /// Fewer than two stops, no channels, or stops of unequal channel counts.
    InvalidGradient,
    /// A channel count other than 1, 2, 3 or 4.
    UnsupportedChannelCount,
    /// The iteration bound leaves no room for the histogram's last entry.
    TooManyIterations,
}

} // verus!
