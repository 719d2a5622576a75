//! The errors that embedding and extraction report.

use vstd::prelude::*;

verus! {

/// Why a payload could not be embedded or extracted.
#[derive(Debug, Clone, Copy, PartialEq, Eq, Structural)]
pub enum StegoError {
    /// The payload needs more bits than the image has usable pixels.
    CapacityExceeded,
    /// A pixel that the scan has to visit cannot be read from or written to the image.
    PixelAccessFailure,
}

} // verus!
