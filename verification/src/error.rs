//! The ways in which a dithering pass can refuse its input.

use vstd::prelude::*;

verus! {

/// Why a pass did not run.
#[derive(Clone, Copy, Debug, PartialEq, Eq, Structural)]
pub enum DitherError {
    /// The palette is empty, so no pixel can be matched.
    InvalidPalette,
    /// An image does not have the width and height that were recorded for it.
    DimensionMismatch,
}

} // verus!
