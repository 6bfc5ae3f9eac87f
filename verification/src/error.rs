//! The ways a brightness operation can fail.

use vstd::prelude::*;

verus! {

/// Everything that can go wrong while controlling the backlight.
#[derive(Clone, Copy, Debug, PartialEq, Eq, Structural)]
pub enum BacklightError {
    /// A device endpoint is missing or inaccessible.
    IoError,
    /// A value file holds something other than a decimal number.
    FormatError,
    /// The write probe failed at construction, so every write is refused.
    PermissionError,
}

} // verus!
