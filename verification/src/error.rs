//! Failures of the surface pipeline.

use vstd::prelude::*;

verus! {

/// Why a surface could not be computed.
#[derive(Clone, Copy, Debug, PartialEq, Eq, Structural)]
pub enum SesError {
    /// The flat array of centers does not hold whole coordinate triples.
    InvalidCenterLength,
    /// The number of radii differs from the number of centers.
    RadiiMismatch,
    /// The lattice has more points than can be addressed.
    GridTooLarge,
}

impl SesError {
    /// The text of the message that goes with each failure.
    pub open spec fn text(self) -> Seq<char> {
        match self {
            SesError::InvalidCenterLength => "centers length must be multiple of 3"@,
            SesError::RadiiMismatch => "radii length must match centers"@,
            SesError::GridTooLarge => "Grid dimensions too large"@,
        }
    }

    /// A human-readable message for the failure.
    pub fn message(&self) -> (s: String)
        ensures
            s@ == self.text(),
    {
        broadcast use vstd::string::to_string_from_display_ensures_for_str;

        match self {
            SesError::InvalidCenterLength => "centers length must be multiple of 3".to_string(),
            SesError::RadiiMismatch => "radii length must match centers".to_string(),
            SesError::GridTooLarge => "Grid dimensions too large".to_string(),
        }
    }
}

} // verus!
