//! Reasons for turning a request down.

use vstd::prelude::*;

verus! {

/// Why a request was turned down.
#[derive(Clone, Copy, Debug, PartialEq, Eq, Structural)]
pub enum CarveError {
    /// What was asked for is not a positive number less than the width of
    /// the picture.
    InvalidTarget,
    /// The seam and the picture do not go together: the seam is not as long
    /// as the picture is high, it names a column outside the picture, or
    /// the picture has no column to spare.
    MalformedSeamOrEnergy,
}

impl CarveError {
    /// A sentence that says what went wrong.
    pub fn message(&self) -> (text: String)
        ensures
            text@ == match *self {
                CarveError::InvalidTarget => {
                    "target width must be a positive number below the current width"@
                },
                CarveError::MalformedSeamOrEnergy => "seam does not fit the picture"@,
            },
    {
        match self {
            CarveError::InvalidTarget => {
                "target width must be a positive number below the current width".to_owned()
            },
            CarveError::MalformedSeamOrEnergy => "seam does not fit the picture".to_owned(),
        }
    }
}

} // verus!
