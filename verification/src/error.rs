use vstd::prelude::*;

verus! {

/// Why a capture could not be decoded.
#[derive(Clone, Copy, Debug, PartialEq, Eq, Structural)]
pub enum DecodeError {
    /// The buffer is too short to hold a footer, or its body is not a
    /// non-empty whole number of three-byte pixels.
    MalformedInput,
    /// The dimensions are not positive multiples of the tile size, do not
    /// agree with the number of pixels, or the logical size exceeds the full
    /// size.
    InvalidDimensions,
}

impl DecodeError {
    /// A short description of the error, for diagnostics.
    pub fn message(&self) -> (text: &'static str)
        ensures
            text@ == (match *self {
                DecodeError::MalformedInput => "malformed input"@,
                DecodeError::InvalidDimensions => "invalid dimensions"@,
            }),
    {
        match self {
            DecodeError::MalformedInput => "malformed input",
            DecodeError::InvalidDimensions => "invalid dimensions",
        }
    }
}

} // verus!
