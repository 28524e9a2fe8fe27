//! The ways in which opening, configuring or using a volume can fail.
use vstd::prelude::*;

verus! {

/// Why an operation on a volume was refused.
#[derive(Clone, Copy, Debug, PartialEq, Eq, Structural)]
pub enum Error {
    /// The value given for the `dimensions` option is not a decimal number
    /// that fits in 32 bits.
    InvalidDimensions,
    /// The backing file exists but is no bitmap image that can be decoded.
    Decode,
    /// The backing image is not square.
    NotSquare,
    /// The raster is too large to be written as a bitmap file, whose header
    /// holds the file length in 32 bits.
    TooLarge,
    /// An address lies beyond the end of the volume, or resolves to a pixel
    /// outside the raster.
    OutOfBounds,
    /// The raster could not be serialised.
    Persistence,
}

impl Error {
    /// A short description of the failure.
    pub fn message(&self) -> (text: &'static str)
        ensures
            text@ == (match *self {
                Error::InvalidDimensions => "dimensions is not a number"@,
                Error::Decode => "backing file is not a bitmap image"@,
                Error::NotSquare => "backing image is not square"@,
                Error::TooLarge => "raster is too large for a bitmap file"@,
                Error::OutOfBounds => "Page index out of range!"@,
                Error::Persistence => "raster could not be serialised"@,
            }),
    {
        match self {
            Error::InvalidDimensions => "dimensions is not a number",
            Error::Decode => "backing file is not a bitmap image",
            Error::NotSquare => "backing image is not square",
            Error::TooLarge => "raster is too large for a bitmap file",
            Error::OutOfBounds => "Page index out of range!",
            Error::Persistence => "raster could not be serialised",
        }
    }
}

} // verus!
