//! The errors and the options of the rotation and stitching operations.

use vstd::prelude::*;

verus! {

/// The errors that can occur when reading a buffer in rotation and
/// stitching actions.
#[derive(Debug, PartialEq, Eq, Clone, Copy, Structural)]
pub enum ParsingError {
    /// The image buffer passed contains no data.
    EmptyBufferError,
    /// The length of the image buffer passed does not match the dimensions
    /// given: it is not width * height * channels.
    BufferSizeMismatch,
}

/// Which image ends up on top where the two overlap.
#[derive(Debug, PartialEq, Eq, Clone, Copy, Structural)]
pub enum StitchingOrder {
    /// Keep the source (the image that is not rotated) on top.
    SourceOnTop,
    /// Keep the appendage (the rotated image) on top.
    AppendageOnTop,
}

/// The algorithm used to rotate the appendage before stitching.
#[derive(Debug, PartialEq, Eq, Clone, Copy, Structural)]
pub enum StitchingQuality {
    /// Nearest-neighbour rotation at the image's own resolution.
    Fast,
    /// Rotation at eight times the resolution, reduced by majority vote.
    Fancy,
}

/// The width, the height and the buffer of an image, or the reason why
/// there is none.
pub type StitchingResult<T> = Result<(usize, usize, Vec<T>), ParsingError>;

impl ParsingError {
    /// The text that describes the error.
    pub fn message(&self) -> (r: &'static str)
        ensures
            r@ == (match *self {
                ParsingError::EmptyBufferError => "Buffer is empty"@,
                ParsingError::BufferSizeMismatch => "Buffer is incomplete"@,
            }),
    {
        match self {
            ParsingError::EmptyBufferError => "Buffer is empty",
            ParsingError::BufferSizeMismatch => "Buffer is incomplete",
        }
    }
}

} // verus!
