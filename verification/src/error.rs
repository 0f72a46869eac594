//! The ways an operation of the library can fail.
use vstd::prelude::*;

verus! {

/// Why an operation failed.
#[derive(Debug, Clone, Copy, PartialEq, Eq, Structural)]
pub enum Error {
    /// A pixel or channel coordinate lies outside the image.
    OutOfBounds,
    /// A file could not be decoded into an image.
    Decode,
    /// An image could not be encoded into a file.
    Encode,
    /// A color-space conversion failed.
    Convert,
    /// Two images that must have the same dimensions do not.
    ShapeMismatch,
}

} // verus!
