use vstd::prelude::*;

verus! {

/// Errors surfaced while turning a texture package into sprites.
#[derive(Debug)]
pub enum TexError {
    /// The input is too short to contain a valid header.
    SizeError,
    /// A decompression scheme failed, or is unavailable; carries a diagnostic.
    DecompressionError(String),
    /// An image chunk used an unrecognized pixel sub-format; carries the code.
    UnknownPixel(u8),
    /// An output write failed; carries a diagnostic.
    IoError(String),
}

} // verus!
