use vstd::prelude::*;

verus! {

/// Errors reported by the bitstream-level parsers and the reconstruction
/// helpers of the library.
#[derive(Debug, Clone, PartialEq, Eq)]
pub enum DecoderError {
    /// The input bytes do not form a valid structure.
    MisformedData(String),
    /// The stream asks for something that this decoder does not implement.
    FeatureNotSupported(String),
    /// A reference picture list index does not select a picture.
    ReferenceNotFound(String),
}

} // verus!
