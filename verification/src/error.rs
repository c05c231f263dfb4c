//! Error type shared by every fallible operation of the codec.

use vstd::prelude::*;

verus! {

/// Errors that can occur during BlurHash encoding or decoding.
///
/// Every error is an eagerly reported validation failure; no function of
/// this crate returns a partial result.
#[derive(Debug, Clone, PartialEq, Eq)]
pub enum BlurhashError {
    /// The BlurHash string has an invalid length.
    InvalidLength { expected: usize, actual: usize },
    /// A component count lies outside the valid range `1..=9`.
    InvalidComponentCount { component: &'static str, value: u32 },
    /// A character outside the base83 alphabet was encountered.
    InvalidBase83Character(char),
    /// A general encoding failure: a value too large for its base83 field,
    /// or a pixel buffer whose length disagrees with the dimensions.
    EncodingError(String),
    /// The image dimensions are invalid (zero or above the cap).
    InvalidDimensions { width: u32, height: u32, reason: &'static str },
}

impl BlurhashError {
    /// A short description of the error class, for diagnostics.
    pub fn message(&self) -> (r: &'static str)
        ensures
            r@.len() > 0,
    {
        proof {
            reveal_strlit("invalid BlurHash length");
            reveal_strlit("component count out of range");
            reveal_strlit("invalid base83 character");
            reveal_strlit("encoding error");
            reveal_strlit("invalid dimensions");
        }
        match self {
            BlurhashError::InvalidLength { .. } => "invalid BlurHash length",
            BlurhashError::InvalidComponentCount { .. } => "component count out of range",
            BlurhashError::InvalidBase83Character(_) => "invalid base83 character",
            BlurhashError::EncodingError(_) => "encoding error",
            BlurhashError::InvalidDimensions { .. } => "invalid dimensions",
        }
    }
}

} // verus!
