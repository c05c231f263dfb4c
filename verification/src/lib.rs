//! BlurHash codec: a compact, human-typable string format for a low-frequency
//! approximation of a raster image.
//!
//! The codec is built from three layers, each verified against an exact
//! integer model:
//!
//! * a base83 integer codec over a fixed 83-character alphabet ([`base83`]);
//! * sRGB/linear color conversions in 20-bit fixed point ([`color`]);
//! * the forward and inverse separable discrete cosine transform that turns
//!   an image into quantized frequency components and back
//!   ([`encode`], [`decode`]).
//!
//! Linear-light values are plain integers scaled by [`color::LINEAR_SCALE`],
//! and the decode-time contrast multiplier ("punch") is given in thousandths,
//! so that every function here is a pure, fully specified function of its
//! integer inputs.

pub mod base83;
pub mod color;
pub mod color_roundtrip;
pub mod decode_impl;
pub mod encode_impl;
pub mod error;
pub mod roots;
pub mod trig;

pub use decode_impl::{components, decode};
pub use encode_impl::encode;
pub use error::BlurhashError;
