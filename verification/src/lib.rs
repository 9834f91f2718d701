//! Converts a raster image into an ASCII-art character grid and renders the
//! grid back into a raster image.
//!
//! The pipeline runs in two stages. The quantizer decodes an image, shrinks
//! it to a thumbnail, converts it to grayscale, and maps each pixel's
//! luminance to a character of an ordered alphabet (darkest character first).
//! The renderer takes per-glyph raster data, draws it onto an oversized RGBA
//! canvas, tracks the bounding box of drawn content, and crops the canvas to
//! that box.

use vstd::prelude::*;

pub mod imgio;
pub mod quantize;
pub mod render;

verus! {

/// The error taxonomy of the pipeline. Every failure is reported through one
/// of these variants; no function of this crate panics on inputs its
/// contract admits.
#[derive(Clone, Copy, Debug, PartialEq, Eq, Structural)]
pub enum AartError {
    /// The input bytes could not be parsed as an image.
    DecodeError,
    /// The alphabet is empty, so no luminance bucket exists.
    InvalidAlphabet,
    /// The requested font size is not positive.
    InvalidFontSize,
    /// The embedded font could not be parsed.
    FontLoadError,
    /// The final raster could not be encoded.
    EncodeError,
}

} // verus!
