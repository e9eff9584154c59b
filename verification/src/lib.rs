//! The discrete core of an escape-time fractal renderer.
//!
//! Everything here is integer logic with a proved contract: the bounded
//! iteration that classifies a point ([`escape`]), the rule that turns a
//! verdict into a pixel ([`render`]), the final quantization of a color to
//! bytes ([`pixel`]), and the naming of an output file after the clock
//! ([`output`]). The numeric kernels that surround it (complex arithmetic,
//! color-space conversion, palette interpolation) work on real numbers and
//! are supplied by the caller.

pub mod escape;
pub mod output;
pub mod pixel;
pub mod render;
