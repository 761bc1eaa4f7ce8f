//! A software rasterizer for an ASCII torus: surface samples, already projected
//! to screen cells, are written into a character grid under a depth test, and
//! each drawn cell takes a glyph from a luminance ramp.
//!
//! Real-valued quantities (inverse depth, luminance) travel as the bit patterns
//! of IEEE-754 binary32 values, so that the depth test and the quantisation of
//! luminance are exact integer computations.
pub mod binary32;
pub mod shade;
pub mod frame;
pub mod laws;
