//! Region-scoped raster image filtering.
//!
//! A [`buffer::PixelBuffer`] holds an RGB canvas. The five filters under
//! [`filter`] transform whole buffers; [`process`] clamps a requested
//! rectangle to the canvas, runs one filter on the extracted sub-buffer and
//! copies the result back, and drives an ordered pipeline of such steps.
#![verifier::loop_isolation(false)]

pub mod arithmetic;
pub mod buffer;
pub mod filter;
pub mod process;
pub mod rect;
pub mod text;
