//! A small software rasterizer: scalar and vector algebra over integer
//! element types, four line-drawing strategies and a scanline triangle
//! filler, all drawing onto an RGBA image buffer.
pub mod arith;
pub mod backend;
pub mod element;
pub mod error;
pub mod line;
pub mod model;
