//! The algebra and the pixel surface that the rasterizers build on.
pub mod geometry;
pub mod images;
