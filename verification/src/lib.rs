//! A minimal ray tracer's image pipeline: colours, the pixel buffer and its
//! plain-text pixel-map rendering.

pub mod camera;
pub mod color;
pub mod decimal;
pub mod image;
pub mod tokens;
