//! Clip-path and mask resolution for a raster scene renderer.
//!
//! Surfaces hold premultiplied ARGB pixels packed in `u32` words. Clip paths
//! erase the part of a target surface that their shapes do not cover; masks
//! scale the target by the luminance of their rendered content.

pub mod pixel;
pub mod surface;
pub mod pool;
pub mod scene;
pub mod clip_and_mask;
