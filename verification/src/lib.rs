//! Pixel-buffer utilities for packed RGBA8 images: sub-rectangle extraction,
//! in-place channel swapping, straight-to-premultiplied alpha conversion, and
//! clipping of a placement rectangle against a surface.
//!
//! A pixel buffer is a flat byte sequence, four bytes per pixel, row-major,
//! with no padding between rows.

pub mod color;
pub mod extract;
pub mod geom;
