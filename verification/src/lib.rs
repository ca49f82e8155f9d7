//! Encoder for uncompressed 24-bit Windows bitmap (BMP) files.
//!
//! The encoder turns an in-memory raster [`image::Image`] into the bytes of a
//! BMP file: a 14-byte file header, a 40-byte bitmap-info header, and the
//! pixel rows with their channels reversed and each row followed by its
//! padding. Every function is verified against a mathematical description of
//! the bytes it produces.

pub mod bmp;
pub mod image;
pub mod little_endian;
pub mod pixel;
pub mod rows;
