//! The raster image that the encoder consumes.

use vstd::prelude::*;

verus! {

/// A raster image with three bytes per pixel.
///
/// `buffer` holds the pixels row after row, three bytes per pixel, without
/// any padding between rows. The magnitude of `height` is the number of
/// rows; its sign tells a reader of the bitmap file in which order the rows
/// are stored (positive: bottom-up, negative: top-down).
#[derive(Debug, PartialEq, Eq)]
pub struct Image {
    pub width: u32,
    pub height: i32,
    pub buffer: Vec<u8>,
}

/// The magnitude of a height: the number of rows that it stands for.
pub open spec fn row_total(height: i32) -> nat {
    if height < 0 {
        (-height) as nat
    } else {
        height as nat
    }
}

impl Clone for Image {
    /// A copy with the same dimensions and the same pixels.
    fn clone(&self) -> (copy: Image)
        ensures
            copy.width == self.width,
            copy.height == self.height,
            copy.buffer@ == self.buffer@,
    {
        Image { width: self.width, height: self.height, buffer: self.buffer.clone() }
    }
}

impl Image {
    /// Number of rows of the image.
    pub open spec fn spec_rows(&self) -> nat {
        row_total(self.height)
    }

    /// The buffer holds exactly the pixels that the dimensions announce.
    pub open spec fn well_formed(&self) -> bool {
        self.buffer@.len() == 3 * (self.width * self.spec_rows())
    }

    /// Builds an image from its dimensions and pixels, if the buffer has the
    /// length that the dimensions announce.
    pub fn new(width: u32, height: i32, buffer: Vec<u8>) -> (image: Option<Image>)
        ensures
            image is Some <==> buffer@.len() == 3 * (width * row_total(height)),
            image matches Some(made) ==> made.width == width && made.height == height
                && made.buffer == buffer && made.well_formed(),
    {
        let made = Image { width, height, buffer };
        if made.is_well_formed() {
            Some(made)
        } else {
            None
        }
    }

    /// Number of rows of the image.
    pub fn rows(&self) -> (rows: u32)
        ensures
            rows == self.spec_rows(),
    {
        if self.height < 0 {
            (-(self.height as i64)) as u32
        } else {
            self.height as u32
        }
    }

    /// Tells whether the buffer has the length that the dimensions announce.
    pub fn is_well_formed(&self) -> (well_formed: bool)
        ensures
            well_formed == self.well_formed(),
    {
        let width: u128 = self.width as u128;
        let rows: u128 = self.rows() as u128;
        assert(width * rows <= 0xFFFF_FFFF * 0x8000_0000) by (nonlinear_arith)
            requires
                width <= 0xFFFF_FFFF,
                rows <= 0x8000_0000,
        ;
        self.buffer.len() as u128 == 3 * (width * rows)
    }

    /// Number of bytes per pixel: always three.
    pub fn bytes_per_pixel(&self) -> (bytes: u8)
        ensures
            bytes == 3,
    {
        3
    }

    /// Number of bits per pixel: always twenty-four.
    pub fn bits_per_pixel(&self) -> (bits: u8)
        ensures
            bits == 24,
    {
        24
    }
}

} // verus!
