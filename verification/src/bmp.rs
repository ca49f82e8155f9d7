//! Encoding of an image as an uncompressed 24-bit bitmap file.
//!
//! The file consists of the 14-byte file header, the 40-byte bitmap-info
//! header and the pixel rows. All multi-byte fields are little-endian.

use crate::image::Image;
use crate::little_endian::{
    i32_le_bytes, push_i32_le, push_u16_le, push_u32_le, u16_le_bytes, u32_le_bytes,
};
use crate::pixel::{swap_channels, transform_pixels};
use crate::rows::{
    lemma_packed_rows_len, lemma_pixel_rows_without_padding, lemma_row_count_covers, pack_rows,
    packed_row_len, pixel_rows, row_count, row_stride,
};
use vstd::prelude::*;

verus! {

/// Resolution written into both resolution fields: 72 dots per inch, in
/// pixels per metre.
pub const PIXELS_PER_METER_72_DPI: i32 = 2835;

/// Why an image cannot be encoded.
#[derive(Clone, Copy, Debug, PartialEq, Eq, Structural)]
pub enum EncodeError {
    /// The width does not fit a signed 32-bit field, or the size of the
    /// pixel data or of the file does not fit an unsigned 32-bit field.
    DimensionOverflow,
}

/// The way the pixel data is compressed.
#[allow(non_camel_case_types)]
#[derive(Clone, Copy, Debug, PartialEq, Eq, Structural)]
pub enum CompressionMethod {
    /// No compression.
    BI_RGB,
}

impl CompressionMethod {
    /// The number that stands for the method in the file.
    pub open spec fn spec_tag(self) -> u32 {
        match self {
            CompressionMethod::BI_RGB => 0,
        }
    }

    /// The number that stands for the method in the file.
    pub fn tag(self) -> (tag: u32)
        ensures
            tag == self.spec_tag(),
    {
        match self {
            CompressionMethod::BI_RGB => 0,
        }
    }
}

/// The least multiple of four that is not below `width`.
pub open spec fn padded_width(width: nat) -> nat {
    ((width + 3) / 4 * 4) as nat
}

/// The size recorded for the pixel data of an image of the given width and
/// number of rows: three bytes for each pixel of the rows with their width
/// rounded up to a multiple of four.
pub open spec fn image_data_size(width: nat, rows: nat) -> nat {
    padded_width(width) * rows * 3
}

/// File header of a bitmap file.
#[derive(Clone, Copy, Debug, PartialEq, Eq)]
pub struct Header {
    pub magic: [u8; 2],
    /// The size of the file in bytes.
    pub file_size: u32,
    /// Always 0.
    pub reserved0: u16,
    /// Always 0.
    pub reserved1: u16,
    /// The byte index at which the pixel data starts.
    pub image_offset: u32,
}

/// Bitmap-info header of a bitmap file.
#[derive(Clone, Copy, Debug, PartialEq, Eq)]
pub struct InfoHeader {
    /// The size of this header in bytes.
    pub header_size: u32,
    /// The width of the image in pixels.
    pub image_width: i32,
    /// The height of the image in pixels; negative for an image stored top
    /// row first.
    pub image_height: i32,
    /// The number of colour planes. Always 1.
    pub color_planes: u16,
    /// The number of bits per pixel.
    pub bits_per_pixel: u16,
    /// The way the pixel data is compressed.
    pub compression_method: CompressionMethod,
    /// The size of the pixel data in bytes.
    pub image_size: u32,
    /// The horizontal resolution in pixels per metre.
    pub resolution_x: i32,
    /// The vertical resolution in pixels per metre.
    pub resolution_y: i32,
    /// The number of palette entries. Always 0.
    pub palette_size: u32,
    /// The number of important colours. Always 0.
    pub num_important_colors: u32,
}

impl InfoHeader {
    /// Number of bytes that the header occupies in the file.
    pub const FILE_SIZE: u32 = 40;

    /// The image has an info header: its width fits the signed width field
    /// and the size of its pixel data fits the unsigned size field.
    pub open spec fn representable(image: Image) -> bool {
        &&& image.width <= i32::MAX
        &&& image_data_size(image.width as nat, image.spec_rows()) <= u32::MAX
    }

    /// The info header of an image.
    pub open spec fn spec_new(image: Image) -> InfoHeader {
        InfoHeader {
            header_size: 40,
            image_width: image.width as i32,
            image_height: image.height,
            color_planes: 1,
            bits_per_pixel: 24,
            compression_method: CompressionMethod::BI_RGB,
            image_size: image_data_size(image.width as nat, image.spec_rows()) as u32,
            resolution_x: PIXELS_PER_METER_72_DPI,
            resolution_y: PIXELS_PER_METER_72_DPI,
            palette_size: 0,
            num_important_colors: 0,
        }
    }

    /// The 40 bytes of the header as they stand in the file.
    pub open spec fn bytes(&self) -> Seq<u8> {
        u32_le_bytes(self.header_size) + i32_le_bytes(self.image_width) + i32_le_bytes(
            self.image_height,
        ) + u16_le_bytes(self.color_planes) + u16_le_bytes(self.bits_per_pixel) + u32_le_bytes(
            self.compression_method.spec_tag(),
        ) + u32_le_bytes(self.image_size) + i32_le_bytes(self.resolution_x) + i32_le_bytes(
            self.resolution_y,
        ) + u32_le_bytes(self.palette_size) + u32_le_bytes(self.num_important_colors)
    }

    /// Computes the info header of an image, or fails if a field cannot hold
    /// its value.
    pub fn new(image: &Image) -> (result: Result<InfoHeader, EncodeError>)
        ensures
            result is Ok <==> InfoHeader::representable(*image),
            result matches Ok(info) ==> info == InfoHeader::spec_new(*image),
            result matches Ok(info) ==> info.image_width == image.width && info.image_height
                == image.height,
            result matches Err(error) ==> error == EncodeError::DimensionOverflow,
    {
        if image.width > 0x7FFF_FFFF {
            return Err(EncodeError::DimensionOverflow);
        }
        let padded: u64 = (image.width as u64 + 3) / 4 * 4;
        let rows: u64 = image.rows() as u64;
        assert(padded * rows <= 0x8000_0000 * 0x8000_0000) by (nonlinear_arith)
            requires
                padded <= 0x8000_0000,
                rows <= 0x8000_0000,
        ;
        let image_size: u64 = padded * rows * 3;
        if image_size > 0xFFFF_FFFF {
            return Err(EncodeError::DimensionOverflow);
        }
        Ok(
            InfoHeader {
                header_size: InfoHeader::FILE_SIZE,
                image_width: image.width as i32,
                image_height: image.height,
                color_planes: 1,
                bits_per_pixel: image.bits_per_pixel() as u16,
                compression_method: CompressionMethod::BI_RGB,
                image_size: image_size as u32,
                resolution_x: PIXELS_PER_METER_72_DPI,
                resolution_y: PIXELS_PER_METER_72_DPI,
                palette_size: 0,
                num_important_colors: 0,
            },
        )
    }

    /// Appends the 40 bytes of the header to `buffer`, field by field.
    pub fn write_to_buffer(&self, buffer: &mut Vec<u8>)
        ensures
            final(buffer)@ == old(buffer)@ + self.bytes(),
            final(buffer)@.len() == old(buffer)@.len() + InfoHeader::FILE_SIZE,
    {
        push_u32_le(buffer, self.header_size);
        push_i32_le(buffer, self.image_width);
        push_i32_le(buffer, self.image_height);
        push_u16_le(buffer, self.color_planes);
        push_u16_le(buffer, self.bits_per_pixel);
        push_u32_le(buffer, self.compression_method.tag());
        push_u32_le(buffer, self.image_size);
        push_i32_le(buffer, self.resolution_x);
        push_i32_le(buffer, self.resolution_y);
        push_u32_le(buffer, self.palette_size);
        push_u32_le(buffer, self.num_important_colors);
        proof {
            assert(buffer@ =~= old(buffer)@ + self.bytes());
        }
    }
}

impl Header {
    /// Number of bytes that the header occupies in the file.
    pub const FILE_SIZE: u32 = 14;

    /// The file header that goes with an info header: the pixel data starts
    /// right after the two headers, and the file ends with the pixel data.
    pub open spec fn spec_for_info_header(info: InfoHeader) -> Header {
        Header {
            magic: [0x42u8, 0x4Du8],
            file_size: (info.image_size + 54) as u32,
            reserved0: 0,
            reserved1: 0,
            image_offset: 54,
        }
    }

    /// The 14 bytes of the header as they stand in the file.
    pub open spec fn bytes(&self) -> Seq<u8> {
        self.magic@ + u32_le_bytes(self.file_size) + u16_le_bytes(self.reserved0) + u16_le_bytes(
            self.reserved1,
        ) + u32_le_bytes(self.image_offset)
    }

    /// Computes the file header that goes with an info header, or fails if
    /// the size of the file does not fit its field.
    pub fn for_info_header(info: &InfoHeader) -> (result: Result<Header, EncodeError>)
        ensures
            result is Ok <==> info.image_size + 54 <= u32::MAX,
            result matches Ok(header) ==> header == Header::spec_for_info_header(*info),
            result matches Ok(header) ==> header.image_offset == 54 && header.file_size == 54
                + info.image_size,
            result matches Err(error) ==> error == EncodeError::DimensionOverflow,
    {
        let total_header_size: u32 = Header::FILE_SIZE + InfoHeader::FILE_SIZE;
        if info.image_size > 0xFFFF_FFFF - total_header_size {
            return Err(EncodeError::DimensionOverflow);
        }
        Ok(
            Header {
                magic: [0x42, 0x4D],
                file_size: info.image_size + total_header_size,
                reserved0: 0,
                reserved1: 0,
                image_offset: total_header_size,
            },
        )
    }

    /// Appends the 14 bytes of the header to `buffer`, field by field.
    pub fn write_to_buffer(&self, buffer: &mut Vec<u8>)
        ensures
            final(buffer)@ == old(buffer)@ + self.bytes(),
            final(buffer)@.len() == old(buffer)@.len() + Header::FILE_SIZE,
    {
        buffer.push(self.magic[0]);
        buffer.push(self.magic[1]);
        push_u32_le(buffer, self.file_size);
        push_u16_le(buffer, self.reserved0);
        push_u16_le(buffer, self.reserved1);
        push_u32_le(buffer, self.image_offset);
        proof {
            assert(buffer@ =~= old(buffer)@ + self.bytes());
        }
    }
}

/// The image can be encoded: every header field can hold its value.
pub open spec fn encodable(image: Image) -> bool {
    &&& image.width <= i32::MAX
    &&& image_data_size(image.width as nat, image.spec_rows()) + 54 <= u32::MAX
}

/// Computes the file header and the info header of an image, or fails if a
/// header field cannot hold its value.
pub fn build_headers(image: &Image) -> (result: Result<(Header, InfoHeader), EncodeError>)
    ensures
        result is Ok <==> encodable(*image),
        result matches Ok(headers) ==> headers.1 == InfoHeader::spec_new(*image) && headers.0
            == Header::spec_for_info_header(headers.1),
        result matches Err(error) ==> error == EncodeError::DimensionOverflow,
{
    let info_header = match InfoHeader::new(image) {
        Ok(info_header) => info_header,
        Err(error) => {
            return Err(error);
        },
    };
    let header = match Header::for_info_header(&info_header) {
        Ok(header) => header,
        Err(error) => {
            return Err(error);
        },
    };
    Ok((header, info_header))
}

/// The bytes of the bitmap file for an image: the file header, the info
/// header, and the rows of the buffer with the channels of every pixel
/// reversed.
pub open spec fn encoding(image: Image) -> Seq<u8> {
    Header::spec_for_info_header(InfoHeader::spec_new(image)).bytes() + InfoHeader::spec_new(
        image,
    ).bytes() + pixel_rows(image.width as nat, swap_channels(image.buffer@))
}

/// Appends the bitmap file for `image` to `buffer`.
///
/// Fails, and leaves `buffer` as it was, if a header field cannot hold its
/// value. The image is only read.
pub fn encode(image: &Image, buffer: &mut Vec<u8>) -> (result: Result<(), EncodeError>)
    ensures
        result is Ok <==> encodable(*image),
        result is Ok ==> final(buffer)@ == old(buffer)@ + encoding(*image),
        result is Err ==> final(buffer)@ == old(buffer)@,
        result matches Err(error) ==> error == EncodeError::DimensionOverflow,
{
    let (header, info_header) = match build_headers(image) {
        Ok(headers) => headers,
        Err(error) => {
            return Err(error);
        },
    };
    let pixels = transform_pixels(image.buffer.as_slice());
    header.write_to_buffer(buffer);
    info_header.write_to_buffer(buffer);
    pack_rows(image.width, pixels.as_slice(), buffer);
    proof {
        assert(buffer@ =~= old(buffer)@ + encoding(*image));
    }
    Ok(())
}

/// Rounding up to a multiple of four adds less than four, and nothing to a
/// multiple of four.
pub proof fn lemma_padded_width(width: nat)
    ensures
        padded_width(width) % 4 == 0,
        width <= padded_width(width) < width + 4,
        width % 4 == 0 ==> padded_width(width) == width,
        width % 4 != 0 ==> padded_width(width) == width + 4 - width % 4,
{
}

/// The file header always takes 14 bytes and the info header 40, whatever
/// their fields hold.
pub proof fn lemma_header_sizes(header: Header, info: InfoHeader)
    ensures
        header.bytes().len() == Header::FILE_SIZE == 14,
        info.bytes().len() == InfoHeader::FILE_SIZE == 40,
{
}

/// The encoding consists of the 54 header bytes and of equally long rows.
pub proof fn lemma_encoding_len(image: Image)
    ensures
        encoding(image).len() == 54 + row_count(
            image.width as nat,
            image.buffer@.len() / 3,
        ) * packed_row_len(image.width as nat),
{
    let data = swap_channels(image.buffer@);
    lemma_header_sizes(
        Header::spec_for_info_header(InfoHeader::spec_new(image)),
        InfoHeader::spec_new(image),
    );
    lemma_packed_rows_len(image.width as nat, data, row_count(image.width as nat, data.len() / 3));
}

/// Where each field stands in the encoding of an image that can be encoded.
pub proof fn lemma_layout(image: Image)
    requires
        encodable(image),
    ensures
        encoding(image).len() >= 54,
        encoding(image).subrange(0, 2) == seq![0x42u8, 0x4Du8],
        encoding(image).subrange(2, 6) == u32_le_bytes(
            (54 + image_data_size(image.width as nat, image.spec_rows())) as u32,
        ),
        encoding(image).subrange(6, 8) == u16_le_bytes(0),
        encoding(image).subrange(8, 10) == u16_le_bytes(0),
        encoding(image).subrange(10, 14) == u32_le_bytes(54),
        encoding(image).subrange(14, 18) == u32_le_bytes(40),
        encoding(image).subrange(18, 22) == i32_le_bytes(image.width as i32),
        encoding(image).subrange(22, 26) == i32_le_bytes(image.height),
        encoding(image).subrange(26, 28) == u16_le_bytes(1),
        encoding(image).subrange(28, 30) == u16_le_bytes(24),
        encoding(image).subrange(30, 34) == u32_le_bytes(0),
        encoding(image).subrange(34, 38) == u32_le_bytes(
            image_data_size(image.width as nat, image.spec_rows()) as u32,
        ),
        encoding(image).subrange(38, 42) == i32_le_bytes(2835),
        encoding(image).subrange(42, 46) == i32_le_bytes(2835),
        encoding(image).subrange(46, 50) == u32_le_bytes(0),
        encoding(image).subrange(50, 54) == u32_le_bytes(0),
        encoding(image).subrange(54, encoding(image).len() as int) == pixel_rows(
            image.width as nat,
            swap_channels(image.buffer@),
        ),
{
    let info = InfoHeader::spec_new(image);
    lemma_header_sizes(Header::spec_for_info_header(info), info);
}

/// For a well-formed image whose width is a multiple of four, the pixel
/// section is the buffer with the channels of every pixel reversed and
/// nothing else: no padding, one row for each row of the image, in the order
/// of the buffer.
pub proof fn lemma_encoding_without_padding(image: Image)
    requires
        image.well_formed(),
        image.width % 4 == 0,
    ensures
        pixel_rows(image.width as nat, swap_channels(image.buffer@)) == swap_channels(
            image.buffer@,
        ),
        image.width > 0 ==> row_count(image.width as nat, image.buffer@.len() / 3)
            == image.spec_rows(),
        encoding(image).len() == 54 + image.buffer@.len(),
{
    let width = image.width as nat;
    let rows = image.spec_rows();
    let data = swap_channels(image.buffer@);
    assert(rows * width == width * rows) by (nonlinear_arith);
    lemma_pixel_rows_without_padding(width, rows, data);
    lemma_header_sizes(
        Header::spec_for_info_header(InfoHeader::spec_new(image)),
        InfoHeader::spec_new(image),
    );
}

/// How many rows of a well-formed image are written. The cursor passes
/// over `width % 4` pixels after each row, so it may reach the end of the
/// buffer early: there is one row in the file for each row of the image
/// exactly when the image has no rows, or the pixels passed over in all its
/// rows together are fewer than one stride.
pub proof fn lemma_rows_of_image(image: Image)
    requires
        image.well_formed(),
        image.width > 0,
    ensures
        row_count(image.width as nat, image.buffer@.len() / 3) <= image.spec_rows(),
        row_count(image.width as nat, image.buffer@.len() / 3) == image.spec_rows()
            <==> image.spec_rows() == 0 || image.spec_rows() * (image.width % 4) < image.width
            + image.width % 4,
{
    let width = image.width as nat;
    let w = image.width as int;
    let h = image.spec_rows() as int;
    let a = w % 4;
    let pixels = (image.buffer@.len() / 3) as nat;
    let count = row_count(width, pixels) as int;
    let stride = row_stride(width) as int;
    assert(pixels == w * h);
    lemma_row_count_covers(width, pixels);
    if h == 0 {
        assert(w * h == 0) by (nonlinear_arith)
            requires
                h == 0,
        ;
    } else {
        assert(count <= h) by (nonlinear_arith)
            requires
                count > 0 ==> (count - 1) * stride < w * h,
                stride >= w,
                w > 0,
                h > 0,
        ;
        assert(count == h <==> h * a < w + a) by (nonlinear_arith)
            requires
                count * stride >= w * h,
                count > 0 ==> (count - 1) * stride < w * h,
                stride == w + a,
                count <= h,
                w > 0,
                h > 0,
                a >= 0,
        ;
    }
}

/// The images whose recorded file size is the length of their encoding.
///
/// The recorded size counts three bytes for each pixel of rows rounded up to
/// a multiple of four pixels, while the encoding holds one padded row for
/// each stride of the cursor. For a well-formed image the two agree exactly
/// when the image has no rows, or its width is a multiple of four, or its
/// width leaves a remainder of three and is at least three times the number
/// of rows less two.
pub proof fn lemma_file_size_and_length(image: Image)
    requires
        image.well_formed(),
        encodable(image),
    ensures
        Header::spec_for_info_header(InfoHeader::spec_new(image)).file_size == encoding(
            image,
        ).len() <==> image.spec_rows() == 0 || image.width % 4 == 0 || (image.width % 4 == 3 && 3
            * image.spec_rows() <= image.width + 2),
{
    let width = image.width as nat;
    let w = image.width as int;
    let h = image.spec_rows() as int;
    let a = w % 4;
    let count = row_count(width, image.buffer@.len() / 3) as int;
    let row = packed_row_len(width) as int;
    let padded = padded_width(width) as int;
    let recorded = padded * h * 3;
    lemma_encoding_len(image);
    lemma_padded_width(width);
    assert(Header::spec_for_info_header(InfoHeader::spec_new(image)).file_size == 54 + recorded);
    assert(encoding(image).len() == 54 + count * row);
    if w == 0 {
        assert(count * row == 0 && recorded == 0) by (nonlinear_arith)
            requires
                count == 0,
                recorded == padded * h * 3,
                padded == 0,
        ;
    } else {
        lemma_rows_of_image(image);
        if h == 0 {
            assert(count * row == 0 && recorded == 0) by (nonlinear_arith)
                requires
                    count == 0,
                    recorded == padded * h * 3,
                    h == 0,
            ;
        } else if a == 0 {
            assert(count * row == recorded) by (nonlinear_arith)
                requires
                    count == h <==> h * a < w + a,
                    a == 0,
                    w > 0,
                    row == 3 * w,
                    recorded == padded * h * 3,
                    padded == w,
            ;
        } else if a == 3 {
            assert(count * row == recorded <==> 3 * h <= w + 2) by (nonlinear_arith)
                requires
                    count == h <==> h * a < w + a,
                    0 <= count <= h,
                    a == 3,
                    row == 3 * w + 3,
                    recorded == padded * h * 3,
                    padded == w + 1,
                    w > 0,
            ;
        } else {
            assert(count * row < recorded) by (nonlinear_arith)
                requires
                    0 <= count <= h,
                    h > 0,
                    row == 3 * w + a,
                    recorded == padded * h * 3,
                    padded == w + 4 - a,
                    1 <= a <= 2,
                    w > 0,
            ;
        }
    }
}

/// The sign of the height reaches nothing but the height field: two images
/// of the same width and pixels whose heights differ only in sign have
/// encodings that differ only in the four bytes of that field, so the rows
/// stand in the file in the order of the buffer either way.
pub proof fn lemma_height_sign_only_in_height_field(image: Image, flipped: Image)
    requires
        flipped.width == image.width,
        flipped.buffer@ == image.buffer@,
        flipped.height == -image.height,
    ensures
        encodable(flipped) == encodable(image),
        encoding(flipped).len() == encoding(image).len(),
        encoding(flipped).subrange(0, 22) == encoding(image).subrange(0, 22),
        encoding(image).subrange(22, 26) == i32_le_bytes(image.height),
        encoding(flipped).subrange(22, 26) == i32_le_bytes(flipped.height),
        encoding(flipped).subrange(26, encoding(flipped).len() as int) == encoding(image).subrange(
            26,
            encoding(image).len() as int,
        ),
{
    let info = InfoHeader::spec_new(image);
    let other = InfoHeader::spec_new(flipped);
    lemma_header_sizes(Header::spec_for_info_header(info), info);
    lemma_header_sizes(Header::spec_for_info_header(other), other);
    assert(Header::spec_for_info_header(other) == Header::spec_for_info_header(info));
}

} // verus!
