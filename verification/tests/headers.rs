use bmp_encoder::bmp::{
    build_headers, CompressionMethod, EncodeError, Header, InfoHeader, PIXELS_PER_METER_72_DPI,
};
use bmp_encoder::image::Image;

fn blank(width: u32, height: i32) -> Image {
    let rows = height.unsigned_abs() as usize;
    Image { width, height, buffer: vec![0u8; 3 * width as usize * rows] }
}

#[test]
fn header_sizes() {
    assert_eq!(Header::FILE_SIZE, 14);
    assert_eq!(InfoHeader::FILE_SIZE, 40);
}

#[test]
fn serialized_headers_have_their_fixed_sizes() {
    let info = InfoHeader::new(&blank(7, 5)).unwrap();
    let header = Header::for_info_header(&info).unwrap();
    let mut bytes = Vec::new();
    header.write_to_buffer(&mut bytes);
    assert_eq!(bytes.len(), 14);
    info.write_to_buffer(&mut bytes);
    assert_eq!(bytes.len(), 14 + 40);
}

#[test]
fn info_header_of_two_by_two() {
    let info = InfoHeader::new(&blank(2, 2)).unwrap();
    assert_eq!(info.header_size, 40);
    assert_eq!(info.image_width, 2);
    assert_eq!(info.image_height, 2);
    assert_eq!(info.color_planes, 1);
    assert_eq!(info.bits_per_pixel, 24);
    assert_eq!(info.compression_method, CompressionMethod::BI_RGB);
    assert_eq!(info.image_size, 24);
    assert_eq!(info.resolution_x, 2835);
    assert_eq!(info.resolution_y, 2835);
    assert_eq!(info.palette_size, 0);
    assert_eq!(info.num_important_colors, 0);
}

#[test]
fn file_header_of_two_by_two() {
    let info = InfoHeader::new(&blank(2, 2)).unwrap();
    let header = Header::for_info_header(&info).unwrap();
    assert_eq!(header.magic, [0x42, 0x4D]);
    assert_eq!(header.image_offset, 54);
    assert_eq!(header.file_size, 54 + info.image_size);
    assert_eq!(header.file_size, 78);
    assert_eq!(header.reserved0, 0);
    assert_eq!(header.reserved1, 0);
}

#[test]
fn image_size_rounds_the_width_up_to_a_multiple_of_four() {
    assert_eq!(InfoHeader::new(&blank(0, 9)).unwrap().image_size, 0);
    assert_eq!(InfoHeader::new(&blank(1, 1)).unwrap().image_size, 12);
    assert_eq!(InfoHeader::new(&blank(2, 1)).unwrap().image_size, 12);
    assert_eq!(InfoHeader::new(&blank(3, 1)).unwrap().image_size, 12);
    assert_eq!(InfoHeader::new(&blank(4, 1)).unwrap().image_size, 12);
    assert_eq!(InfoHeader::new(&blank(5, 1)).unwrap().image_size, 24);
    assert_eq!(InfoHeader::new(&blank(5, 3)).unwrap().image_size, 72);
    assert_eq!(InfoHeader::new(&blank(8, 2)).unwrap().image_size, 48);
}

#[test]
fn resolution_is_always_72_dpi() {
    assert_eq!(PIXELS_PER_METER_72_DPI, 2835);
    let info = InfoHeader::new(&blank(640, 480)).unwrap();
    assert_eq!(info.resolution_x, PIXELS_PER_METER_72_DPI);
    assert_eq!(info.resolution_y, PIXELS_PER_METER_72_DPI);
}

#[test]
fn height_sign_is_kept_in_the_info_header() {
    let top_down = InfoHeader::new(&blank(4, -3)).unwrap();
    assert_eq!(top_down.image_height, -3);
    assert_eq!(top_down.image_size, 36);
    let bottom_up = InfoHeader::new(&blank(4, 3)).unwrap();
    assert_eq!(bottom_up.image_height, 3);
    assert_eq!(bottom_up.image_size, 36);
}

#[test]
fn lowest_height_is_kept() {
    let image = Image { width: 0, height: i32::MIN, buffer: Vec::new() };
    let info = InfoHeader::new(&image).unwrap();
    assert_eq!(info.image_height, i32::MIN);
    assert_eq!(info.image_size, 0);
}

#[test]
fn width_beyond_signed_range_is_rejected() {
    let image = Image { width: 0x8000_0000, height: 0, buffer: Vec::new() };
    assert_eq!(InfoHeader::new(&image), Err(EncodeError::DimensionOverflow));
    let image = Image { width: u32::MAX, height: 1, buffer: Vec::new() };
    assert_eq!(InfoHeader::new(&image), Err(EncodeError::DimensionOverflow));
}

#[test]
fn widest_width_is_accepted() {
    let image = Image { width: 0x7FFF_FFFF, height: 0, buffer: Vec::new() };
    let info = InfoHeader::new(&image).unwrap();
    assert_eq!(info.image_width, i32::MAX);
    assert_eq!(info.image_size, 0);
}

#[test]
fn image_size_beyond_field_is_rejected() {
    let image = Image { width: 40000, height: 40000, buffer: Vec::new() };
    assert_eq!(InfoHeader::new(&image), Err(EncodeError::DimensionOverflow));
    let image = Image { width: 4, height: 357913942, buffer: Vec::new() };
    assert_eq!(InfoHeader::new(&image), Err(EncodeError::DimensionOverflow));
}

#[test]
fn file_size_beyond_field_is_rejected() {
    let image = Image { width: 4, height: 357913941, buffer: Vec::new() };
    let info = InfoHeader::new(&image).unwrap();
    assert_eq!(info.image_size, 4294967292);
    assert_eq!(Header::for_info_header(&info), Err(EncodeError::DimensionOverflow));
}

#[test]
fn largest_file_size_is_accepted() {
    let image = Image { width: 4, height: 357913936, buffer: Vec::new() };
    let info = InfoHeader::new(&image).unwrap();
    assert_eq!(info.image_size, 4294967232);
    let header = Header::for_info_header(&info).unwrap();
    assert_eq!(header.file_size, 4294967286);
}

#[test]
fn file_header_bytes() {
    let header = Header {
        magic: [0x42, 0x4D],
        file_size: 0x0102_0304,
        reserved0: 0,
        reserved1: 0,
        image_offset: 54,
    };
    let mut bytes = vec![0xAA];
    header.write_to_buffer(&mut bytes);
    assert_eq!(
        bytes,
        vec![0xAA, 0x42, 0x4D, 0x04, 0x03, 0x02, 0x01, 0, 0, 0, 0, 54, 0, 0, 0]
    );
}

#[test]
fn info_header_bytes() {
    let info = InfoHeader {
        header_size: 40,
        image_width: 258,
        image_height: -2,
        color_planes: 1,
        bits_per_pixel: 24,
        compression_method: CompressionMethod::BI_RGB,
        image_size: 0x0030_0020,
        resolution_x: 2835,
        resolution_y: 2835,
        palette_size: 0,
        num_important_colors: 0,
    };
    let mut bytes = Vec::new();
    info.write_to_buffer(&mut bytes);
    let expected: Vec<u8> = vec![
        40, 0, 0, 0, // header size
        2, 1, 0, 0, // width
        0xFE, 0xFF, 0xFF, 0xFF, // height
        1, 0, // planes
        24, 0, // bits per pixel
        0, 0, 0, 0, // compression
        0x20, 0x00, 0x30, 0x00, // image size
        0x13, 0x0B, 0, 0, // horizontal resolution
        0x13, 0x0B, 0, 0, // vertical resolution
        0, 0, 0, 0, // palette size
        0, 0, 0, 0, // important colours
    ];
    assert_eq!(bytes, expected);
}

#[test]
fn compression_tag_is_zero() {
    assert_eq!(CompressionMethod::BI_RGB.tag(), 0);
}

#[test]
fn both_headers_are_built_together() {
    let image = blank(5, -3);
    let (header, info) = build_headers(&image).unwrap();
    assert_eq!(info, InfoHeader::new(&image).unwrap());
    assert_eq!(header, Header::for_info_header(&info).unwrap());
    assert_eq!(info.image_size, 72);
    assert_eq!(header.file_size, 126);
    assert_eq!(header.image_offset, 54);
}

#[test]
fn headers_are_refused_for_what_no_field_can_hold() {
    let too_wide = Image { width: 0x8000_0000, height: 1, buffer: Vec::new() };
    assert_eq!(build_headers(&too_wide), Err(EncodeError::DimensionOverflow));
    let too_large = Image { width: 65536, height: 65536, buffer: Vec::new() };
    assert_eq!(build_headers(&too_large), Err(EncodeError::DimensionOverflow));
    let file_too_large = Image { width: 4, height: -357913941, buffer: Vec::new() };
    assert_eq!(build_headers(&file_too_large), Err(EncodeError::DimensionOverflow));
}
