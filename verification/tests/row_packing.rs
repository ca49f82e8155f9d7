use bmp_encoder::rows::pack_rows;

fn numbered(pixels: u8) -> Vec<u8> {
    (1..=3 * pixels).collect()
}

#[test]
fn width_multiple_of_four_adds_nothing() {
    let pixels = numbered(8);
    let mut out = Vec::new();
    pack_rows(4, &pixels, &mut out);
    assert_eq!(out, pixels);
    let pixels = numbered(16);
    let mut out = Vec::new();
    pack_rows(8, &pixels, &mut out);
    assert_eq!(out, pixels);
}

#[test]
fn one_pixel_row_gets_one_zero() {
    let mut out = Vec::new();
    pack_rows(1, &[7, 8, 9], &mut out);
    assert_eq!(out, vec![7, 8, 9, 0]);
}

#[test]
fn three_pixel_row_gets_three_zeros() {
    let mut out = Vec::new();
    pack_rows(3, &numbered(3), &mut out);
    assert_eq!(out, vec![1, 2, 3, 4, 5, 6, 7, 8, 9, 0, 0, 0]);
}

#[test]
fn two_pixel_row_gets_two_zeros() {
    let mut out = Vec::new();
    pack_rows(2, &numbered(2), &mut out);
    assert_eq!(out, vec![1, 2, 3, 4, 5, 6, 0, 0]);
}

#[test]
fn every_row_is_a_multiple_of_four_bytes() {
    for width in 1u32..12 {
        let pixels = vec![1u8; 3 * width as usize];
        let mut out = Vec::new();
        pack_rows(width, &pixels, &mut out);
        assert_eq!(out.len() as u32, 3 * width + width % 4);
        assert_eq!(out.len() % 4, 0);
    }
}

#[test]
fn cursor_advances_by_width_plus_padding() {
    // Three rows of three pixels: the cursor stands at pixels 0 and 6.
    let mut out = Vec::new();
    pack_rows(3, &numbered(9), &mut out);
    let expected: Vec<u8> = vec![
        1, 2, 3, 4, 5, 6, 7, 8, 9, 0, 0, 0, //
        19, 20, 21, 22, 23, 24, 25, 26, 27, 0, 0, 0,
    ];
    assert_eq!(out, expected);
    // Two rows of two pixels: the cursor reaches the end after one row.
    let mut out = Vec::new();
    pack_rows(2, &numbered(4), &mut out);
    assert_eq!(out, vec![1, 2, 3, 4, 5, 6, 0, 0]);
    // Three rows of one pixel: the cursor stands at pixels 0 and 2.
    let mut out = Vec::new();
    pack_rows(1, &numbered(3), &mut out);
    assert_eq!(out, vec![1, 2, 3, 0, 7, 8, 9, 0]);
}

#[test]
fn row_past_the_end_is_filled_with_zeros() {
    // Two rows of five pixels: the second row starts at pixel 6 and would
    // end at pixel 11 of 10.
    let mut out = Vec::new();
    pack_rows(5, &numbered(10), &mut out);
    let expected: Vec<u8> = vec![
        1, 2, 3, 4, 5, 6, 7, 8, 9, 10, 11, 12, 13, 14, 15, 0, //
        19, 20, 21, 22, 23, 24, 25, 26, 27, 28, 29, 30, 0, 0, 0, 0,
    ];
    assert_eq!(out, expected);
}

#[test]
fn zero_width_has_no_rows() {
    let mut out = vec![5];
    pack_rows(0, &[], &mut out);
    assert_eq!(out, vec![5]);
    pack_rows(0, &[1, 2, 3], &mut out);
    assert_eq!(out, vec![5]);
}

#[test]
fn empty_buffer_has_no_rows() {
    let mut out = Vec::new();
    pack_rows(4, &[], &mut out);
    assert_eq!(out, Vec::<u8>::new());
    pack_rows(3, &[1, 2], &mut out);
    assert_eq!(out, Vec::<u8>::new());
}

#[test]
fn rows_are_appended_after_what_the_buffer_holds() {
    let mut out = vec![0xAB, 0xCD];
    pack_rows(1, &[1, 2, 3], &mut out);
    assert_eq!(out, vec![0xAB, 0xCD, 1, 2, 3, 0]);
}
