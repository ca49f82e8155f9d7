//! Row packing: the pixel rows of a bitmap file, each followed by its
//! padding.
//!
//! The packer walks a buffer of three-byte pixels with a cursor that counts
//! pixels. For each row it emits the `3 * width` bytes that start at the
//! cursor, then `width % 4` zero bytes, and then moves the cursor on by
//! `width + width % 4` pixels. It stops when the cursor has reached the
//! number of pixels in the buffer. With three bytes per pixel the padded row
//! is always a multiple of four bytes long. When the width is a multiple of
//! four, the rows are the consecutive rows of the buffer; otherwise the
//! cursor passes over `width % 4` pixels between two rows. Where a row
//! reaches past the end of the buffer, the missing bytes are emitted as zero,
//! so that every row has the same length. A buffer of zero width has no rows.

use vstd::prelude::*;

verus! {

/// Number of zero bytes that follow the pixel bytes of each row.
pub open spec fn row_padding(width: nat) -> nat {
    width % 4
}

/// Number of pixel bytes in each row.
pub open spec fn bytes_per_line(width: nat) -> nat {
    3 * width
}

/// Number of bytes that one row occupies in the file, padding included.
pub open spec fn packed_row_len(width: nat) -> nat {
    bytes_per_line(width) + row_padding(width)
}

/// Number of pixels by which the cursor advances from one row to the next.
pub open spec fn row_stride(width: nat) -> nat {
    width + row_padding(width)
}

/// Number of rows that are emitted for a buffer of `pixels` pixels: the
/// number of cursor positions `0, stride, 2 * stride, ...` below `pixels`.
pub open spec fn row_count(width: nat, pixels: nat) -> nat {
    if width == 0 {
        0
    } else {
        ((pixels + row_stride(width) - 1) / (row_stride(width) as int)) as nat
    }
}

/// The byte of `data` at `index`, or zero past its end.
pub open spec fn byte_or_zero(data: Seq<u8>, index: int) -> u8 {
    if 0 <= index < data.len() {
        data[index]
    } else {
        0
    }
}

/// The row that starts at pixel `first_pixel` of `data`: its pixel bytes,
/// then the padding.
pub open spec fn packed_row(width: nat, data: Seq<u8>, first_pixel: nat) -> Seq<u8> {
    Seq::new(
        packed_row_len(width),
        |j: int|
            if j < bytes_per_line(width) {
                byte_or_zero(data, 3 * first_pixel + j)
            } else {
                0u8
            },
    )
}

/// The first `count` rows, one after the other.
pub open spec fn packed_rows(width: nat, data: Seq<u8>, count: nat) -> Seq<u8>
    decreases count,
{
    if count == 0 {
        Seq::empty()
    } else {
        packed_rows(width, data, (count - 1) as nat) + packed_row(
            width,
            data,
            ((count - 1) * row_stride(width)) as nat,
        )
    }
}

/// The whole pixel section of the file for a buffer `data` of three-byte
/// pixels and the given width.
pub open spec fn pixel_rows(width: nat, data: Seq<u8>) -> Seq<u8> {
    packed_rows(width, data, row_count(width, data.len() / 3))
}

/// `row_count` is the least number of strides that reach `pixels`.
pub proof fn lemma_row_count(width: nat, pixels: nat, count: nat)
    requires
        width > 0,
        count * row_stride(width) >= pixels,
        count > 0 ==> (count - 1) * row_stride(width) < pixels,
    ensures
        row_count(width, pixels) == count,
{
    let stride = row_stride(width) as int;
    let c = count as int;
    let p = pixels as int;
    assert((p + stride - 1) / stride == c) by (nonlinear_arith)
        requires
            stride > 0,
            c >= 0,
            p >= 0,
            c * stride >= p,
            c > 0 ==> (c - 1) * stride < p,
    ;
}

/// The rows cover the buffer: the last cursor position is below `pixels`,
/// and one stride further the cursor has reached it.
pub proof fn lemma_row_count_covers(width: nat, pixels: nat)
    requires
        width > 0,
    ensures
        row_count(width, pixels) * row_stride(width) >= pixels,
        row_count(width, pixels) > 0 ==> (row_count(width, pixels) - 1) * row_stride(width)
            < pixels,
        pixels > 0 ==> row_count(width, pixels) > 0,
{
    let stride = row_stride(width) as int;
    let p = pixels as int;
    let c = (p + stride - 1) / stride;
    assert(c * stride >= p && (c - 1) * stride < p && c >= 0 && (p > 0 ==> c > 0))
        by (nonlinear_arith)
        requires
            stride > 0,
            p >= 0,
            c == (p + stride - 1) / stride,
    ;
}

/// The first `count` rows take `count` times the length of one row.
pub proof fn lemma_packed_rows_len(width: nat, data: Seq<u8>, count: nat)
    ensures
        packed_rows(width, data, count).len() == count * packed_row_len(width),
    decreases count,
{
    if count > 0 {
        let before = (count - 1) as nat;
        let len = packed_row_len(width);
        lemma_packed_rows_len(width, data, before);
        assert(packed_row(width, data, (before * row_stride(width)) as nat).len() == len);
        assert(count * len == before * len + len) by (nonlinear_arith)
            requires
                count == before + 1,
        ;
    } else {
        let len = packed_row_len(width);
        assert(count * len == 0) by (nonlinear_arith)
            requires
                count == 0,
        ;
    }
}

/// Where a byte of a row stands in the pixel section: row `row` begins at
/// `row` times the length of a row, and its byte at `column` is the byte at
/// that column of the row that starts at pixel `row` times the stride.
pub proof fn lemma_packed_rows_index(
    width: nat,
    data: Seq<u8>,
    count: nat,
    row: nat,
    column: nat,
)
    requires
        row < count,
        column < packed_row_len(width),
    ensures
        row * packed_row_len(width) + column < packed_rows(width, data, count).len(),
        packed_rows(width, data, count)[(row * packed_row_len(width) + column) as int]
            == packed_row(width, data, row * row_stride(width))[column as int],
    decreases count,
{
    let len = packed_row_len(width);
    let before = (count - 1) as nat;
    lemma_packed_rows_len(width, data, before);
    lemma_packed_rows_len(width, data, count);
    assert(count * len == before * len + len) by (nonlinear_arith)
        requires
            count == before + 1,
    ;
    if row == before {
        assert((before * row_stride(width)) as nat == row * row_stride(width));
    } else {
        assert(row * len + len <= before * len) by (nonlinear_arith)
            requires
                row + 1 <= before,
        ;
        lemma_packed_rows_index(width, data, before, row, column);
    }
}

/// When the width is a multiple of four, no padding is added and the first
/// `count` rows are the first `count` rows of the buffer, byte for byte.
pub proof fn lemma_rows_without_padding(width: nat, data: Seq<u8>, count: nat)
    requires
        width % 4 == 0,
        3 * (count * width) <= data.len(),
    ensures
        row_padding(width) == 0,
        packed_row_len(width) == bytes_per_line(width),
        packed_rows(width, data, count) == data.subrange(0, 3 * (count * width) as int),
    decreases count,
{
    if count > 0 {
        let before = (count - 1) as nat;
        assert(count * width == before * width + width) by (nonlinear_arith)
            requires
                count == before + 1,
        ;
        assert(before * width >= 0) by (nonlinear_arith)
            requires
                before >= 0,
                width >= 0,
        ;
        lemma_rows_without_padding(width, data, before);
        let first_pixel = (before * row_stride(width)) as nat;
        let row = packed_row(width, data, first_pixel);
        assert(row =~= data.subrange(3 * (before * width) as int, 3 * (count * width) as int));
        assert(packed_rows(width, data, count) =~= data.subrange(
            0,
            3 * (count * width) as int,
        ));
    } else {
        assert(count * width == 0) by (nonlinear_arith)
            requires
                count == 0,
        ;
        assert(packed_rows(width, data, count) =~= data.subrange(0, 0));
    }
}

/// When the width is a multiple of four and the buffer holds whole rows, the
/// pixel section is the buffer itself: one row per row of the buffer, in the
/// order of the buffer, with nothing added.
pub proof fn lemma_pixel_rows_without_padding(width: nat, rows: nat, data: Seq<u8>)
    requires
        width % 4 == 0,
        data.len() == 3 * (rows * width),
    ensures
        width > 0 ==> row_count(width, data.len() / 3) == rows,
        pixel_rows(width, data) == data,
{
    if width == 0 {
        assert(rows * width == 0) by (nonlinear_arith)
            requires
                width == 0,
        ;
        assert(pixel_rows(width, data) =~= data);
    } else {
        let pixels = data.len() / 3;
        assert(pixels == rows * width);
        assert(rows > 0 ==> (rows - 1) * width < rows * width) by (nonlinear_arith)
            requires
                width > 0,
        ;
        lemma_row_count(width, pixels, rows);
        lemma_rows_without_padding(width, data, rows);
        assert(data.subrange(0, data.len() as int) =~= data);
    }
}

/// Appends the row that starts at pixel `first_pixel` of `pixels`, with its
/// padding, to `buffer`.
fn pack_row(width: u32, pixels: &[u8], first_pixel: usize, buffer: &mut Vec<u8>)
    requires
        3 * first_pixel <= pixels@.len(),
    ensures
        final(buffer)@ == old(buffer)@ + packed_row(width as nat, pixels@, first_pixel as nat),
{
    let ghost row = packed_row(width as nat, pixels@, first_pixel as nat);
    let len: usize = pixels.len();
    let start: usize = 3 * first_pixel;
    let available: u64 = (len - start) as u64;
    let line: u64 = 3 * (width as u64);
    let mut j: u64 = 0;
    while j < line
        invariant
            j <= line,
            line == bytes_per_line(width as nat),
            start == 3 * first_pixel,
            len == pixels@.len(),
            start <= len,
            available == len - start,
            row == packed_row(width as nat, pixels@, first_pixel as nat),
            buffer@ == old(buffer)@ + row.subrange(0, j as int),
        decreases line - j,
    {
        let byte: u8 = if j < available {
            pixels[start + j as usize]
        } else {
            0
        };
        buffer.push(byte);
        proof {
            assert(row[j as int] == byte);
            assert(buffer@ =~= old(buffer)@ + row.subrange(0, j + 1));
        }
        j = j + 1;
    }
    let padding: u64 = (width % 4) as u64;
    let mut k: u64 = 0;
    while k < padding
        invariant
            k <= padding,
            padding == row_padding(width as nat),
            line == bytes_per_line(width as nat),
            row == packed_row(width as nat, pixels@, first_pixel as nat),
            buffer@ == old(buffer)@ + row.subrange(0, line + k),
        decreases padding - k,
    {
        buffer.push(0);
        proof {
            assert(row[line + k] == 0);
            assert(buffer@ =~= old(buffer)@ + row.subrange(0, line + k + 1));
        }
        k = k + 1;
    }
    proof {
        assert(row.subrange(0, line + padding) =~= row);
    }
}

/// Appends the pixel section for the pixels in `pixels`, read as rows of
/// `width` pixels, to `buffer`.
pub fn pack_rows(width: u32, pixels: &[u8], buffer: &mut Vec<u8>)
    ensures
        final(buffer)@ == old(buffer)@ + pixel_rows(width as nat, pixels@),
{
    if width == 0 {
        proof {
            assert(buffer@ =~= old(buffer)@ + pixel_rows(width as nat, pixels@));
        }
        return ;
    }
    let count: usize = pixels.len() / 3;
    let stride: u64 = width as u64 + (width % 4) as u64;
    assert(stride == row_stride(width as nat));
    let mut cursor: u64 = 0;
    let ghost mut rows: nat = 0;
    while cursor < count as u64
        invariant
            width > 0,
            count == pixels@.len() / 3,
            3 * count <= usize::MAX,
            0 < stride <= 0x1_0000_0002,
            stride == row_stride(width as nat),
            cursor == rows * stride,
            rows > 0 ==> (rows - 1) * stride < count,
            buffer@ == old(buffer)@ + packed_rows(width as nat, pixels@, rows),
        decreases count + stride - cursor,
    {
        pack_row(width, pixels, cursor as usize, buffer);
        proof {
            let next = rows + 1;
            assert(next * stride == rows * stride + stride) by (nonlinear_arith)
                requires
                    next == rows + 1,
            ;
            assert(buffer@ =~= old(buffer)@ + packed_rows(width as nat, pixels@, next));
            rows = next;
        }
        cursor = cursor + stride;
    }
    proof {
        lemma_row_count(width as nat, count as nat, rows);
    }
}

} // verus!
