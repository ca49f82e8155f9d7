//! Channel reordering: a bitmap file stores the three colour channels of a
//! pixel in the reverse of the order in which an image buffer holds them.

use vstd::prelude::*;

verus! {

/// Where the byte at position `index` of a buffer of `len` bytes comes from
/// when the channels are reversed: the mirror position inside its three-byte
/// group. A trailing group of fewer than three bytes is not a pixel and maps
/// onto itself.
pub open spec fn mirrored_index(index: int, len: int) -> int {
    let group = index - index % 3;
    if group + 3 <= len {
        group + 2 - index % 3
    } else {
        index
    }
}

/// The buffer with the first and third byte of every three-byte pixel
/// exchanged. The middle byte of a pixel stays where it is, and so does a
/// trailing group of fewer than three bytes.
pub open spec fn swap_channels(data: Seq<u8>) -> Seq<u8> {
    Seq::new(data.len(), |i: int| data[mirrored_index(i, data.len() as int)])
}

/// Reversing the channels twice gives the buffer back, whatever its length.
pub proof fn lemma_swap_channels_involution(data: Seq<u8>)
    ensures
        swap_channels(swap_channels(data)) == data,
{
    let len = data.len() as int;
    assert forall|i: int| 0 <= i < len implies mirrored_index(mirrored_index(i, len), len)
        == i by {}
    assert(swap_channels(swap_channels(data)) =~= data);
}

/// Reversing the channels keeps the length of the buffer, exchanges the outer
/// bytes of every complete pixel and keeps its middle byte.
pub proof fn lemma_swap_channels_pixels(data: Seq<u8>, pixel: int)
    requires
        0 <= pixel,
        3 * pixel + 3 <= data.len(),
    ensures
        swap_channels(data).len() == data.len(),
        swap_channels(data)[3 * pixel] == data[3 * pixel + 2],
        swap_channels(data)[3 * pixel + 1] == data[3 * pixel + 1],
        swap_channels(data)[3 * pixel + 2] == data[3 * pixel],
{
}

/// Reverses the channels of one pixel.
pub fn transform_pixel(pixel: [u8; 3]) -> (swapped: [u8; 3])
    ensures
        swapped@ == swap_channels(pixel@),
        swapped@ == seq![pixel[2], pixel[1], pixel[0]],
{
    let swapped = [pixel[2], pixel[1], pixel[0]];
    proof {
        lemma_swap_channels_pixels(pixel@, 0);
    }
    swapped
}

/// Returns a copy of `source` in which the channels of every pixel are
/// reversed. The source is only read.
pub fn transform_pixels(source: &[u8]) -> (swapped: Vec<u8>)
    ensures
        swapped@ == swap_channels(source@),
{
    let len: usize = source.len();
    let mut swapped: Vec<u8> = Vec::new();
    let mut done: usize = 0;
    while len - done >= 3
        invariant
            len == source@.len(),
            done <= len,
            done % 3 == 0,
            swapped@ == swap_channels(source@).subrange(0, done as int),
        decreases len - done,
    {
        let pixel = transform_pixel([source[done], source[done + 1], source[done + 2]]);
        swapped.push(pixel[0]);
        swapped.push(pixel[1]);
        swapped.push(pixel[2]);
        proof {
            lemma_swap_channels_pixels(source@, done as int / 3);
            assert(swapped@ =~= swap_channels(source@).subrange(0, done + 3));
        }
        done = done + 3;
    }
    while done < len
        invariant
            len == source@.len(),
            done <= len,
            len - (done - done % 3) < 3,
            swapped@ == swap_channels(source@).subrange(0, done as int),
        decreases len - done,
    {
        swapped.push(source[done]);
        proof {
            assert(mirrored_index(done as int, len as int) == done);
            assert(swapped@ =~= swap_channels(source@).subrange(0, done + 1));
        }
        done = done + 1;
    }
    swapped
}

} // verus!
