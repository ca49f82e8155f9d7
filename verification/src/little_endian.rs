//! Little-endian serialisation of the fixed-width integers used by the
//! bitmap headers.

use vstd::prelude::*;

verus! {

/// Two to the power 32: the number of values of a 32-bit field.
pub open spec fn two_pow_32() -> int {
    0x1_0000_0000
}

/// The two bytes of a 16-bit value, least significant first.
pub open spec fn u16_le_bytes(value: u16) -> Seq<u8> {
    seq![(value % 256) as u8, (value / 256) as u8]
}

/// The four bytes of a 32-bit value, least significant first.
pub open spec fn u32_le_bytes(value: u32) -> Seq<u8> {
    seq![
        (value % 256) as u8,
        (value / 0x100 % 256) as u8,
        (value / 0x1_0000 % 256) as u8,
        (value / 0x100_0000) as u8,
    ]
}

/// The unsigned 32-bit value with the same bit pattern as `value` in two's
/// complement: negative values are shifted up by 2^32.
pub open spec fn twos_complement(value: i32) -> u32 {
    if value < 0 {
        (value + two_pow_32()) as u32
    } else {
        value as u32
    }
}

/// The four bytes of a signed 32-bit value in two's complement, least
/// significant first.
pub open spec fn i32_le_bytes(value: i32) -> Seq<u8> {
    u32_le_bytes(twos_complement(value))
}

/// The number that a sequence of bytes stands for when the first byte is the
/// least significant base-256 digit.
pub open spec fn le_value(bytes: Seq<u8>) -> nat
    decreases bytes.len(),
{
    if bytes.len() == 0 {
        0
    } else {
        bytes[0] as nat + 256 * le_value(bytes.drop_first())
    }
}

/// Reading the two bytes of a 16-bit value back gives the value.
pub proof fn lemma_u16_le_round_trip(value: u16)
    ensures
        u16_le_bytes(value).len() == 2,
        le_value(u16_le_bytes(value)) == value,
{
    reveal_with_fuel(le_value, 3);
}

/// Reading the four bytes of a 32-bit value back gives the value.
pub proof fn lemma_u32_le_round_trip(value: u32)
    ensures
        u32_le_bytes(value).len() == 4,
        le_value(u32_le_bytes(value)) == value,
{
    reveal_with_fuel(le_value, 5);
}

/// Reading the four bytes of a signed value back gives the value itself when
/// it is not negative, and the value plus 2^32 when it is.
pub proof fn lemma_i32_le_round_trip(value: i32)
    ensures
        i32_le_bytes(value).len() == 4,
        value >= 0 ==> le_value(i32_le_bytes(value)) == value,
        value < 0 ==> le_value(i32_le_bytes(value)) == value + two_pow_32(),
{
    lemma_u32_le_round_trip(twos_complement(value));
}

/// Appends the two little-endian bytes of `value` to `buffer`.
pub fn push_u16_le(buffer: &mut Vec<u8>, value: u16)
    ensures
        final(buffer)@ == old(buffer)@ + u16_le_bytes(value),
{
    buffer.push((value % 256) as u8);
    buffer.push((value / 256) as u8);
}

/// Appends the four little-endian bytes of `value` to `buffer`.
pub fn push_u32_le(buffer: &mut Vec<u8>, value: u32)
    ensures
        final(buffer)@ == old(buffer)@ + u32_le_bytes(value),
{
    buffer.push((value % 256) as u8);
    buffer.push((value / 0x100 % 256) as u8);
    buffer.push((value / 0x1_0000 % 256) as u8);
    buffer.push((value / 0x100_0000) as u8);
}

/// Appends the four little-endian two's-complement bytes of `value` to
/// `buffer`.
pub fn push_i32_le(buffer: &mut Vec<u8>, value: i32)
    ensures
        final(buffer)@ == old(buffer)@ + i32_le_bytes(value),
{
    let pattern: u32 = if value < 0 {
        (value as i64 + 0x1_0000_0000) as u32
    } else {
        value as u32
    };
    push_u32_le(buffer, pattern);
}

} // verus!
