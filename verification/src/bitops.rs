//! Small facts about 32-bit words that the rest of the crate leans on:
//! XOR algebra, bit extraction, and the big-endian packing of words into
//! bytes and back.
use vstd::prelude::*;

verus! {

pub(crate) proof fn lemma_xor_zero(x: u32)
    ensures
        x ^ 0 == x,
        0 ^ x == x,
{
    assert(x ^ 0 == x && 0 ^ x == x) by (bit_vector);
}

pub(crate) proof fn lemma_xor_assoc(x: u32, y: u32, z: u32)
    ensures
        (x ^ y) ^ z == x ^ (y ^ z),
{
    assert((x ^ y) ^ z == x ^ (y ^ z)) by (bit_vector);
}

/// XORing the same word in twice gives the first operand back; this is what
/// makes every Feistel round, and so the whole cipher, invertible.
pub(crate) proof fn lemma_xor_cancel(x: u32, y: u32)
    ensures
        (x ^ y) ^ y == x,
{
    assert((x ^ y) ^ y == x) by (bit_vector);
}

pub(crate) proof fn lemma_low_bit(b: u32)
    ensures
        b & 1 == 0 || b & 1 == 1,
{
    assert(b & 1 == 0 || b & 1 == 1) by (bit_vector);
}

pub(crate) proof fn lemma_shr1_lt(b: u32)
    requires
        b != 0,
    ensures
        b >> 1 < b,
{
    assert(b != 0 ==> b >> 1 < b) by (bit_vector);
}

/// A value masked to its low two bits picks one of the four key half-words.
pub(crate) proof fn lemma_and3(x: u32)
    ensures
        x & 3 < 4,
{
    assert(x & 3 < 4) by (bit_vector);
}

/// A value masked to its low ten bits indexes into a 1024-entry table.
pub(crate) proof fn lemma_ten_bits(x: u32)
    ensures
        x & 0x3ff < 1024,
{
    assert(x & 0x3ff < 1024) by (bit_vector);
}

/// The selector built from bit 0 and bit 9 of an S-box row index picks one
/// of the four constant rows.
pub(crate) proof fn lemma_row_bound(i: u32)
    ensures
        ((i & 1) | ((i & 0x200) >> 8)) < 4,
{
    assert(((i & 1) | ((i & 0x200) >> 8)) < 4) by (bit_vector);
}

/// Reading the four big-endian bytes of a word back gives the word.
pub(crate) proof fn lemma_be32_of_bytes_of(x: u32)
    ensures
        (((x >> 24) as u8 as u32) << 24) | (((x >> 16) as u8 as u32) << 16) | (((x >> 8) as u8
            as u32) << 8) | (x as u8 as u32) == x,
{
    assert((((x >> 24) as u8 as u32) << 24) | (((x >> 16) as u8 as u32) << 16) | (((x >> 8) as u8
        as u32) << 8) | (x as u8 as u32) == x) by (bit_vector);
}

/// Packing four bytes big-endian and taking the bytes back out changes
/// nothing.
pub(crate) proof fn lemma_bytes_of_be32(b0: u8, b1: u8, b2: u8, b3: u8)
    ensures
        ((((b0 as u32) << 24) | ((b1 as u32) << 16) | ((b2 as u32) << 8) | (b3 as u32)) >> 24) as u8
            == b0,
        ((((b0 as u32) << 24) | ((b1 as u32) << 16) | ((b2 as u32) << 8) | (b3 as u32)) >> 16) as u8
            == b1,
        ((((b0 as u32) << 24) | ((b1 as u32) << 16) | ((b2 as u32) << 8) | (b3 as u32)) >> 8) as u8
            == b2,
        (((b0 as u32) << 24) | ((b1 as u32) << 16) | ((b2 as u32) << 8) | (b3 as u32)) as u8 == b3,
{
    assert(((((b0 as u32) << 24) | ((b1 as u32) << 16) | ((b2 as u32) << 8) | (b3 as u32)) >> 24)
        as u8 == b0 && ((((b0 as u32) << 24) | ((b1 as u32) << 16) | ((b2 as u32) << 8) | (b3
        as u32)) >> 16) as u8 == b1 && ((((b0 as u32) << 24) | ((b1 as u32) << 16) | ((b2
        as u32) << 8) | (b3 as u32)) >> 8) as u8 == b2 && ((((b0 as u32) << 24) | ((b1 as u32)
        << 16) | ((b2 as u32) << 8) | (b3 as u32)) as u8 == b3)) by (bit_vector);
}

} // verus!
