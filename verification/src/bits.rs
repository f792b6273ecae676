use vstd::prelude::*;

verus! {

/// 1 for a set bit, 0 for a clear one.
pub open spec fn bti(b: bool) -> int {
    if b {
        1
    } else {
        0
    }
}

/// Bit `k` of a byte, most significant bit first: bit 0 is the 128s place.
pub open spec fn byte_bit(b: u8, k: int) -> bool {
    if k == 0 {
        b / 128 % 2 == 1
    } else if k == 1 {
        b / 64 % 2 == 1
    } else if k == 2 {
        b / 32 % 2 == 1
    } else if k == 3 {
        b / 16 % 2 == 1
    } else if k == 4 {
        b / 8 % 2 == 1
    } else if k == 5 {
        b / 4 % 2 == 1
    } else if k == 6 {
        b / 2 % 2 == 1
    } else {
        b % 2 == 1
    }
}

/// Bit `k` of a 5-bit symbol value, most significant bit first: bit 0 is the
/// 16s place.
pub open spec fn sym_bit(v: u8, k: int) -> bool {
    if k == 0 {
        v / 16 % 2 == 1
    } else if k == 1 {
        v / 8 % 2 == 1
    } else if k == 2 {
        v / 4 % 2 == 1
    } else if k == 3 {
        v / 2 % 2 == 1
    } else {
        v % 2 == 1
    }
}

/// Bit `i` of the big-endian bit stream of a byte sequence, most significant
/// bit of byte 0 first. Positions at or beyond `8 * data.len()` read as zero
/// bits, which is exactly the encoder's final-group padding rule.
pub open spec fn stream_bit(data: Seq<u8>, i: int) -> bool {
    0 <= i < 8 * data.len() && byte_bit(data[i / 8], i % 8)
}

/// Bit `i` of the big-endian bit stream formed by concatenating 5-bit symbol
/// values. Positions at or beyond `5 * vals.len()` read as zero bits.
pub open spec fn sym_stream_bit(vals: Seq<u8>, i: int) -> bool {
    0 <= i < 5 * vals.len() && sym_bit(vals[i / 5], i % 5)
}

/// Pack five bits, most significant first, into a value below 32.
pub open spec fn pack5(b0: bool, b1: bool, b2: bool, b3: bool, b4: bool) -> u8 {
    (16 * bti(b0) + 8 * bti(b1) + 4 * bti(b2) + 2 * bti(b3) + bti(b4)) as u8
}

/// Pack eight bits, most significant first, into a byte.
pub open spec fn pack8(
    b0: bool,
    b1: bool,
    b2: bool,
    b3: bool,
    b4: bool,
    b5: bool,
    b6: bool,
    b7: bool,
) -> u8 {
    (128 * bti(b0) + 64 * bti(b1) + 32 * bti(b2) + 16 * bti(b3) + 8 * bti(b4) + 4 * bti(b5) + 2
        * bti(b6) + bti(b7)) as u8
}

/// Packing five bits yields a value whose bits are the packed ones.
pub proof fn lemma_sym_bits_of_pack5(b0: bool, b1: bool, b2: bool, b3: bool, b4: bool)
    ensures
        pack5(b0, b1, b2, b3, b4) < 32,
        sym_bit(pack5(b0, b1, b2, b3, b4), 0) == b0,
        sym_bit(pack5(b0, b1, b2, b3, b4), 1) == b1,
        sym_bit(pack5(b0, b1, b2, b3, b4), 2) == b2,
        sym_bit(pack5(b0, b1, b2, b3, b4), 3) == b3,
        sym_bit(pack5(b0, b1, b2, b3, b4), 4) == b4,
{
}

/// A byte is recovered exactly by repacking its own eight bits.
pub proof fn lemma_pack8_of_byte_bits(b: u8)
    ensures
        pack8(
            byte_bit(b, 0),
            byte_bit(b, 1),
            byte_bit(b, 2),
            byte_bit(b, 3),
            byte_bit(b, 4),
            byte_bit(b, 5),
            byte_bit(b, 6),
            byte_bit(b, 7),
        ) == b,
{
    assert(128 * (b / 128 % 2) + 64 * (b / 64 % 2) + 32 * (b / 32 % 2) + 16 * (b / 16 % 2) + 8 * (
    b / 8 % 2) + 4 * (b / 4 % 2) + 2 * (b / 2 % 2) + b % 2 == b) by (bit_vector);
}

} // verus!
