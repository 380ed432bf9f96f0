//! The DES building blocks that the archive decryptors share: the standard
//! permutation tables and S-boxes, and the single-round, zero-key block
//! decoding that the game client applies to archive data.
//!
//! Bits are numbered as in the DES standard: bit 0 is the most significant
//! bit of a 64-bit block.

use vstd::prelude::*;

pub(crate) mod closed;

verus! {

pub const IP_TABLE: [u8; 64] = [
    58, 50, 42, 34, 26, 18, 10, 2, 60, 52, 44, 36, 28, 20, 12, 4,
    62, 54, 46, 38, 30, 22, 14, 6, 64, 56, 48, 40, 32, 24, 16, 8,
    57, 49, 41, 33, 25, 17, 9, 1, 59, 51, 43, 35, 27, 19, 11, 3,
    61, 53, 45, 37, 29, 21, 13, 5, 63, 55, 47, 39, 31, 23, 15, 7,
];

pub const FP_TABLE: [u8; 64] = [
    40, 8, 48, 16, 56, 24, 64, 32, 39, 7, 47, 15, 55, 23, 63, 31,
    38, 6, 46, 14, 54, 22, 62, 30, 37, 5, 45, 13, 53, 21, 61, 29,
    36, 4, 44, 12, 52, 20, 60, 28, 35, 3, 43, 11, 51, 19, 59, 27,
    34, 2, 42, 10, 50, 18, 58, 26, 33, 1, 41, 9, 49, 17, 57, 25,
];

pub const E_TABLE: [u8; 48] = [
    32, 1, 2, 3, 4, 5, 4, 5, 6, 7, 8, 9,
    8, 9, 10, 11, 12, 13, 12, 13, 14, 15, 16, 17,
    16, 17, 18, 19, 20, 21, 20, 21, 22, 23, 24, 25,
    24, 25, 26, 27, 28, 29, 28, 29, 30, 31, 32, 1,
];

pub const P_TABLE: [u8; 32] = [
    16, 7, 20, 21, 29, 12, 28, 17, 1, 15, 23, 26, 5, 18, 31, 10,
    2, 8, 24, 14, 32, 27, 3, 9, 19, 13, 30, 6, 22, 11, 4, 25,
];

pub const S_BOXES: [[u8; 64]; 8] = [
    [
        0x0E, 0x00, 0x04, 0x0F, 0x0D, 0x07, 0x01, 0x04, 0x02, 0x0E, 0x0F, 0x02, 0x0B, 0x0D, 0x08, 0x01,
        0x03, 0x0A, 0x0A, 0x06, 0x06, 0x0C, 0x0C, 0x0B, 0x05, 0x09, 0x09, 0x05, 0x00, 0x03, 0x07, 0x08,
        0x04, 0x0F, 0x01, 0x0C, 0x0E, 0x08, 0x08, 0x02, 0x0D, 0x04, 0x06, 0x09, 0x02, 0x01, 0x0B, 0x07,
        0x0F, 0x05, 0x0C, 0x0B, 0x09, 0x03, 0x07, 0x0E, 0x03, 0x0A, 0x0A, 0x00, 0x05, 0x06, 0x00, 0x0D,
    ],
    [
        0x0F, 0x03, 0x01, 0x0D, 0x08, 0x04, 0x0E, 0x07, 0x06, 0x0F, 0x0B, 0x02, 0x03, 0x08, 0x04, 0x0E,
        0x09, 0x0C, 0x07, 0x00, 0x02, 0x01, 0x0D, 0x0A, 0x0C, 0x06, 0x00, 0x09, 0x05, 0x0B, 0x0A, 0x05,
        0x00, 0x0D, 0x0E, 0x08, 0x07, 0x0A, 0x0B, 0x01, 0x0A, 0x03, 0x04, 0x0F, 0x0D, 0x04, 0x01, 0x02,
        0x05, 0x0B, 0x08, 0x06, 0x0C, 0x07, 0x06, 0x0C, 0x09, 0x00, 0x03, 0x05, 0x02, 0x0E, 0x0F, 0x09,
    ],
    [
        0x0A, 0x0D, 0x00, 0x07, 0x09, 0x00, 0x0E, 0x09, 0x06, 0x03, 0x03, 0x04, 0x0F, 0x06, 0x05, 0x0A,
        0x01, 0x02, 0x0D, 0x08, 0x0C, 0x05, 0x07, 0x0E, 0x0B, 0x0C, 0x04, 0x0B, 0x02, 0x0F, 0x08, 0x01,
        0x0D, 0x01, 0x06, 0x0A, 0x04, 0x0D, 0x09, 0x00, 0x08, 0x06, 0x0F, 0x09, 0x03, 0x08, 0x00, 0x07,
        0x0B, 0x04, 0x01, 0x0F, 0x02, 0x0E, 0x0C, 0x03, 0x05, 0x0B, 0x0A, 0x05, 0x0E, 0x02, 0x07, 0x0C,
    ],
    [
        0x07, 0x0D, 0x0D, 0x08, 0x0E, 0x0B, 0x03, 0x05, 0x00, 0x06, 0x06, 0x0F, 0x09, 0x00, 0x0A, 0x03,
        0x01, 0x04, 0x02, 0x07, 0x08, 0x02, 0x05, 0x0C, 0x0B, 0x01, 0x0C, 0x0A, 0x04, 0x0E, 0x0F, 0x09,
        0x0A, 0x03, 0x06, 0x0F, 0x09, 0x00, 0x00, 0x06, 0x0C, 0x0A, 0x0B, 0x01, 0x07, 0x0D, 0x0D, 0x08,
        0x0F, 0x09, 0x01, 0x04, 0x03, 0x05, 0x0E, 0x0B, 0x05, 0x0C, 0x02, 0x07, 0x08, 0x02, 0x04, 0x0E,
    ],
    [
        0x02, 0x0E, 0x0C, 0x0B, 0x04, 0x02, 0x01, 0x0C, 0x07, 0x04, 0x0A, 0x07, 0x0B, 0x0D, 0x06, 0x01,
        0x08, 0x05, 0x05, 0x00, 0x03, 0x0F, 0x0F, 0x0A, 0x0D, 0x03, 0x00, 0x09, 0x0E, 0x08, 0x09, 0x06,
        0x04, 0x0B, 0x02, 0x08, 0x01, 0x0C, 0x0B, 0x07, 0x0A, 0x01, 0x0D, 0x0E, 0x07, 0x02, 0x08, 0x0D,
        0x0F, 0x06, 0x09, 0x0F, 0x0C, 0x00, 0x05, 0x09, 0x06, 0x0A, 0x03, 0x04, 0x00, 0x05, 0x0E, 0x03,
    ],
    [
        0x0C, 0x0A, 0x01, 0x0F, 0x0A, 0x04, 0x0F, 0x02, 0x09, 0x07, 0x02, 0x0C, 0x06, 0x09, 0x08, 0x05,
        0x00, 0x06, 0x0D, 0x01, 0x03, 0x0D, 0x04, 0x0E, 0x0E, 0x00, 0x07, 0x0B, 0x05, 0x03, 0x0B, 0x08,
        0x09, 0x04, 0x0E, 0x03, 0x0F, 0x02, 0x05, 0x0C, 0x02, 0x09, 0x08, 0x05, 0x0C, 0x0F, 0x03, 0x0A,
        0x07, 0x0B, 0x00, 0x0E, 0x04, 0x01, 0x0A, 0x07, 0x01, 0x06, 0x0D, 0x00, 0x0B, 0x08, 0x06, 0x0D,
    ],
    [
        0x04, 0x0D, 0x0B, 0x00, 0x02, 0x0B, 0x0E, 0x07, 0x0F, 0x04, 0x00, 0x09, 0x08, 0x01, 0x0D, 0x0A,
        0x03, 0x0E, 0x0C, 0x03, 0x09, 0x05, 0x07, 0x0C, 0x05, 0x02, 0x0A, 0x0F, 0x06, 0x08, 0x01, 0x06,
        0x01, 0x06, 0x04, 0x0B, 0x0B, 0x0D, 0x0D, 0x08, 0x0C, 0x01, 0x03, 0x04, 0x07, 0x0A, 0x0E, 0x07,
        0x0A, 0x09, 0x0F, 0x05, 0x06, 0x00, 0x08, 0x0F, 0x00, 0x0E, 0x05, 0x02, 0x09, 0x03, 0x02, 0x0C,
    ],
    [
        0x0D, 0x01, 0x02, 0x0F, 0x08, 0x0D, 0x04, 0x08, 0x06, 0x0A, 0x0F, 0x03, 0x0B, 0x07, 0x01, 0x04,
        0x0A, 0x0C, 0x09, 0x05, 0x03, 0x06, 0x0E, 0x0B, 0x05, 0x00, 0x00, 0x0E, 0x0C, 0x09, 0x07, 0x02,
        0x07, 0x02, 0x0B, 0x01, 0x04, 0x0E, 0x01, 0x07, 0x09, 0x04, 0x0C, 0x0A, 0x0E, 0x08, 0x02, 0x0D,
        0x00, 0x0F, 0x06, 0x0C, 0x0A, 0x09, 0x0D, 0x00, 0x0F, 0x03, 0x03, 0x05, 0x05, 0x06, 0x08, 0x0B,
    ],
];

/// The 64-bit block that eight bytes spell in big-endian order.
pub open spec fn be8(b0: u8, b1: u8, b2: u8, b3: u8, b4: u8, b5: u8, b6: u8, b7: u8) -> u64 {
    ((b0 as u64) << 56u64) | ((b1 as u64) << 48u64) | ((b2 as u64) << 40u64) | ((b3 as u64) << 32u64)
        | ((b4 as u64) << 24u64) | ((b5 as u64) << 16u64) | ((b6 as u64) << 8u64) | (b7 as u64)
}

/// The 64-bit block that the first eight bytes of `b` spell in big-endian order.
pub open spec fn be_u64(b: Seq<u8>) -> u64 {
    be8(b[0], b[1], b[2], b[3], b[4], b[5], b[6], b[7])
}

/// The eight bytes of `x` in big-endian order.
pub open spec fn be_bytes(x: u64) -> Seq<u8> {
    seq![
        (x >> 56u64) as u8,
        (x >> 48u64) as u8,
        (x >> 40u64) as u8,
        (x >> 32u64) as u8,
        (x >> 24u64) as u8,
        (x >> 16u64) as u8,
        (x >> 8u64) as u8,
        x as u8,
    ]
}

/// Bit `i` of `x`, where bit 0 is the most significant bit.
pub open spec fn des_bit(x: u64, i: int) -> u64 {
    (x >> ((63 - i) as u64)) & 1
}

/// The block whose bit `k` is bit `table[k] - 1` of `x` for every `k < n`,
/// with all other bits cleared (the tables are one-based, as in the standard).
pub open spec fn permute_bits(x: u64, table: Seq<u8>, n: nat) -> u64
    decreases n,
{
    if n == 0 {
        0
    } else if n == 1 {
        des_bit(x, table[0] - 1) << 63u64
    } else {
        permute_bits(x, table, (n - 1) as nat) | (des_bit(x, table[n - 1] - 1) << ((64 - n) as u64))
    }
}

/// The S-box stage: the six-bit group `k` of `e` (its bits `6k..6k + 5`) is
/// replaced by the four-bit entry of S-box `k`, placed at bits `4k..4k + 3`,
/// for the first `n` groups.
pub open spec fn sbox_layer(e: u64, n: nat) -> u64
    decreases n,
{
    if n == 0 {
        0
    } else if n == 1 {
        sbox_term(e, 0)
    } else {
        sbox_layer(e, (n - 1) as nat) | sbox_term(e, n - 1)
    }
}

/// The output of S-box `k` for the six-bit group `k` of `e`, in place.
pub open spec fn sbox_term(e: u64, k: int) -> u64 {
    (S_BOXES@[k]@[((e >> ((58 - 6 * k) as u64)) & 0x3F) as int] as u64) << ((60 - 4 * k) as u64)
}

/// The DES round function on the right half `right`, which occupies the upper
/// 32 bits: expansion, key mixing, S-boxes and the P permutation. The result
/// occupies the upper 32 bits.
pub open spec fn des_f(right: u64, key: u64) -> u64 {
    permute_bits(sbox_layer(permute_bits(right, E_TABLE@, 48) ^ key, 8), P_TABLE@, 32)
}

/// The block decoding of the game client: the initial permutation, one
/// DES round with a zero key whose halves are left unswapped (the new left
/// half is `L ^ f(R)`, the right half stays `R`), then the final permutation.
pub open spec fn des_decode(block: u64) -> u64 {
    let y = permute_bits(block, IP_TABLE@, 64);
    let left = y & 0xFFFF_FFFF_0000_0000u64;
    let right = y << 32u64;
    permute_bits((left ^ des_f(right, 0)) | (right >> 32u64), FP_TABLE@, 64)
}

/// The final permutation undoes the initial permutation, and the other way
/// around.
pub proof fn lemma_fp_inverts_ip(x: u64)
    ensures
        permute_bits(permute_bits(x, IP_TABLE@, 64), FP_TABLE@, 64) == x,
        permute_bits(permute_bits(x, FP_TABLE@, 64), IP_TABLE@, 64) == x,
{
    closed::lemma_ip_closed(x);
    closed::lemma_fp_closed(x);
    closed::lemma_ip_closed(closed::fp_closed(x));
    closed::lemma_fp_closed(closed::ip_closed(x));
    closed::lemma_closed_inverse(x);
}

/// The round function's output lives in the upper 32 bits.
pub proof fn lemma_des_f_upper(right: u64, key: u64)
    ensures
        des_f(right, key) & 0xFFFF_FFFF == 0,
{
    let s = sbox_layer(permute_bits(right, E_TABLE@, 48) ^ key, 8);
    closed::lemma_pbox_closed(s);
    closed::lemma_pbox_closed_high(s);
}

/// Decoding a block twice gives the block back: the client's single
/// unswapped round is its own inverse, so the same function also encodes.
pub proof fn lemma_des_decode_involution(block: u64)
    ensures
        des_decode(des_decode(block)) == block,
{
    let y = permute_bits(block, IP_TABLE@, 64);
    let f = des_f(y << 32u64, 0);
    lemma_des_f_upper(y << 32u64, 0);
    let z = ((y & 0xFFFF_FFFF_0000_0000u64) ^ f) | ((y << 32u64) >> 32u64);
    closed::lemma_round_halves(y, f);
    lemma_fp_inverts_ip(z);
    lemma_fp_inverts_ip(block);
    assert(des_decode(block) == permute_bits(z, FP_TABLE@, 64));
    assert(permute_bits(des_decode(block), IP_TABLE@, 64) == z);
}

} // verus!
