//! The single DES round that the game client uses, on 64-bit blocks.
//! The functions follow the `des` crate of the RustCrypto team, whose private
//! helpers the client needs.

use vstd::prelude::*;

use crate::des::closed::{
    expand_closed, fp_closed, ip_closed, lemma_expand_closed, lemma_fp_closed, lemma_ip_closed, lemma_pbox_closed, pbox_closed,
};
use crate::des::{des_f, permute_bits, sbox_layer, sbox_term, E_TABLE, FP_TABLE, IP_TABLE, P_TABLE, S_BOXES};

verus! {

/// Exchanges the bits selected by `mask` with the bits `delta` places above them.
pub open spec fn delta_swap_spec(a: u64, delta: u64, mask: u64) -> u64 {
    let b = (a ^ (a >> delta)) & mask;
    a ^ b ^ (b << delta)
}

pub open spec fn rotate_left_spec(x: u64, n: u64) -> u64 {
    (x << n) | (x >> ((64 - n) as u64))
}

pub open spec fn ip_network(m: u64) -> u64 {
    let m = delta_swap_spec(m, 9, 0x0055005500550055);
    let m = delta_swap_spec(m, 18, 0x0000333300003333);
    let m = delta_swap_spec(m, 36, 0x000000000F0F0F0F);
    let m = delta_swap_spec(m, 24, 0x00000000FF00FF00);
    delta_swap_spec(m, 24, 0x000000FF000000FF)
}

pub open spec fn fp_network(m: u64) -> u64 {
    let m = delta_swap_spec(m, 24, 0x000000FF000000FF);
    let m = delta_swap_spec(m, 24, 0x00000000FF00FF00);
    let m = delta_swap_spec(m, 36, 0x000000000F0F0F0F);
    let m = delta_swap_spec(m, 18, 0x0000333300003333);
    delta_swap_spec(m, 9, 0x0055005500550055)
}

pub open spec fn expand_network(block: u64) -> u64 {
    let b1 = (block << 31u64) & 0x8000000000000000;
    let b2 = (block >> 1u64) & 0x7C00000000000000;
    let b3 = (block >> 3u64) & 0x03F0000000000000;
    let b4 = (block >> 5u64) & 0x000FC00000000000;
    let b5 = (block >> 7u64) & 0x00003F0000000000;
    let b6 = (block >> 9u64) & 0x000000FC00000000;
    let b7 = (block >> 11u64) & 0x00000003F0000000;
    let b8 = (block >> 13u64) & 0x000000000FC00000;
    let b9 = (block >> 15u64) & 0x00000000003E0000;
    let b10 = (block >> 47u64) & 0x0000000000010000;
    b1 | b2 | b3 | b4 | b5 | b6 | b7 | b8 | b9 | b10
}

pub open spec fn pbox_network(block: u64) -> u64 {
    let block = rotate_left_spec(block, 44);
    let b1 = (block & 0x0000000000200000) << 32u64;
    let b2 = (block & 0x0000000000480000) << 13u64;
    let b3 = (block & 0x0000088000000000) << 12u64;
    let b4 = (block & 0x0000002020120000) << 25u64;
    let b5 = (block & 0x0000000442000000) << 14u64;
    let b6 = (block & 0x0000000001800000) << 37u64;
    let b7 = (block & 0x0000000004000000) << 24u64;
    let b8 = (block & 0x0000020280015000).wrapping_mul(0x0000020080800083) & 0x02000A6400000000;
    let b9 = (rotate_left_spec(block, 29) & 0x01001400000000AA).wrapping_mul(0x0000210210008081) & 0x0902C01200000000;
    let b10 = (block & 0x0000000910040000).wrapping_mul(0x0000000C04000020) & 0x8410010000000000;
    b1 | b2 | b3 | b4 | b5 | b6 | b7 | b8 | b9 | b10
}

proof fn lemma_ip_network(m: u64)
    by (bit_vector)
    ensures
        ip_network(m) == ip_closed(m),
{
}

proof fn lemma_fp_network(m: u64)
    by (bit_vector)
    ensures
        fp_network(m) == fp_closed(m),
{
}

proof fn lemma_expand_network(block: u64)
    by (bit_vector)
    ensures
        expand_network(block) == expand_closed(block),
{
}

proof fn lemma_pbox_network(block: u64)
    by (bit_vector)
    requires
        block & 0xFFFF_FFFF == 0,
    ensures
        pbox_network(block) == pbox_closed(block),
        pbox_closed(block) & 0xFFFF_FFFF == 0,
{
}

/// `x` rotated left by `n` bits.
pub(crate) fn rotate_left(x: u64, n: u64) -> (r: u64)
    requires
        0 < n < 64,
    ensures
        r == rotate_left_spec(x, n),
{
    (x << n) | (x >> (64 - n))
}

pub fn round(input: u64, key: u64) -> (r: u64)
    ensures
        r == (input << 32u64) | ((des_f(input << 32u64, key) ^ (input & 0xFFFF_FFFF_0000_0000u64)) >> 32u64),
        des_f(input << 32u64, key) & 0xFFFF_FFFF == 0,
{
    let left = input & (0xFFFF_FFFFu64 << 32u64);
    let right = input << 32u64;
    assert(0xFFFF_FFFFu64 << 32u64 == 0xFFFF_FFFF_0000_0000u64) by (bit_vector);
    right | ((feistel(right, key) ^ left) >> 32u64)
}

fn feistel(right: u64, key: u64) -> (r: u64)
    ensures
        r == des_f(right, key),
        r & 0xFFFF_FFFF == 0,
{
    let expanded = expand(right);
    let xored = expanded ^ key;
    let substituted = sbox_substitute(xored);
    pbox_permute(substituted)
}

fn sbox_substitute(input: u64) -> (output: u64)
    ensures
        output == sbox_layer(input, 8),
        output & 0xFFFF_FFFF == 0,
{
    let mut output: u64 = 0;
    let mut index: usize = 0;
    assert(0u64 & 0xFFFF_FFFF == 0) by (bit_vector);

    while index < 8
        invariant
            index <= 8,
            index == 0 ==> output == 0,
            index > 0 ==> output == sbox_layer(input, index as nat),
            output & 0xFFFF_FFFF == 0,
        decreases 8 - index,
    {
        let shift = (58 - index * 6) as u64;
        let val = (input >> shift) & 0x3F;
        assert(val < 64) by (bit_vector)
            requires
                val == (input >> shift) & 0x3F,
        ;
        let out_shift = (60 - index * 4) as u64;
        let term = (S_BOXES[index][val as usize] as u64) << out_shift;
        assert(term == sbox_term(input, index as int));
        proof {
            lemma_high_or(output, S_BOXES[index as int][val as int] as u64, out_shift);
            if index == 0 {
                lemma_or_zero(term);
            }
        }
        output = output | term;
        index = index + 1;
    }

    output
}

proof fn lemma_or_zero(t: u64)
    by (bit_vector)
    ensures
        0u64 | t == t,
{
}

proof fn lemma_high_or(o: u64, v: u64, s: u64)
    by (bit_vector)
    requires
        o & 0xFFFF_FFFF == 0,
        32 <= s < 64,
    ensures
        (o | (v << s)) & 0xFFFF_FFFF == 0,
{
}

fn delta_swap(a: u64, delta: u64, mask: u64) -> (r: u64)
    requires
        delta < 64,
    ensures
        r == delta_swap_spec(a, delta, mask),
{
    let b = (a ^ (a >> delta)) & mask;
    a ^ b ^ (b << delta)
}

/// The final permutation.
pub fn fp(message: u64) -> (r: u64)
    ensures
        r == permute_bits(message, FP_TABLE@, 64),
{
    proof {
        lemma_fp_network(message);
        lemma_fp_closed(message);
    }
    let mut message = message;
    message = delta_swap(message, 24, 0x000000FF000000FF);
    message = delta_swap(message, 24, 0x00000000FF00FF00);
    message = delta_swap(message, 36, 0x000000000F0F0F0F);
    message = delta_swap(message, 18, 0x0000333300003333);
    delta_swap(message, 9, 0x0055005500550055)
}

/// The initial permutation.
pub fn ip(message: u64) -> (r: u64)
    ensures
        r == permute_bits(message, IP_TABLE@, 64),
{
    proof {
        lemma_ip_network(message);
        lemma_ip_closed(message);
    }
    let mut message = message;
    message = delta_swap(message, 9, 0x0055005500550055);
    message = delta_swap(message, 18, 0x0000333300003333);
    message = delta_swap(message, 36, 0x000000000F0F0F0F);
    message = delta_swap(message, 24, 0x00000000FF00FF00);
    delta_swap(message, 24, 0x000000FF000000FF)
}

/// The expansion of the right half (in the upper 32 bits) to 48 bits.
fn expand(block: u64) -> (r: u64)
    ensures
        r == permute_bits(block, E_TABLE@, 48),
{
    proof {
        lemma_expand_network(block);
        lemma_expand_closed(block);
    }
    let b1 = (block << 31u64) & 0x8000000000000000;
    let b2 = (block >> 1u64) & 0x7C00000000000000;
    let b3 = (block >> 3u64) & 0x03F0000000000000;
    let b4 = (block >> 5u64) & 0x000FC00000000000;
    let b5 = (block >> 7u64) & 0x00003F0000000000;
    let b6 = (block >> 9u64) & 0x000000FC00000000;
    let b7 = (block >> 11u64) & 0x00000003F0000000;
    let b8 = (block >> 13u64) & 0x000000000FC00000;
    let b9 = (block >> 15u64) & 0x00000000003E0000;
    let b10 = (block >> 47u64) & 0x0000000000010000;
    b1 | b2 | b3 | b4 | b5 | b6 | b7 | b8 | b9 | b10
}

/// The P permutation of the 32 bits in the upper half of `block`.
fn pbox_permute(block: u64) -> (r: u64)
    requires
        block & 0xFFFF_FFFF == 0,
    ensures
        r == permute_bits(block, P_TABLE@, 32),
        r & 0xFFFF_FFFF == 0,
{
    proof {
        lemma_pbox_network(block);
        lemma_pbox_closed(block);
    }
    let block = rotate_left(block, 44);
    let b1 = (block & 0x0000000000200000) << 32u64;
    let b2 = (block & 0x0000000000480000) << 13u64;
    let b3 = (block & 0x0000088000000000) << 12u64;
    let b4 = (block & 0x0000002020120000) << 25u64;
    let b5 = (block & 0x0000000442000000) << 14u64;
    let b6 = (block & 0x0000000001800000) << 37u64;
    let b7 = (block & 0x0000000004000000) << 24u64;
    let b8 = (block & 0x0000020280015000).wrapping_mul(0x0000020080800083) & 0x02000A6400000000;
    let b9 = (rotate_left(block, 29) & 0x01001400000000AA).wrapping_mul(0x0000210210008081) & 0x0902C01200000000;
    let b10 = (block & 0x0000000910040000).wrapping_mul(0x0000000C04000020) & 0x8410010000000000;
    b1 | b2 | b3 | b4 | b5 | b6 | b7 | b8 | b9 | b10
}

} // verus!
