//! The DES permutations written out bit by bit, and the facts that tie them
//! to the table-driven definitions.

use vstd::prelude::*;
use super::{permute_bits, E_TABLE, FP_TABLE, IP_TABLE, P_TABLE};

verus! {

/// The initial permutation written out bit by bit.
pub open spec fn ip_closed(x: u64) -> u64 {
    (((x >> 6u64) & 1) << 63u64) |
    (((x >> 14u64) & 1) << 62u64) |
    (((x >> 22u64) & 1) << 61u64) |
    (((x >> 30u64) & 1) << 60u64) |
    (((x >> 38u64) & 1) << 59u64) |
    (((x >> 46u64) & 1) << 58u64) |
    (((x >> 54u64) & 1) << 57u64) |
    (((x >> 62u64) & 1) << 56u64) |
    (((x >> 4u64) & 1) << 55u64) |
    (((x >> 12u64) & 1) << 54u64) |
    (((x >> 20u64) & 1) << 53u64) |
    (((x >> 28u64) & 1) << 52u64) |
    (((x >> 36u64) & 1) << 51u64) |
    (((x >> 44u64) & 1) << 50u64) |
    (((x >> 52u64) & 1) << 49u64) |
    (((x >> 60u64) & 1) << 48u64) |
    (((x >> 2u64) & 1) << 47u64) |
    (((x >> 10u64) & 1) << 46u64) |
    (((x >> 18u64) & 1) << 45u64) |
    (((x >> 26u64) & 1) << 44u64) |
    (((x >> 34u64) & 1) << 43u64) |
    (((x >> 42u64) & 1) << 42u64) |
    (((x >> 50u64) & 1) << 41u64) |
    (((x >> 58u64) & 1) << 40u64) |
    (((x >> 0u64) & 1) << 39u64) |
    (((x >> 8u64) & 1) << 38u64) |
    (((x >> 16u64) & 1) << 37u64) |
    (((x >> 24u64) & 1) << 36u64) |
    (((x >> 32u64) & 1) << 35u64) |
    (((x >> 40u64) & 1) << 34u64) |
    (((x >> 48u64) & 1) << 33u64) |
    (((x >> 56u64) & 1) << 32u64) |
    (((x >> 7u64) & 1) << 31u64) |
    (((x >> 15u64) & 1) << 30u64) |
    (((x >> 23u64) & 1) << 29u64) |
    (((x >> 31u64) & 1) << 28u64) |
    (((x >> 39u64) & 1) << 27u64) |
    (((x >> 47u64) & 1) << 26u64) |
    (((x >> 55u64) & 1) << 25u64) |
    (((x >> 63u64) & 1) << 24u64) |
    (((x >> 5u64) & 1) << 23u64) |
    (((x >> 13u64) & 1) << 22u64) |
    (((x >> 21u64) & 1) << 21u64) |
    (((x >> 29u64) & 1) << 20u64) |
    (((x >> 37u64) & 1) << 19u64) |
    (((x >> 45u64) & 1) << 18u64) |
    (((x >> 53u64) & 1) << 17u64) |
    (((x >> 61u64) & 1) << 16u64) |
    (((x >> 3u64) & 1) << 15u64) |
    (((x >> 11u64) & 1) << 14u64) |
    (((x >> 19u64) & 1) << 13u64) |
    (((x >> 27u64) & 1) << 12u64) |
    (((x >> 35u64) & 1) << 11u64) |
    (((x >> 43u64) & 1) << 10u64) |
    (((x >> 51u64) & 1) << 9u64) |
    (((x >> 59u64) & 1) << 8u64) |
    (((x >> 1u64) & 1) << 7u64) |
    (((x >> 9u64) & 1) << 6u64) |
    (((x >> 17u64) & 1) << 5u64) |
    (((x >> 25u64) & 1) << 4u64) |
    (((x >> 33u64) & 1) << 3u64) |
    (((x >> 41u64) & 1) << 2u64) |
    (((x >> 49u64) & 1) << 1u64) |
    (((x >> 57u64) & 1) << 0u64)
}

/// The final permutation written out bit by bit.
pub open spec fn fp_closed(x: u64) -> u64 {
    (((x >> 24u64) & 1) << 63u64) |
    (((x >> 56u64) & 1) << 62u64) |
    (((x >> 16u64) & 1) << 61u64) |
    (((x >> 48u64) & 1) << 60u64) |
    (((x >> 8u64) & 1) << 59u64) |
    (((x >> 40u64) & 1) << 58u64) |
    (((x >> 0u64) & 1) << 57u64) |
    (((x >> 32u64) & 1) << 56u64) |
    (((x >> 25u64) & 1) << 55u64) |
    (((x >> 57u64) & 1) << 54u64) |
    (((x >> 17u64) & 1) << 53u64) |
    (((x >> 49u64) & 1) << 52u64) |
    (((x >> 9u64) & 1) << 51u64) |
    (((x >> 41u64) & 1) << 50u64) |
    (((x >> 1u64) & 1) << 49u64) |
    (((x >> 33u64) & 1) << 48u64) |
    (((x >> 26u64) & 1) << 47u64) |
    (((x >> 58u64) & 1) << 46u64) |
    (((x >> 18u64) & 1) << 45u64) |
    (((x >> 50u64) & 1) << 44u64) |
    (((x >> 10u64) & 1) << 43u64) |
    (((x >> 42u64) & 1) << 42u64) |
    (((x >> 2u64) & 1) << 41u64) |
    (((x >> 34u64) & 1) << 40u64) |
    (((x >> 27u64) & 1) << 39u64) |
    (((x >> 59u64) & 1) << 38u64) |
    (((x >> 19u64) & 1) << 37u64) |
    (((x >> 51u64) & 1) << 36u64) |
    (((x >> 11u64) & 1) << 35u64) |
    (((x >> 43u64) & 1) << 34u64) |
    (((x >> 3u64) & 1) << 33u64) |
    (((x >> 35u64) & 1) << 32u64) |
    (((x >> 28u64) & 1) << 31u64) |
    (((x >> 60u64) & 1) << 30u64) |
    (((x >> 20u64) & 1) << 29u64) |
    (((x >> 52u64) & 1) << 28u64) |
    (((x >> 12u64) & 1) << 27u64) |
    (((x >> 44u64) & 1) << 26u64) |
    (((x >> 4u64) & 1) << 25u64) |
    (((x >> 36u64) & 1) << 24u64) |
    (((x >> 29u64) & 1) << 23u64) |
    (((x >> 61u64) & 1) << 22u64) |
    (((x >> 21u64) & 1) << 21u64) |
    (((x >> 53u64) & 1) << 20u64) |
    (((x >> 13u64) & 1) << 19u64) |
    (((x >> 45u64) & 1) << 18u64) |
    (((x >> 5u64) & 1) << 17u64) |
    (((x >> 37u64) & 1) << 16u64) |
    (((x >> 30u64) & 1) << 15u64) |
    (((x >> 62u64) & 1) << 14u64) |
    (((x >> 22u64) & 1) << 13u64) |
    (((x >> 54u64) & 1) << 12u64) |
    (((x >> 14u64) & 1) << 11u64) |
    (((x >> 46u64) & 1) << 10u64) |
    (((x >> 6u64) & 1) << 9u64) |
    (((x >> 38u64) & 1) << 8u64) |
    (((x >> 31u64) & 1) << 7u64) |
    (((x >> 63u64) & 1) << 6u64) |
    (((x >> 23u64) & 1) << 5u64) |
    (((x >> 55u64) & 1) << 4u64) |
    (((x >> 15u64) & 1) << 3u64) |
    (((x >> 47u64) & 1) << 2u64) |
    (((x >> 7u64) & 1) << 1u64) |
    (((x >> 39u64) & 1) << 0u64)
}

/// The expansion written out bit by bit.
pub open spec fn expand_closed(x: u64) -> u64 {
    (((x >> 32u64) & 1) << 63u64) |
    (((x >> 63u64) & 1) << 62u64) |
    (((x >> 62u64) & 1) << 61u64) |
    (((x >> 61u64) & 1) << 60u64) |
    (((x >> 60u64) & 1) << 59u64) |
    (((x >> 59u64) & 1) << 58u64) |
    (((x >> 60u64) & 1) << 57u64) |
    (((x >> 59u64) & 1) << 56u64) |
    (((x >> 58u64) & 1) << 55u64) |
    (((x >> 57u64) & 1) << 54u64) |
    (((x >> 56u64) & 1) << 53u64) |
    (((x >> 55u64) & 1) << 52u64) |
    (((x >> 56u64) & 1) << 51u64) |
    (((x >> 55u64) & 1) << 50u64) |
    (((x >> 54u64) & 1) << 49u64) |
    (((x >> 53u64) & 1) << 48u64) |
    (((x >> 52u64) & 1) << 47u64) |
    (((x >> 51u64) & 1) << 46u64) |
    (((x >> 52u64) & 1) << 45u64) |
    (((x >> 51u64) & 1) << 44u64) |
    (((x >> 50u64) & 1) << 43u64) |
    (((x >> 49u64) & 1) << 42u64) |
    (((x >> 48u64) & 1) << 41u64) |
    (((x >> 47u64) & 1) << 40u64) |
    (((x >> 48u64) & 1) << 39u64) |
    (((x >> 47u64) & 1) << 38u64) |
    (((x >> 46u64) & 1) << 37u64) |
    (((x >> 45u64) & 1) << 36u64) |
    (((x >> 44u64) & 1) << 35u64) |
    (((x >> 43u64) & 1) << 34u64) |
    (((x >> 44u64) & 1) << 33u64) |
    (((x >> 43u64) & 1) << 32u64) |
    (((x >> 42u64) & 1) << 31u64) |
    (((x >> 41u64) & 1) << 30u64) |
    (((x >> 40u64) & 1) << 29u64) |
    (((x >> 39u64) & 1) << 28u64) |
    (((x >> 40u64) & 1) << 27u64) |
    (((x >> 39u64) & 1) << 26u64) |
    (((x >> 38u64) & 1) << 25u64) |
    (((x >> 37u64) & 1) << 24u64) |
    (((x >> 36u64) & 1) << 23u64) |
    (((x >> 35u64) & 1) << 22u64) |
    (((x >> 36u64) & 1) << 21u64) |
    (((x >> 35u64) & 1) << 20u64) |
    (((x >> 34u64) & 1) << 19u64) |
    (((x >> 33u64) & 1) << 18u64) |
    (((x >> 32u64) & 1) << 17u64) |
    (((x >> 63u64) & 1) << 16u64)
}

/// The P-box permutation written out bit by bit.
pub open spec fn pbox_closed(x: u64) -> u64 {
    (((x >> 48u64) & 1) << 63u64) |
    (((x >> 57u64) & 1) << 62u64) |
    (((x >> 44u64) & 1) << 61u64) |
    (((x >> 43u64) & 1) << 60u64) |
    (((x >> 35u64) & 1) << 59u64) |
    (((x >> 52u64) & 1) << 58u64) |
    (((x >> 36u64) & 1) << 57u64) |
    (((x >> 47u64) & 1) << 56u64) |
    (((x >> 63u64) & 1) << 55u64) |
    (((x >> 49u64) & 1) << 54u64) |
    (((x >> 41u64) & 1) << 53u64) |
    (((x >> 38u64) & 1) << 52u64) |
    (((x >> 59u64) & 1) << 51u64) |
    (((x >> 46u64) & 1) << 50u64) |
    (((x >> 33u64) & 1) << 49u64) |
    (((x >> 54u64) & 1) << 48u64) |
    (((x >> 62u64) & 1) << 47u64) |
    (((x >> 56u64) & 1) << 46u64) |
    (((x >> 40u64) & 1) << 45u64) |
    (((x >> 50u64) & 1) << 44u64) |
    (((x >> 32u64) & 1) << 43u64) |
    (((x >> 37u64) & 1) << 42u64) |
    (((x >> 61u64) & 1) << 41u64) |
    (((x >> 55u64) & 1) << 40u64) |
    (((x >> 45u64) & 1) << 39u64) |
    (((x >> 51u64) & 1) << 38u64) |
    (((x >> 34u64) & 1) << 37u64) |
    (((x >> 58u64) & 1) << 36u64) |
    (((x >> 42u64) & 1) << 35u64) |
    (((x >> 53u64) & 1) << 34u64) |
    (((x >> 60u64) & 1) << 33u64) |
    (((x >> 39u64) & 1) << 32u64)
}

pub proof fn lemma_ip_closed(x: u64)
    ensures
        permute_bits(x, IP_TABLE@, 64) == ip_closed(x),
{
    reveal_with_fuel(permute_bits, 65);
}

pub proof fn lemma_fp_closed(x: u64)
    ensures
        permute_bits(x, FP_TABLE@, 64) == fp_closed(x),
{
    reveal_with_fuel(permute_bits, 65);
}

pub proof fn lemma_expand_closed(x: u64)
    ensures
        permute_bits(x, E_TABLE@, 48) == expand_closed(x),
{
    reveal_with_fuel(permute_bits, 49);
}

pub proof fn lemma_pbox_closed(x: u64)
    ensures
        permute_bits(x, P_TABLE@, 32) == pbox_closed(x),
{
    reveal_with_fuel(permute_bits, 33);
}

/// The P-box output occupies the upper 32 bits.
pub proof fn lemma_pbox_closed_high(x: u64)
    by (bit_vector)
    ensures
        pbox_closed(x) & 0xFFFF_FFFF == 0,
{
}

pub proof fn lemma_closed_inverse(x: u64)
    by (bit_vector)
    ensures
        fp_closed(ip_closed(x)) == x,
        ip_closed(fp_closed(x)) == x,
{
}

pub proof fn lemma_round_halves(y: u64, f: u64)
    by (bit_vector)
    requires
        f & 0xFFFF_FFFF == 0,
    ensures
        ({
            let z = ((y & 0xFFFF_FFFF_0000_0000u64) ^ f) | ((y << 32u64) >> 32u64);
            &&& z << 32u64 == y << 32u64
            &&& ((z & 0xFFFF_FFFF_0000_0000u64) ^ f) | ((z << 32u64) >> 32u64) == y
        }),
{
}

} // verus!
