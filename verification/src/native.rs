//! The block decryption of game archives (GRF files), following Tokeiburu's
//! GRFEditor:
//!   - https://github.com/Tokeiburu/GRFEditor/blob/main/Utilities/DesDecryption.cs
//!   - https://github.com/Tokeiburu/GRFEditor/blob/main/GRF/Core/FileEntry.cs

use vstd::prelude::*;

use crate::archive::FileTableRow;
use crate::mixcrypt::{
    block_at, decimal_digits, encryption_cycle, lemma_decimal_digits_exact, lemma_decimal_digits_u32, lemma_pow10_positive, pow10,
    unscramble_byte, unscrambled, decrypted_blocks, decrypted_data, is_des_block,
    plain_blocks_before as mixcrypt_plain_blocks_before,
};
use crate::des::closed::{expand_closed, lemma_expand_closed, lemma_pbox_closed, lemma_pbox_closed_high};
use crate::des::{be8, be_bytes, be_u64, des_bit, des_decode, des_f, lemma_des_f_upper, lemma_fp_inverts_ip, permute_bits, sbox_layer, sbox_term, E_TABLE, FP_TABLE, IP_TABLE, P_TABLE, S_BOXES};

verus! {

/// The S-boxes packed in pairs: the high nibble of `S_TABLE[i][v]` is S-box
/// `2i` and the low nibble S-box `2i + 1`, both indexed by the six-bit group.
pub const S_TABLE: [[u8; 64]; 4] = [
    [
        0xef, 0x03, 0x41, 0xfd, 0xd8, 0x74, 0x1e, 0x47, 0x26, 0xef, 0xfb, 0x22, 0xb3, 0xd8, 0x84, 0x1e,
        0x39, 0xac, 0xa7, 0x60, 0x62, 0xc1, 0xcd, 0xba, 0x5c, 0x96, 0x90, 0x59, 0x05, 0x3b, 0x7a, 0x85,
        0x40, 0xfd, 0x1e, 0xc8, 0xe7, 0x8a, 0x8b, 0x21, 0xda, 0x43, 0x64, 0x9f, 0x2d, 0x14, 0xb1, 0x72,
        0xf5, 0x5b, 0xc8, 0xb6, 0x9c, 0x37, 0x76, 0xec, 0x39, 0xa0, 0xa3, 0x05, 0x52, 0x6e, 0x0f, 0xd9,
    ],
    [
        0xa7, 0xdd, 0x0d, 0x78, 0x9e, 0x0b, 0xe3, 0x95, 0x60, 0x36, 0x36, 0x4f, 0xf9, 0x60, 0x5a, 0xa3,
        0x11, 0x24, 0xd2, 0x87, 0xc8, 0x52, 0x75, 0xec, 0xbb, 0xc1, 0x4c, 0xba, 0x24, 0xfe, 0x8f, 0x19,
        0xda, 0x13, 0x66, 0xaf, 0x49, 0xd0, 0x90, 0x06, 0x8c, 0x6a, 0xfb, 0x91, 0x37, 0x8d, 0x0d, 0x78,
        0xbf, 0x49, 0x11, 0xf4, 0x23, 0xe5, 0xce, 0x3b, 0x55, 0xbc, 0xa2, 0x57, 0xe8, 0x22, 0x74, 0xce,
    ],
    [
        0x2c, 0xea, 0xc1, 0xbf, 0x4a, 0x24, 0x1f, 0xc2, 0x79, 0x47, 0xa2, 0x7c, 0xb6, 0xd9, 0x68, 0x15,
        0x80, 0x56, 0x5d, 0x01, 0x33, 0xfd, 0xf4, 0xae, 0xde, 0x30, 0x07, 0x9b, 0xe5, 0x83, 0x9b, 0x68,
        0x49, 0xb4, 0x2e, 0x83, 0x1f, 0xc2, 0xb5, 0x7c, 0xa2, 0x19, 0xd8, 0xe5, 0x7c, 0x2f, 0x83, 0xda,
        0xf7, 0x6b, 0x90, 0xfe, 0xc4, 0x01, 0x5a, 0x97, 0x61, 0xa6, 0x3d, 0x40, 0x0b, 0x58, 0xe6, 0x3d,
    ],
    [
        0x4d, 0xd1, 0xb2, 0x0f, 0x28, 0xbd, 0xe4, 0x78, 0xf6, 0x4a, 0x0f, 0x93, 0x8b, 0x17, 0xd1, 0xa4,
        0x3a, 0xec, 0xc9, 0x35, 0x93, 0x56, 0x7e, 0xcb, 0x55, 0x20, 0xa0, 0xfe, 0x6c, 0x89, 0x17, 0x62,
        0x17, 0x62, 0x4b, 0xb1, 0xb4, 0xde, 0xd1, 0x87, 0xc9, 0x14, 0x3c, 0x4a, 0x7e, 0xa8, 0xe2, 0x7d,
        0xa0, 0x9f, 0xf6, 0x5c, 0x6a, 0x09, 0x8d, 0xf0, 0x0f, 0xe3, 0x53, 0x25, 0x95, 0x36, 0x28, 0xcb,
    ],
];

/// The bit masks of the eight bits of a byte, most significant first.
pub const MASK: [u8; 8] = [0x80, 0x40, 0x20, 0x10, 0x08, 0x04, 0x02, 0x01];

/// Byte `k` of eight bytes.
pub open spec fn pick8(b0: u8, b1: u8, b2: u8, b3: u8, b4: u8, b5: u8, b6: u8, b7: u8, k: u64) -> u8 {
    if k == 0 {
        b0
    } else if k == 1 {
        b1
    } else if k == 2 {
        b2
    } else if k == 3 {
        b3
    } else if k == 4 {
        b4
    } else if k == 5 {
        b5
    } else if k == 6 {
        b6
    } else {
        b7
    }
}

proof fn lemma_pick8(s: Seq<u8>, k: u64)
    requires
        s.len() == 8,
        k < 8,
    ensures
        pick8(s[0], s[1], s[2], s[3], s[4], s[5], s[6], s[7], k) == s[k as int],
{
    assert(k == 0 || k == 1 || k == 2 || k == 3 || k == 4 || k == 5 || k == 6 || k == 7);
}

proof fn lemma_index_bits(j: u64)
    by (bit_vector)
    requires
        j < 64,
    ensures
        (j >> 3u64) & 7 == j >> 3u64,
        j >> 3u64 < 8,
        j & 7 < 8,
{
}

proof fn lemma_mask_shifts(m: u64)
    by (bit_vector)
    requires
        m < 8,
    ensures
        m == 0 ==> 0x80u8 >> m == 0x80u8,
        m == 1 ==> 0x80u8 >> m == 0x40u8,
        m == 2 ==> 0x80u8 >> m == 0x20u8,
        m == 3 ==> 0x80u8 >> m == 0x10u8,
        m == 4 ==> 0x80u8 >> m == 0x08u8,
        m == 5 ==> 0x80u8 >> m == 0x04u8,
        m == 6 ==> 0x80u8 >> m == 0x02u8,
        m == 7 ==> 0x80u8 >> m == 0x01u8,
{
}

proof fn lemma_mask_table(m: u64)
    requires
        m < 8,
    ensures
        MASK@[m as int] == 0x80u8 >> m,
{
    lemma_mask_shifts(m);
    assert(m == 0 || m == 1 || m == 2 || m == 3 || m == 4 || m == 5 || m == 6 || m == 7);
}

/// Testing a bit of the bytes is testing the bit of the block they spell.
proof fn lemma_test_bit(b0: u8, b1: u8, b2: u8, b3: u8, b4: u8, b5: u8, b6: u8, b7: u8, j: u64)
    by (bit_vector)
    requires
        j < 64,
    ensures
        ((pick8(b0, b1, b2, b3, b4, b5, b6, b7, j >> 3u64) & (0x80u8 >> (j & 7))) != 0)
            == (((be8(b0, b1, b2, b3, b4, b5, b6, b7) >> ((63 - j) as u64)) & 1) == 1),
        ((be8(b0, b1, b2, b3, b4, b5, b6, b7) >> ((63 - j) as u64)) & 1) <= 1,
{
}

/// Setting a bit of the bytes sets the bit of the block they spell.
proof fn lemma_set_bit(o0: u8, o1: u8, o2: u8, o3: u8, o4: u8, o5: u8, o6: u8, o7: u8, p: u64)
    by (bit_vector)
    requires
        p < 64,
    ensures
        be8(
            if p >> 3u64 == 0 { o0 | (0x80u8 >> (p & 7)) } else { o0 },
            if p >> 3u64 == 1 { o1 | (0x80u8 >> (p & 7)) } else { o1 },
            if p >> 3u64 == 2 { o2 | (0x80u8 >> (p & 7)) } else { o2 },
            if p >> 3u64 == 3 { o3 | (0x80u8 >> (p & 7)) } else { o3 },
            if p >> 3u64 == 4 { o4 | (0x80u8 >> (p & 7)) } else { o4 },
            if p >> 3u64 == 5 { o5 | (0x80u8 >> (p & 7)) } else { o5 },
            if p >> 3u64 == 6 { o6 | (0x80u8 >> (p & 7)) } else { o6 },
            if p >> 3u64 == 7 { o7 | (0x80u8 >> (p & 7)) } else { o7 },
        ) == be8(o0, o1, o2, o3, o4, o5, o6, o7) | (1u64 << ((63 - p) as u64)),
{
}

/// One step of accumulating a bit permutation at bit offset `off`.
proof fn lemma_accumulate(acc: u64, base: u64, pp: u64, i: u64, off: u64)
    by (bit_vector)
    requires
        off == 0 || off == 32,
        i + off < 64,
    ensures
        (i == 0 && acc == base) ==> (acc | (1u64 << ((63 - off) as u64))) == base | ((1u64 << 63u64) >> off),
        (i == 0 && acc == base) ==> acc == base | ((0u64 << 63u64) >> off),
        (i > 0 && acc == base | (pp >> off)) ==> (acc | (1u64 << ((63 - (i + off)) as u64)))
            == base | ((pp | (1u64 << ((63 - i) as u64))) >> off),
        (i > 0 && acc == base | (pp >> off)) ==> acc == base | ((pp | (0u64 << ((63 - i) as u64))) >> off),
{
}

/// The bytes of `s` after `s[k] |= mask`, when `hit`.
pub open spec fn set_if(s: Seq<u8>, hit: bool, k: int, mask: u8) -> Seq<u8> {
    if hit {
        s.update(k, s[k] | mask)
    } else {
        s
    }
}

/// One step of the table-driven permutation loops: output bit `i + off` is
/// set when input bit `table[i] - 1` is set.
proof fn lemma_permute_step(
    x: u64,
    src: Seq<u8>,
    table: Seq<u8>,
    i: u64,
    off: u64,
    base: u64,
    out: Seq<u8>,
    hit: bool,
)
    requires
        src.len() == 8,
        out.len() == 8,
        be_u64(src) == x,
        off == 0 || off == 32,
        i + off < 64,
        (i as int) < table.len(),
        1 <= table[i as int] <= 64,
        hit == ((src[(((table[i as int] - 1) as u64 >> 3u64) & 7) as int] & MASK@[((table[i as int] - 1) as u64 & 7) as int]) != 0),
        i == 0 ==> be_u64(out) == base,
        i > 0 ==> be_u64(out) == base | (permute_bits(x, table, i as nat) >> off),
    ensures
        be_u64(set_if(out, hit, ((((i + off) as u64) >> 3u64) & 7) as int, MASK@[(((i + off) as u64) & 7) as int]))
            == base | (permute_bits(x, table, (i + 1) as nat) >> off),
{
    let j = (table[i as int] - 1) as u64;
    let p = (i + off) as u64;
    lemma_index_bits(j);
    lemma_index_bits(p);
    lemma_mask_table(j & 7);
    lemma_mask_table(p & 7);
    lemma_pick8(src, j >> 3u64);
    lemma_test_bit(src[0], src[1], src[2], src[3], src[4], src[5], src[6], src[7], j);
    lemma_set_bit(out[0], out[1], out[2], out[3], out[4], out[5], out[6], out[7], p);
    lemma_accumulate(be_u64(out), base, permute_bits(x, table, i as nat), i, off);
    assert(des_bit(x, j as int) == (x >> ((63 - j) as u64)) & 1);
    if hit {
        let out2 = out.update((p >> 3u64) as int, out[(p >> 3u64) as int] | MASK@[(p & 7) as int]);
        assert(be_u64(out2) == be_u64(out) | (1u64 << ((63 - p) as u64)));
    }
}

proof fn lemma_zero_base(v: u64)
    by (bit_vector)
    ensures
        0u64 | (v >> 0u64) == v,
        be8(0, 0, 0, 0, 0, 0, 0, 0) == 0,
{
}

/// Every entry of the 64-entry permutation tables names a bit of the block.
proof fn lemma_permutation_tables_in_range()
    ensures
        forall|k: int| 0 <= k < 64 ==> 1 <= #[trigger] IP_TABLE@[k] <= 64,
        forall|k: int| 0 <= k < 64 ==> 1 <= #[trigger] FP_TABLE@[k] <= 64,
        forall|k: int| 0 <= k < 32 ==> 1 <= #[trigger] P_TABLE@[k] <= 32,
{
    assert forall|k: int| 0 <= k < 64 implies 1 <= #[trigger] IP_TABLE@[k] <= 64 && 1 <= FP_TABLE@[k] <= 64 by {
        assert(k == 0 || k == 1 || k == 2 || k == 3 || k == 4 || k == 5 || k == 6 || k == 7 || k == 8 || k == 9 || k == 10 || k == 11 || k == 12 || k == 13 || k == 14 || k == 15 || k == 16 || k == 17 || k == 18 || k == 19 || k == 20 || k == 21 || k == 22 || k == 23 || k == 24 || k == 25 || k == 26 || k == 27 || k == 28 || k == 29 || k == 30 || k == 31 || k == 32 || k == 33 || k == 34 || k == 35 || k == 36 || k == 37 || k == 38 || k == 39 || k == 40 || k == 41 || k == 42 || k == 43 || k == 44 || k == 45 || k == 46 || k == 47 || k == 48 || k == 49 || k == 50 || k == 51 || k == 52 || k == 53 || k == 54 || k == 55 || k == 56 || k == 57 || k == 58 || k == 59 || k == 60 || k == 61 || k == 62 || k == 63);
    }
    assert forall|k: int| 0 <= k < 32 implies 1 <= #[trigger] P_TABLE@[k] <= 32 by {
        assert(k == 0 || k == 1 || k == 2 || k == 3 || k == 4 || k == 5 || k == 6 || k == 7 || k == 8 || k == 9 || k == 10 || k == 11 || k == 12 || k == 13 || k == 14 || k == 15 || k == 16 || k == 17 || k == 18 || k == 19 || k == 20 || k == 21 || k == 22 || k == 23 || k == 24 || k == 25 || k == 26 || k == 27 || k == 28 || k == 29 || k == 30 || k == 31);
    }
}

/// The six-bit groups that the round function gathers from the right half
/// are the groups of the DES expansion.
proof fn lemma_expansion_groups(s0: u8, s1: u8, s2: u8, s3: u8, s4: u8, s5: u8, s6: u8, s7: u8)
    by (bit_vector)
    ensures
        ({
            let e = expand_closed(be8(s0, s1, s2, s3, s4, s5, s6, s7) << 32u64) ^ 0u64;
            &&& ((s7 << 5u8) | (s4 >> 3u8)) & 0x3F == ((e >> 58u64) & 0x3F) as u8
            &&& ((s4 << 1u8) | (s5 >> 7u8)) & 0x3F == ((e >> 52u64) & 0x3F) as u8
            &&& ((s4 << 5u8) | (s5 >> 3u8)) & 0x3F == ((e >> 46u64) & 0x3F) as u8
            &&& ((s5 << 1u8) | (s6 >> 7u8)) & 0x3F == ((e >> 40u64) & 0x3F) as u8
            &&& ((s5 << 5u8) | (s6 >> 3u8)) & 0x3F == ((e >> 34u64) & 0x3F) as u8
            &&& ((s6 << 1u8) | (s7 >> 7u8)) & 0x3F == ((e >> 28u64) & 0x3F) as u8
            &&& ((s6 << 5u8) | (s7 >> 3u8)) & 0x3F == ((e >> 22u64) & 0x3F) as u8
            &&& ((s7 << 1u8) | (s4 >> 7u8)) & 0x3F == ((e >> 16u64) & 0x3F) as u8
            &&& (e >> 58u64) & 0x3F < 64 && (e >> 52u64) & 0x3F < 64
            &&& (e >> 46u64) & 0x3F < 64 && (e >> 40u64) & 0x3F < 64
            &&& (e >> 34u64) & 0x3F < 64 && (e >> 28u64) & 0x3F < 64
            &&& (e >> 22u64) & 0x3F < 64 && (e >> 16u64) & 0x3F < 64
        }),
{
}

/// The packed S-box table holds the S-boxes of the standard in pairs.
proof fn lemma_packed_sboxes()
    ensures
        forall|i: int, v: int|
            0 <= i < 4 && 0 <= v < 64 ==> {
                &&& #[trigger] S_TABLE@[i]@[v] / 16 == S_BOXES@[2 * i]@[v]
                &&& S_TABLE@[i]@[v] % 16 == S_BOXES@[2 * i + 1]@[v]
            },
{
    assert forall|v: int| 0 <= v < 64 implies {
        &&& S_TABLE@[0]@[v] / 16 == S_BOXES@[0]@[v]
        &&& S_TABLE@[0]@[v] % 16 == S_BOXES@[1]@[v]
        &&& S_TABLE@[1]@[v] / 16 == S_BOXES@[2]@[v]
        &&& S_TABLE@[1]@[v] % 16 == S_BOXES@[3]@[v]
        &&& S_TABLE@[2]@[v] / 16 == S_BOXES@[4]@[v]
        &&& S_TABLE@[2]@[v] % 16 == S_BOXES@[5]@[v]
        &&& S_TABLE@[3]@[v] / 16 == S_BOXES@[6]@[v]
        &&& S_TABLE@[3]@[v] % 16 == S_BOXES@[7]@[v]
    } by {
        assert(v == 0 || v == 1 || v == 2 || v == 3 || v == 4 || v == 5 || v == 6 || v == 7 || v == 8 || v == 9 || v == 10 || v == 11 || v == 12 || v == 13 || v == 14 || v == 15 || v == 16 || v == 17 || v == 18 || v == 19 || v == 20 || v == 21 || v == 22 || v == 23 || v == 24 || v == 25 || v == 26 || v == 27 || v == 28 || v == 29 || v == 30 || v == 31 || v == 32 || v == 33 || v == 34 || v == 35 || v == 36 || v == 37 || v == 38 || v == 39 || v == 40 || v == 41 || v == 42 || v == 43 || v == 44 || v == 45 || v == 46 || v == 47 || v == 48 || v == 49 || v == 50 || v == 51 || v == 52 || v == 53 || v == 54 || v == 55 || v == 56 || v == 57 || v == 58 || v == 59 || v == 60 || v == 61 || v == 62 || v == 63);
    }
    assert forall|i: int, v: int| 0 <= i < 4 && 0 <= v < 64 implies {
        &&& #[trigger] S_TABLE@[i]@[v] / 16 == S_BOXES@[2 * i]@[v]
        &&& S_TABLE@[i]@[v] % 16 == S_BOXES@[2 * i + 1]@[v]
    } by {
        assert(i == 0 || i == 1 || i == 2 || i == 3);
    }
}

proof fn lemma_nibbles(t: u8)
    by (bit_vector)
    ensures
        t & 0xF0 == (t / 16) << 4u8,
        t & 0x0F == t % 16,
        t / 16 < 16,
{
}

/// Four bytes of paired S-box outputs spell the S-box stage of the block.
proof fn lemma_sbox_bytes(v0: u8, v1: u8, v2: u8, v3: u8, v4: u8, v5: u8, v6: u8, v7: u8)
    by (bit_vector)
    requires
        v0 < 16, v1 < 16, v2 < 16, v3 < 16, v4 < 16, v5 < 16, v6 < 16, v7 < 16,
    ensures
        be8((v0 << 4u8) | v1, (v2 << 4u8) | v3, (v4 << 4u8) | v5, (v6 << 4u8) | v7, 0, 0, 0, 0)
            == ((v0 as u64) << 60u64) | ((v1 as u64) << 56u64) | ((v2 as u64) << 52u64) | ((v3 as u64) << 48u64)
            | ((v4 as u64) << 44u64) | ((v5 as u64) << 40u64) | ((v6 as u64) << 36u64) | ((v7 as u64) << 32u64),
        be8((v0 << 4u8) | v1, (v2 << 4u8) | v3, (v4 << 4u8) | v5, (v6 << 4u8) | v7, 0, 0, 0, 0) & 0xFFFF_FFFF == 0,
{
}

/// Mixing the permuted S-box output into the left half.
proof fn lemma_mix_left(s0: u8, s1: u8, s2: u8, s3: u8, s4: u8, s5: u8, s6: u8, s7: u8,
    b0: u8, b1: u8, b2: u8, b3: u8, b4: u8, b5: u8, b6: u8, b7: u8, sout: u64, pout: u64)
    by (bit_vector)
    requires
        be8(b0, b1, b2, b3, b4, b5, b6, b7) == sout | (pout >> 32u64),
        sout & 0xFFFF_FFFF == 0,
        pout & 0xFFFF_FFFF == 0,
    ensures
        be8(s0 ^ b4, s1 ^ b5, s2 ^ b6, s3 ^ b7, s4, s5, s6, s7) == be8(s0, s1, s2, s3, s4, s5, s6, s7) ^ pout,
{
}

proof fn lemma_dest_byte(i: u64)
    by (bit_vector)
    requires
        i < 32,
    ensures
        (i >> 3u64) + 4 == (((i + 32) as u64) >> 3u64) & 7,
        i & 7 == ((i + 32) as u64) & 7,
        (i >> 3u64) + 4 < 8,
{
}

proof fn lemma_source_byte(j: u64)
    by (bit_vector)
    requires
        j < 32,
    ensures
        j >> 3u64 < 4,
{
}

/// The six-bit groups gathered from the bytes of a block are the groups of
/// the expansion of its right half.
proof fn lemma_groups(src: Seq<u8>, groups: Seq<u8>)
    requires
        src.len() == 8,
        groups.len() == 8,
        groups[0] == ((src[7] << 5u8) | (src[4] >> 3u8)) & 0x3f,
        groups[1] == ((src[4] << 1u8) | (src[5] >> 7u8)) & 0x3f,
        groups[2] == ((src[4] << 5u8) | (src[5] >> 3u8)) & 0x3f,
        groups[3] == ((src[5] << 1u8) | (src[6] >> 7u8)) & 0x3f,
        groups[4] == ((src[5] << 5u8) | (src[6] >> 3u8)) & 0x3f,
        groups[5] == ((src[6] << 1u8) | (src[7] >> 7u8)) & 0x3f,
        groups[6] == ((src[6] << 5u8) | (src[7] >> 3u8)) & 0x3f,
        groups[7] == ((src[7] << 1u8) | (src[4] >> 7u8)) & 0x3f,
    ensures
        forall|k: int|
            0 <= k < 8 ==> #[trigger] groups[k] as int == (((permute_bits(be_u64(src) << 32u64, E_TABLE@, 48) ^ 0u64) >> (
            (58 - 6 * k) as u64)) & 0x3F) as int && groups[k] < 64,
{
    lemma_expand_closed(be_u64(src) << 32u64);
    lemma_expansion_groups(src[0], src[1], src[2], src[3], src[4], src[5], src[6], src[7]);
    assert forall|k: int| 0 <= k < 8 implies #[trigger] groups[k] as int == (((permute_bits(be_u64(src) << 32u64, E_TABLE@, 48) ^ 0u64) >> (
        (58 - 6 * k) as u64)) & 0x3F) as int && groups[k] < 64 by {
        assert(k == 0 || k == 1 || k == 2 || k == 3 || k == 4 || k == 5 || k == 6 || k == 7);
    }
}

/// The packed S-box lookups of the round function spell the S-box stage.
proof fn lemma_sbox_stage(x: u64, groups: Seq<u8>, snap: Seq<u8>)
    requires
        groups.len() == 8,
        snap.len() == 8,
        forall|k: int|
            0 <= k < 8 ==> #[trigger] groups[k] as int == (((permute_bits(x << 32u64, E_TABLE@, 48) ^ 0u64) >> ((58 - 6
                * k) as u64)) & 0x3F) as int && groups[k] < 64,
        forall|k: int|
            0 <= k < 4 ==> #[trigger] snap[k] == (S_TABLE@[k]@[groups[2 * k] as int] & 0xf0) | (S_TABLE@[k]@[
                groups[2 * k + 1] as int
            ] & 0x0f),
        snap[4] == 0,
        snap[5] == 0,
        snap[6] == 0,
        snap[7] == 0,
    ensures
        be_u64(snap) == sbox_layer(permute_bits(x << 32u64, E_TABLE@, 48) ^ 0u64, 8),
        be_u64(snap) & 0xFFFF_FFFF == 0,
{
    let e = permute_bits(x << 32u64, E_TABLE@, 48) ^ 0u64;
    lemma_packed_sboxes();
    let t0 = S_TABLE@[0]@[groups[0] as int];
    let u0 = S_TABLE@[0]@[groups[1] as int];
    let t1 = S_TABLE@[1]@[groups[2] as int];
    let u1 = S_TABLE@[1]@[groups[3] as int];
    let t2 = S_TABLE@[2]@[groups[4] as int];
    let u2 = S_TABLE@[2]@[groups[5] as int];
    let t3 = S_TABLE@[3]@[groups[6] as int];
    let u3 = S_TABLE@[3]@[groups[7] as int];
    assert(snap[0] == (t0 & 0xf0) | (u0 & 0x0f));
    assert(snap[1] == (t1 & 0xf0) | (u1 & 0x0f));
    assert(snap[2] == (t2 & 0xf0) | (u2 & 0x0f));
    assert(snap[3] == (t3 & 0xf0) | (u3 & 0x0f));
    lemma_nibbles(t0);
    lemma_nibbles(u0);
    lemma_nibbles(t1);
    lemma_nibbles(u1);
    lemma_nibbles(t2);
    lemma_nibbles(u2);
    lemma_nibbles(t3);
    lemma_nibbles(u3);
    lemma_sbox_bytes(t0 / 16, u0 % 16, t1 / 16, u1 % 16, t2 / 16, u2 % 16, t3 / 16, u3 % 16);
    assert(groups[0] as int == ((e >> 58u64) & 0x3F) as int);
    assert(groups[1] as int == ((e >> 52u64) & 0x3F) as int);
    assert(groups[2] as int == ((e >> 46u64) & 0x3F) as int);
    assert(groups[3] as int == ((e >> 40u64) & 0x3F) as int);
    assert(groups[4] as int == ((e >> 34u64) & 0x3F) as int);
    assert(groups[5] as int == ((e >> 28u64) & 0x3F) as int);
    assert(groups[6] as int == ((e >> 22u64) & 0x3F) as int);
    assert(groups[7] as int == ((e >> 16u64) & 0x3F) as int);
    reveal_with_fuel(sbox_layer, 8);
    assert(sbox_term(e, 0) == ((t0 / 16) as u64) << 60u64);
    assert(sbox_term(e, 1) == ((u0 % 16) as u64) << 56u64);
    assert(sbox_term(e, 2) == ((t1 / 16) as u64) << 52u64);
    assert(sbox_term(e, 3) == ((u1 % 16) as u64) << 48u64);
    assert(sbox_term(e, 4) == ((t2 / 16) as u64) << 44u64);
    assert(sbox_term(e, 5) == ((u2 % 16) as u64) << 40u64);
    assert(sbox_term(e, 6) == ((t3 / 16) as u64) << 36u64);
    assert(sbox_term(e, 7) == ((u3 % 16) as u64) << 32u64);
}

/// Mixing a value that lives in the upper half into the block only touches
/// the left half.
proof fn lemma_mix_halves(y: u64, f: u64)
    by (bit_vector)
    requires
        f & 0xFFFF_FFFF == 0,
    ensures
        y ^ f == ((y & 0xFFFF_FFFF_0000_0000u64) ^ f) | ((y << 32u64) >> 32u64),
{
}

proof fn lemma_be_roundtrip_bytes(b0: u8, b1: u8, b2: u8, b3: u8, b4: u8, b5: u8, b6: u8, b7: u8)
    by (bit_vector)
    ensures
        (be8(b0, b1, b2, b3, b4, b5, b6, b7) >> 56u64) as u8 == b0,
        (be8(b0, b1, b2, b3, b4, b5, b6, b7) >> 48u64) as u8 == b1,
        (be8(b0, b1, b2, b3, b4, b5, b6, b7) >> 40u64) as u8 == b2,
        (be8(b0, b1, b2, b3, b4, b5, b6, b7) >> 32u64) as u8 == b3,
        (be8(b0, b1, b2, b3, b4, b5, b6, b7) >> 24u64) as u8 == b4,
        (be8(b0, b1, b2, b3, b4, b5, b6, b7) >> 16u64) as u8 == b5,
        (be8(b0, b1, b2, b3, b4, b5, b6, b7) >> 8u64) as u8 == b6,
        be8(b0, b1, b2, b3, b4, b5, b6, b7) as u8 == b7,
{
}

/// Eight bytes are the big-endian bytes of the block they spell.
pub proof fn lemma_be_bytes_of_be_u64(b: Seq<u8>)
    requires
        b.len() == 8,
    ensures
        be_bytes(be_u64(b)) == b,
{
    lemma_be_roundtrip_bytes(b[0], b[1], b[2], b[3], b[4], b[5], b[6], b[7]);
    assert(be_bytes(be_u64(b)) =~= b);
}

/// The three stages of the byte-wise block decoding compose to the decoding.
proof fn lemma_decode_steps(x: u64, y: u64, z: u64, w: u64)
    requires
        y == permute_bits(x, IP_TABLE@, 64),
        z == y ^ des_f(y << 32u64, 0),
        w == permute_bits(z, FP_TABLE@, 64),
    ensures
        w == des_decode(x),
{
    lemma_pbox_closed(sbox_layer(permute_bits(y << 32u64, E_TABLE@, 48) ^ 0u64, 8));
    lemma_pbox_closed_high(sbox_layer(permute_bits(y << 32u64, E_TABLE@, 48) ^ 0u64, 8));
    lemma_mix_halves(y, des_f(y << 32u64, 0));
}

/// The file is encrypted with the mixed scheme.
pub const FLAG_HEADER_CRYPTED: u8 = 1 << 1;

/// Only the first blocks of the file are encrypted.
pub const FLAG_DATA_CRYPTED: u8 = 1 << 2;

/// Whether block `n` is DES-encrypted; `header_only` is true when only the
/// first 20 blocks are, and `cycle` is the interval of the other encrypted
/// blocks.
pub open spec fn is_legacy_des_block(n: int, header_only: bool, cycle: int) -> bool {
    n < 20 || (!header_only && n % cycle == 0)
}

/// How many of the blocks before block `n` are not DES-encrypted.
pub open spec fn plain_blocks_before(n: int, header_only: bool, cycle: int) -> int
    decreases n,
{
    if n <= 0 {
        0
    } else {
        plain_blocks_before(n - 1, header_only, cycle) + if is_legacy_des_block(n - 1, header_only, cycle) {
            0int
        } else {
            1int
        }
    }
}

/// Whether block `n` is scrambled: with the mixed scheme, every seventh block
/// that is not DES-encrypted, counted from the first one (which is not).
pub open spec fn is_legacy_scrambled_block(n: int, header_only: bool, cycle: int) -> bool {
    &&& !header_only
    &&& !is_legacy_des_block(n, header_only, cycle)
    &&& plain_blocks_before(n, header_only, cycle) > 0
    &&& plain_blocks_before(n, header_only, cycle) % 7 == 0
}

/// Block `n` after decoding.
pub open spec fn legacy_decoded_block(block: Seq<u8>, n: int, header_only: bool, cycle: int) -> Seq<u8> {
    if is_legacy_des_block(n, header_only, cycle) {
        be_bytes(des_decode(be_u64(block)))
    } else if is_legacy_scrambled_block(n, header_only, cycle) {
        unscrambled(block)
    } else {
        block
    }
}

/// The data with each complete block decoded by its number.
pub open spec fn legacy_decoded(data: Seq<u8>, header_only: bool, cycle: int) -> Seq<u8> {
    Seq::new(
        data.len(),
        |i: int|
            if i < 8 * (data.len() / 8) {
                legacy_decoded_block(block_at(data, i / 8), i / 8, header_only, cycle)[i % 8]
            } else {
                data[i]
            },
    )
}

/// The data followed by zeros up to a whole number of blocks.
pub open spec fn zero_padded(data: Seq<u8>) -> Seq<u8> {
    data + Seq::new(((8 - data.len() % 8) % 8) as nat, |i: int| 0u8)
}

/// The decrypted file data: the data is padded with zeros to whole blocks,
/// decoded with the cycle derived from `cycle`, and cut back to its length.
pub open spec fn legacy_decrypted(data: Seq<u8>, header_only: bool, cycle: int) -> Seq<u8> {
    legacy_decoded(zero_padded(data), header_only, encryption_cycle(cycle)).take(data.len() as int)
}

/// The scheme of a file: `Some((only_header_is_encrypted, cycle))` when it
/// is encrypted, where `cycle` is the digit count of the compressed size for
/// the mixed scheme; the mixed scheme wins when both flags are set.
pub open spec fn legacy_scheme(flags: u8, compressed_size: u32) -> Option<(bool, usize)> {
    if flags & FLAG_HEADER_CRYPTED == FLAG_HEADER_CRYPTED {
        Some((false, decimal_digits(compressed_size as nat) as usize))
    } else if flags & FLAG_DATA_CRYPTED == FLAG_DATA_CRYPTED {
        Some((true, 0))
    } else {
        None
    }
}

/// The counter of unencrypted blocks that the decoding loop keeps.
pub open spec fn plain_counter(m: int, header_only: bool) -> int {
    if m == 0 {
        0
    } else if !header_only {
        (m - 1) % 7 + 1
    } else {
        m
    }
}

/// Decrypts the file data of game archives.
pub struct DesDecryption {}

impl DesDecryption {
    /// Decrypts the data of an archive file according to its flags.
    pub fn decrypt_file(file_information: &FileTableRow, data: &mut Vec<u8>)
        requires
            old(data).len() + 8 <= usize::MAX,
        ensures
            final(data)@ == match legacy_scheme(file_information.flags, file_information.compressed_size) {
                Some((header_only, cycle)) => legacy_decrypted(old(data)@, header_only, cycle as int),
                None => old(data)@,
            },
    {
        let mut decrypt = false;
        let mut cycle: usize = 0;

        if (file_information.flags & FLAG_HEADER_CRYPTED) == FLAG_HEADER_CRYPTED {
            decrypt = true;
            cycle = 1;

            let ghost size = file_information.compressed_size as nat;
            let mut i: u32 = 10;
            proof {
                reveal_with_fuel(pow10, 2);
                if size < 10 {
                    lemma_decimal_digits_exact(size, 1);
                }
            }
            while file_information.compressed_size >= i
                invariant_except_break
                    i as nat == pow10(cycle as nat),
                    size < i ==> cycle == decimal_digits(size),
                invariant
                    1 <= cycle <= 10,
                    size == file_information.compressed_size,
                    cycle == 1 || pow10((cycle - 1) as nat) <= size,
                ensures
                    cycle == decimal_digits(size),
                decreases 10 - cycle,
            {
                proof {
                    lemma_decimal_digits_u32(file_information.compressed_size);
                    lemma_pow10_positive((cycle - 1) as nat);
                    assert(pow10(cycle as nat) == 10 * pow10((cycle - 1) as nat));
                    if cycle == 10 {
                        reveal_with_fuel(pow10, 11);
                        assert(pow10(10) == 10000000000);
                    }
                }
                cycle += 1;
                i = match i.checked_mul(10) {
                    Some(i) => i,
                    None => {
                        proof {
                            assert(pow10(cycle as nat) == 10 * pow10((cycle - 1) as nat));
                            lemma_decimal_digits_exact(size, cycle as nat);
                        }
                        break;
                    },
                };
                assert(pow10(cycle as nat) == 10 * pow10((cycle - 1) as nat));
                proof {
                    if size < i {
                        lemma_decimal_digits_exact(size, cycle as nat);
                    }
                }
            }
            assert(cycle == decimal_digits(size));
        } else if (file_information.flags & FLAG_DATA_CRYPTED) == FLAG_DATA_CRYPTED {
            decrypt = true;
        }

        if decrypt {
            Self::decrypt_file_data(data, cycle == 0, cycle);
        }
    }

    /// Decrypts `data` in place; data that does not fill its last block is
    /// decoded as if padded with zeros.
    pub fn decrypt_file_data(data: &mut Vec<u8>, file_type: bool, cycle: usize)
        requires
            old(data).len() + 8 <= usize::MAX,
            cycle + 15 <= usize::MAX,
        ensures
            final(data)@ == legacy_decrypted(old(data)@, file_type, cycle as int),
    {
        let ghost initial = data@;
        if data.len() % 8 != 0 {
            let ideal_size = ((data.len() / 8) + 1) * 8;
            let data_len = data.len();
            let mut data_fixed = vec![0u8; ideal_size];

            let mut k: usize = 0;
            while k < data_len
                invariant
                    k <= data_len,
                    data_len == data.len(),
                    data_len < ideal_size,
                    data@ == initial,
                    data_fixed@.len() == ideal_size,
                    forall|t: int| 0 <= t < k ==> #[trigger] data_fixed@[t] == initial[t],
                    forall|t: int| k <= t < ideal_size ==> #[trigger] data_fixed@[t] == 0,
                decreases data_len - k,
            {
                data_fixed.set(k, data[k]);
                k = k + 1;
            }
            assert(data_fixed@ =~= zero_padded(initial));
            Self::decode_file_data(data_fixed.as_mut_slice(), file_type, cycle);

            // Copy the decoded bytes back.
            let mut k: usize = 0;
            while k < data_len
                invariant
                    k <= data_len,
                    data_len == data.len(),
                    data_len < ideal_size,
                    data_fixed@.len() == ideal_size,
                    data@.len() == initial.len(),
                    forall|t: int| 0 <= t < k ==> #[trigger] data@[t] == data_fixed@[t],
                decreases data_len - k,
            {
                data.set(k, data_fixed[k]);
                k = k + 1;
            }
            assert(data@ =~= legacy_decrypted(initial, file_type, cycle as int));
        } else {
            Self::decode_file_data(data.as_mut_slice(), file_type, cycle);
            assert(zero_padded(initial) =~= initial);
            assert(data@ =~= legacy_decrypted(initial, file_type, cycle as int));
        }
    }

    /// Decodes every complete block of `data` in place. A trailing partial
    /// block is left as it is; it cannot be one that is DES-decoded or
    /// scrambled, as those are read whole.
    #[verifier::spinoff_prover]
    #[verifier::rlimit(40)]
    pub fn decode_file_data(data: &mut [u8], file_type: bool, cycle: usize)
        requires
            old(data)@.len() % 8 == 0 || ({
                let tail = (old(data)@.len() / 8) as int;
                let c = encryption_cycle(cycle as int);
                !is_legacy_des_block(tail, file_type, c) && !is_legacy_scrambled_block(tail, file_type, c)
            }),
            cycle + 15 <= usize::MAX,
        ensures
            final(data)@ == legacy_decoded(old(data)@, file_type, encryption_cycle(cycle as int)),
    {
        let ghost initial = data@;
        let mut cnt: usize = 0;
        let mut offset: usize = 0;
        let length = data.len();

        let cycle = if cycle < 3 {
            3
        } else if cycle < 5 {
            cycle + 1
        } else if cycle < 7 {
            cycle + 9
        } else {
            cycle + 15
        };
        let ghost c = cycle as int;

        let mut lop: usize = 0;
        while lop * 8 < length && length - lop * 8 >= 8
            invariant
                length == data.len(),
                length == initial.len(),
                c == cycle,
                cycle >= 3,
                offset == lop * 8,
                offset <= length,
                data@.len() == initial.len(),
                cnt == plain_counter(plain_blocks_before(lop as int, file_type, c), file_type),
                0 <= plain_blocks_before(lop as int, file_type, c) <= lop,
                forall|i: int| 0 <= i < offset ==> #[trigger] data@[i] == legacy_decoded(initial, file_type, c)[i],
                forall|i: int| offset <= i < length ==> #[trigger] data@[i] == initial[i],
            decreases length - offset,
        {
            let ghost before = data@;
            assert(before.subrange(offset as int, offset + 8) =~= block_at(initial, lop as int));
            let ghost m = plain_blocks_before(lop as int, file_type, c);
            assert(plain_blocks_before(lop + 1, file_type, c) == m + if is_legacy_des_block(lop as int, file_type, c) {
                0int
            } else {
                1int
            });
            if lop < 20 || (!file_type && lop % cycle == 0) {
                Self::des_decode_block(data, offset);
            } else {
                if cnt == 7 && !file_type {
                    let mut tmp = [0u8; 8];
                    let mut k: usize = 0;
                    while k < 8
                        invariant
                            k <= 8,
                            offset + 8 <= data@.len(),
                            data@ == before,
                            forall|t: int| 0 <= t < k ==> #[trigger] tmp@[t] == before[offset + t],
                        decreases 8 - k,
                    {
                        tmp[k] = data[offset + k];
                        k = k + 1;
                    }
                    cnt = 0;

                    data[offset] = tmp[3];
                    data[offset + 1] = tmp[4];
                    data[offset + 2] = tmp[6];
                    data[offset + 3] = tmp[0];
                    data[offset + 4] = tmp[1];
                    data[offset + 5] = tmp[2];
                    data[offset + 6] = tmp[5];

                    let a = match tmp[7] {
                        0x00 => 0x2b,
                        0x2b => 0x00,
                        0x01 => 0x68,
                        0x68 => 0x01,
                        0x48 => 0x77,
                        0x77 => 0x48,
                        0x60 => 0xff,
                        0xff => 0x60,
                        0x6c => 0x80,
                        0x80 => 0x6c,
                        0xb9 => 0xc0,
                        0xc0 => 0xb9,
                        0xeb => 0xfe,
                        0xfe => 0xeb,
                        x => x,
                    };
                    data[offset + 7] = a;
                    assert(a == unscramble_byte(tmp@[7]));
                    assert(data@.subrange(offset as int, offset + 8) =~= unscrambled(before.subrange(offset as int, offset + 8)));
                }
                cnt = cnt + 1;
            }
            assert forall|i: int| offset <= i < offset + 8 implies #[trigger] data@[i] == legacy_decoded(
                initial,
                file_type,
                c,
            )[i] by {
                assert(i / 8 == lop);
                assert(i % 8 == i - offset);
                assert(data@[i] == data@.subrange(offset as int, offset + 8)[i - offset]);
            }
            offset = offset + 8;
            lop = lop + 1;
        }
        assert(offset == 8 * (length / 8));
        assert(data@ =~= legacy_decoded(initial, file_type, c));
    }

    /// Decodes the eight bytes of `src` at `offset` in place with the
    /// client's single-round DES; the rest of `src` is left as it is.
    pub fn des_decode_block(src: &mut [u8], offset: usize)
        requires
            offset + 8 <= old(src)@.len(),
        ensures
            final(src)@.len() == old(src)@.len(),
            final(src)@.subrange(offset as int, offset + 8) == be_bytes(
                des_decode(be_u64(old(src)@.subrange(offset as int, offset + 8))),
            ),
            forall|k: int|
                0 <= k < old(src)@.len() && !(offset <= k < offset + 8) ==> #[trigger] final(src)@[k] == old(src)@[k],
    {
        let ghost initial = src@;
        let mut block = [0u8; 8];
        let mut k: usize = 0;
        while k < 8
            invariant
                k <= 8,
                offset + 8 <= src@.len(),
                src@ == initial,
                forall|t: int| 0 <= t < k ==> #[trigger] block@[t] == src@[offset + t],
            decreases 8 - k,
        {
            block[k] = src[offset + k];
            k = k + 1;
        }
        let ghost x = be_u64(block@);
        assert(block@ =~= initial.subrange(offset as int, offset + 8));

        Self::ip(&mut block);
        let ghost y = be_u64(block@);
        Self::round_function(&mut block);
        let ghost z = be_u64(block@);
        Self::fp(&mut block);
        proof {
            lemma_decode_steps(x, y, z, be_u64(block@));
            lemma_be_bytes_of_be_u64(block@);
        }

        let mut k: usize = 0;
        while k < 8
            invariant
                k <= 8,
                src@.len() == initial.len(),
                offset + 8 <= src.len(),
                forall|t: int| 0 <= t < k ==> #[trigger] src@[offset + t] == block@[t],
                forall|t: int|
                    0 <= t < initial.len() && !(offset <= t < offset + k) ==> #[trigger] src@[t] == initial[t],
            decreases 8 - k,
        {
            src[offset + k] = block[k];
            k = k + 1;
        }
        assert(src@.subrange(offset as int, offset + 8) =~= block@);
    }

    /// The DES round function with a zero key: the right half (bytes 4 to 7)
    /// is expanded, run through the S-boxes and the P permutation, and the
    /// result is mixed into the left half (bytes 0 to 3).
    pub fn round_function(src: &mut [u8; 8])
        ensures
            be_u64(final(src)@) == round_mix(be_u64(old(src)@)),
            final(src)@.subrange(4, 8) == old(src)@.subrange(4, 8),
    {
        let ghost x = be_u64(src@);
        let ghost e = permute_bits(x << 32u64, E_TABLE@, 48) ^ 0u64;
        let mut block = [0u8; 8];

        block[0] = ((src[7] << 5) | (src[4] >> 3)) & 0x3f;
        block[1] = ((src[4] << 1) | (src[5] >> 7)) & 0x3f;
        block[2] = ((src[4] << 5) | (src[5] >> 3)) & 0x3f;
        block[3] = ((src[5] << 1) | (src[6] >> 7)) & 0x3f;
        block[4] = ((src[5] << 5) | (src[6] >> 3)) & 0x3f;
        block[5] = ((src[6] << 1) | (src[7] >> 7)) & 0x3f;
        block[6] = ((src[6] << 5) | (src[7] >> 3)) & 0x3f;
        block[7] = ((src[7] << 1) | (src[4] >> 7)) & 0x3f;

        let ghost groups = block@;
        proof {
            lemma_groups(src@, groups);
        }

        let mut i: usize = 0;
        while i < 4
            invariant
                i <= 4,
                groups.len() == 8,
                forall|k: int| 0 <= k < 8 ==> #[trigger] groups[k] < 64,
                forall|k: int| i <= k < 8 ==> #[trigger] block@[k] == groups[k],
                forall|k: int|
                    0 <= k < i ==> #[trigger] block@[k] == (S_TABLE@[k]@[groups[2 * k] as int] & 0xf0) | (S_TABLE@[k]@[
                        groups[2 * k + 1] as int
                    ] & 0x0f),
            decreases 4 - i,
        {
            block[i] = (S_TABLE[i][block[i * 2] as usize] & 0xf0) | (S_TABLE[i][block[i * 2 + 1] as usize] & 0x0f);
            i = i + 1;
        }

        block[4] = 0;
        block[5] = 0;
        block[6] = 0;
        block[7] = 0;

        let ghost snap = block@;
        let ghost sout = be_u64(snap);
        proof {
            lemma_sbox_stage(x, groups, snap);
            lemma_permutation_tables_in_range();
        }

        let mut i: usize = 0;
        while i < 32
            invariant
                i <= 32,
                snap.len() == 8,
                sout == be_u64(snap),
                forall|k: int| 0 <= k < 32 ==> 1 <= #[trigger] P_TABLE@[k] <= 32,
                forall|k: int| 0 <= k < 4 ==> #[trigger] block@[k] == snap[k],
                i == 0 ==> be_u64(block@) == sout,
                i > 0 ==> be_u64(block@) == sout | (permute_bits(sout, P_TABLE@, i as nat) >> 32u64),
            decreases 32 - i,
        {
            let j = (P_TABLE[i] - 1) as u64;
            let p = i as u64;
            proof {
                lemma_index_bits(j);
                lemma_source_byte(j);
                lemma_dest_byte(p);
                lemma_index_bits(p);
            }
            let hit = (block[(j >> 3) as usize] & MASK[(j & 7) as usize]) != 0;
            proof {
                lemma_permute_step(sout, snap, P_TABLE@, p, 32, sout, block@, hit);
            }
            if hit {
                let k = ((p >> 3) + 4) as usize;
                block[k] = block[k] | MASK[(p & 7) as usize];
            }
            i = i + 1;
        }

        let ghost before = src@;
        proof {
            lemma_pbox_closed(sout);
            lemma_pbox_closed_high(sout);
            lemma_mix_left(
                before[0], before[1], before[2], before[3], before[4], before[5], before[6], before[7],
                block[0], block[1], block[2], block[3], block[4], block[5], block[6], block[7],
                sout, permute_bits(sout, P_TABLE@, 32),
            );
        }

        let mut i: usize = 0;
        while i < 4
            invariant
                i <= 4,
                before.len() == 8,
                forall|k: int| 0 <= k < i ==> #[trigger] src@[k] == before[k] ^ block@[k + 4],
                forall|k: int| i <= k < 8 ==> #[trigger] src@[k] == before[k],
            decreases 4 - i,
        {
            src[i] = src[i] ^ block[i + 4];
            i = i + 1;
        }
        assert(src@[0] == before[0] ^ block@[4]);
        assert(src@[1] == before[1] ^ block@[5]);
        assert(src@[2] == before[2] ^ block@[6]);
        assert(src@[3] == before[3] ^ block@[7]);
        assert(src@[4] == before[4]);
        assert(src@[5] == before[5]);
        assert(src@[6] == before[6]);
        assert(src@[7] == before[7]);
        assert(src@.subrange(4, 8) =~= before.subrange(4, 8));
    }

    /// The final permutation of the block.
    pub fn fp(src: &mut [u8; 8])
        ensures
            be_u64(final(src)@) == permute_bits(be_u64(old(src)@), FP_TABLE@, 64),
    {
        let ghost x = be_u64(src@);
        let mut block = [0u8; 8];
        let mut i: usize = 0;
        proof {
            lemma_permutation_tables_in_range();
            lemma_zero_base(0);
        }

        while i < 64
            invariant
                i <= 64,
                x == be_u64(src@),
                forall|k: int| 0 <= k < 64 ==> 1 <= #[trigger] FP_TABLE@[k] <= 64,
                i == 0 ==> be_u64(block@) == 0,
                i > 0 ==> be_u64(block@) == 0u64 | (permute_bits(x, FP_TABLE@, i as nat) >> 0u64),
            decreases 64 - i,
        {
            let j = (FP_TABLE[i] - 1) as u64;
            let p = i as u64;
            proof {
                lemma_index_bits(j);
            }
            let hit = (src[((j >> 3) & 7) as usize] & MASK[(j & 7) as usize]) != 0;
            proof {
                lemma_index_bits(p);
                lemma_permute_step(x, src@, FP_TABLE@, p, 0, 0, block@, hit);
            }
            if hit {
                let k = ((p >> 3) & 7) as usize;
                block[k] = block[k] | MASK[(p & 7) as usize];
            }
            i = i + 1;
        }

        proof {
            lemma_zero_base(permute_bits(x, FP_TABLE@, 64));
        }
        *src = block;
    }

    /// The initial permutation of the block.
    pub fn ip(src: &mut [u8; 8])
        ensures
            be_u64(final(src)@) == permute_bits(be_u64(old(src)@), IP_TABLE@, 64),
    {
        let ghost x = be_u64(src@);
        let mut block = [0u8; 8];
        let mut i: usize = 0;
        proof {
            lemma_permutation_tables_in_range();
            lemma_zero_base(0);
        }

        while i < 64
            invariant
                i <= 64,
                x == be_u64(src@),
                forall|k: int| 0 <= k < 64 ==> 1 <= #[trigger] IP_TABLE@[k] <= 64,
                i == 0 ==> be_u64(block@) == 0,
                i > 0 ==> be_u64(block@) == 0u64 | (permute_bits(x, IP_TABLE@, i as nat) >> 0u64),
            decreases 64 - i,
        {
            let j = (IP_TABLE[i] - 1) as u64;
            let p = i as u64;
            proof {
                lemma_index_bits(j);
            }
            let hit = (src[((j >> 3) & 7) as usize] & MASK[(j & 7) as usize]) != 0;
            proof {
                lemma_index_bits(p);
                lemma_permute_step(x, src@, IP_TABLE@, p, 0, 0, block@, hit);
            }
            if hit {
                let k = ((p >> 3) & 7) as usize;
                block[k] = block[k] | MASK[(p & 7) as usize];
            }
            i = i + 1;
        }

        proof {
            lemma_zero_base(permute_bits(x, IP_TABLE@, 64));
        }
        *src = block;
    }
}


/// What one round does to a block read big-endian: the round function of the
/// right half is mixed into the left half.
pub open spec fn round_mix(x: u64) -> u64 {
    x ^ des_f(x << 32u64, 0)
}

/// The round leaves the right half as it is, so running it twice gives the
/// block back.
pub proof fn lemma_round_function_twice(x: u64)
    ensures
        round_mix(round_mix(x)) == x,
{
    let f = des_f(x << 32u64, 0);
    lemma_des_f_upper(x << 32u64, 0);
    assert((x ^ f) << 32u64 == x << 32u64) by (bit_vector)
        requires
            f & 0xFFFF_FFFF == 0,
    ;
    assert((x ^ f) ^ f == x) by (bit_vector);
}

/// Running the round function on a block and then on what it gave restores
/// the block's bytes.
pub proof fn lemma_round_function_restores(block: Seq<u8>, once: Seq<u8>, twice: Seq<u8>)
    requires
        block.len() == 8,
        twice.len() == 8,
        be_u64(once) == round_mix(be_u64(block)),
        be_u64(twice) == round_mix(be_u64(once)),
    ensures
        twice == block,
{
    lemma_round_function_twice(be_u64(block));
    lemma_be_bytes_of_be_u64(block);
    lemma_be_bytes_of_be_u64(twice);
}

/// The final permutation of a block after its initial permutation, and the
/// other way around, restore the block's bytes.
pub proof fn lemma_permutations_restore(block: Seq<u8>, once: Seq<u8>, twice: Seq<u8>, first: Seq<u8>, second: Seq<u8>)
    requires
        block.len() == 8,
        twice.len() == 8,
        second.len() == 8,
        be_u64(once) == permute_bits(be_u64(block), IP_TABLE@, 64),
        be_u64(twice) == permute_bits(be_u64(once), FP_TABLE@, 64),
        be_u64(first) == permute_bits(be_u64(block), FP_TABLE@, 64),
        be_u64(second) == permute_bits(be_u64(first), IP_TABLE@, 64),
    ensures
        twice == block,
        second == block,
{
    lemma_fp_inverts_ip(be_u64(block));
    lemma_be_bytes_of_be_u64(block);
    lemma_be_bytes_of_be_u64(twice);
    lemma_be_bytes_of_be_u64(second);
}

proof fn lemma_plain_blocks_agree(n: int, header_only: bool, mix_cycle: int, legacy_cycle: int)
    requires
        header_only || mix_cycle == encryption_cycle(legacy_cycle),
    ensures
        is_des_block(n, header_only, mix_cycle) == is_legacy_des_block(n, header_only, encryption_cycle(legacy_cycle)),
        mixcrypt_plain_blocks_before(n, header_only, mix_cycle) == plain_blocks_before(
            n,
            header_only,
            encryption_cycle(legacy_cycle),
        ),
    decreases n,
{
    if n > 0 {
        lemma_plain_blocks_agree(n - 1, header_only, mix_cycle, legacy_cycle);
    }
}

/// The two block loops agree: on every complete block, the mixed scheme's
/// loop (with the cycle the other derives from the same digit count, or with
/// only the header encrypted) gives what this one gives: the DES blocks are
/// the same, and so are the scrambled ones, every seventh block that is not
/// DES-encrypted.
pub proof fn lemma_block_decryptions_agree(data: Seq<u8>, header_only: bool, mix_cycle: int, legacy_cycle: int)
    requires
        header_only || mix_cycle == encryption_cycle(legacy_cycle),
    ensures
        decrypted_blocks(data, header_only, mix_cycle) == legacy_decoded(
            data,
            header_only,
            encryption_cycle(legacy_cycle),
        ),
{
    let mixed = decrypted_blocks(data, header_only, mix_cycle);
    let legacy = legacy_decoded(data, header_only, encryption_cycle(legacy_cycle));
    assert forall|i: int| 0 <= i < data.len() implies mixed[i] == legacy[i] by {
        lemma_plain_blocks_agree(i / 8, header_only, mix_cycle, legacy_cycle);
    }
    assert(mixed =~= legacy);
}

/// The two file decryptions agree: with only the header encrypted on any
/// data, and with the mixed scheme (given the cycle it derives from the same
/// digit count) on data that is a whole number of blocks. They part only on a
/// trailing partial block of the mixed scheme whose number makes it a
/// scrambled block, which this one scrambles with its zero padding and the
/// other leaves as it is.
pub proof fn lemma_decryptions_agree(data: Seq<u8>, header_only: bool, mix_cycle: int, legacy_cycle: int)
    requires
        header_only || (data.len() % 8 == 0 && mix_cycle == encryption_cycle(legacy_cycle)),
    ensures
        decrypted_data(data, header_only, mix_cycle) == legacy_decrypted(data, header_only, legacy_cycle),
{
    let full: int = (8 * (data.len() / 8)) as int;
    let padded = data.subrange(full, data.len() as int) + Seq::new((8 - (data.len() - full)) as nat, |i: int| 0u8);
    let zp = zero_padded(data);
    let cycle = encryption_cycle(legacy_cycle);
    let mixed = decrypted_data(data, header_only, mix_cycle);
    let legacy = legacy_decrypted(data, header_only, legacy_cycle);
    assert(zp.len() == full + if data.len() % 8 == 0 { 0int } else { 8int });
    assert forall|i: int| 0 <= i < data.len() implies mixed[i] == legacy[i] by {
        let n = i / 8;
        lemma_plain_blocks_agree(n, header_only, mix_cycle, legacy_cycle);
        assert(i < 8 * (zp.len() / 8));
        if i < full {
            assert(block_at(zp, n) =~= block_at(data, n));
        } else {
            assert(n == full / 8);
            assert(block_at(zp, n) =~= padded);
            assert(i % 8 == i - full);
        }
    }
    assert(mixed =~= legacy);
}

} // verus!
