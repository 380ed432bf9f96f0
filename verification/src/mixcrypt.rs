//! The mixcrypt scheme used by the game client to obscure archive files.

use vstd::prelude::*;

use crate::archive::FileTableRow;
use crate::des::{be8, be_bytes, be_u64, des_decode, des_f};

pub mod des;

verus! {

/// File uses a mixed crypto (Simple DES + Shuffle):
/// - Encrypts the first 0x14 blocks
/// - Encrypts blocks at interval N, where N equals the digit count of initial
///   compressed size
/// - For every 7th non-encrypted block: shuffles and modifies the byte values
pub const GRF_FLAG_FULL_MIX_CRYPT: u8 = 1 << 1;

/// Only the first 0x14 compressed blocks are encrypted with DES.
pub const GRF_FLAG_HEADER_DES_CRYPT: u8 = 1 << 2;

/// First 0x14 blocks are always encrypted.
pub const HEADER_BLOCKS_SIZE: usize = 0x14;

pub const BLOCK_SIZE: usize = 8;

/// The cycle length of the mixed scheme for a compressed size of `digit`
/// decimal digits.
pub open spec fn encryption_cycle(digit: int) -> int {
    if digit < 3 {
        3
    } else if digit < 5 {
        digit + 1
    } else if digit < 7 {
        digit + 9
    } else {
        digit + 15
    }
}

/// The scheme a file is encrypted with: `Some((only_header_is_encrypted,
/// cycle_length))`, or `None` for a plain file. The mixed scheme wins when
/// both flags are set.
pub open spec fn encryption_scheme(flags: u8, compressed_size: u32) -> Option<(bool, usize)> {
    if flags & GRF_FLAG_FULL_MIX_CRYPT != 0 {
        Some((false, encryption_cycle(decimal_digits(compressed_size as nat) as int) as usize))
    } else if flags & GRF_FLAG_HEADER_DES_CRYPT != 0 {
        Some((true, 0))
    } else {
        None
    }
}

/// Whether block `n` is DES-encrypted.
pub open spec fn is_des_block(n: int, only_header_is_encrypted: bool, cycle: int) -> bool {
    n < HEADER_BLOCKS_SIZE || (!only_header_is_encrypted && (if cycle == 0 { n == 0 } else { n % cycle == 0 }))
}

/// The first twenty blocks are always DES-encrypted. With only the header
/// encrypted no later block is; with the mixed scheme a later block is
/// exactly where its number is a multiple of the cycle.
pub proof fn lemma_des_blocks(n: int, cycle: int)
    requires
        0 <= n,
        cycle > 0,
    ensures
        n < 20 ==> is_des_block(n, true, cycle) && is_des_block(n, false, cycle),
        n >= 20 ==> !is_des_block(n, true, cycle),
        n >= 20 ==> (is_des_block(n, false, cycle) <==> n % cycle == 0),
{
}

/// How many of the blocks before block `n` are not DES-encrypted.
pub open spec fn plain_blocks_before(n: int, only_header_is_encrypted: bool, cycle: int) -> int
    decreases n,
{
    if n <= 0 {
        0
    } else {
        plain_blocks_before(n - 1, only_header_is_encrypted, cycle) + if is_des_block(
            n - 1,
            only_header_is_encrypted,
            cycle,
        ) {
            0int
        } else {
            1int
        }
    }
}

/// Whether the scramble applies to a block that is not DES-encrypted and
/// has `plain_before` such blocks before it: with the mixed scheme, every
/// seventh one after the first.
pub open spec fn scrambles(plain_before: int, only_header_is_encrypted: bool) -> bool {
    !only_header_is_encrypted && plain_before > 0 && plain_before % 7 == 0
}

/// Whether block `n` is scrambled: it is not DES-encrypted and is every
/// seventh such block, counted from the first one (which is not).
pub open spec fn is_scrambled_block(n: int, only_header_is_encrypted: bool, cycle: int) -> bool {
    !is_des_block(n, only_header_is_encrypted, cycle) && scrambles(
        plain_blocks_before(n, only_header_is_encrypted, cycle),
        only_header_is_encrypted,
    )
}

/// The substitution applied to the last byte of a scrambled block; it swaps
/// seven pairs of byte values and keeps the others.
pub open spec fn unscramble_byte(b: u8) -> u8 {
    if b == 0x00 {
        0x2B
    } else if b == 0x2B {
        0x00
    } else if b == 0x01 {
        0x68
    } else if b == 0x68 {
        0x01
    } else if b == 0x48 {
        0x77
    } else if b == 0x77 {
        0x48
    } else if b == 0x60 {
        0xFF
    } else if b == 0xFF {
        0x60
    } else if b == 0x6C {
        0x80
    } else if b == 0x80 {
        0x6C
    } else if b == 0xB9 {
        0xC0
    } else if b == 0xC0 {
        0xB9
    } else if b == 0xEB {
        0xFE
    } else if b == 0xFE {
        0xEB
    } else {
        b
    }
}

/// The substitution of the last byte of a scrambled block undoes itself.
pub proof fn lemma_unscramble_byte_involution(b: u8)
    ensures
        unscramble_byte(unscramble_byte(b)) == b,
{
}

/// The eight bytes of a scrambled block put back in order.
pub open spec fn unscrambled(block: Seq<u8>) -> Seq<u8> {
    seq![block[3], block[4], block[6], block[0], block[1], block[2], block[5], unscramble_byte(block[7])]
}

/// The seven pairs of byte values that the scramble of a block's last byte
/// swaps.
pub open spec fn scramble_pairs() -> Seq<(u8, u8)> {
    seq![(0x00u8, 0x2Bu8), (0x01, 0x68), (0x48, 0x77), (0x60, 0xFF), (0x6C, 0x80), (0xB9, 0xC0), (0xEB, 0xFE)]
}

/// The last byte of a scrambled block goes through a fixed substitution:
/// each of the seven pairs is swapped, and a byte in none of them is kept.
pub proof fn lemma_unscramble_byte_swaps_the_pairs(b: u8)
    ensures
        forall|i: int|
            0 <= i < 7 ==> unscramble_byte((#[trigger] scramble_pairs()[i]).0) == scramble_pairs()[i].1
                && unscramble_byte(scramble_pairs()[i].1) == scramble_pairs()[i].0,
        (forall|i: int| 0 <= i < 7 ==> b != (#[trigger] scramble_pairs()[i]).0 && b != scramble_pairs()[i].1)
            ==> unscramble_byte(b) == b,
{
    assert(scramble_pairs()[0] == (0x00u8, 0x2Bu8));
    assert(scramble_pairs()[1] == (0x01u8, 0x68u8));
    assert(scramble_pairs()[2] == (0x48u8, 0x77u8));
    assert(scramble_pairs()[3] == (0x60u8, 0xFFu8));
    assert(scramble_pairs()[4] == (0x6Cu8, 0x80u8));
    assert(scramble_pairs()[5] == (0xB9u8, 0xC0u8));
    assert(scramble_pairs()[6] == (0xEBu8, 0xFEu8));
    if forall|i: int| 0 <= i < 7 ==> b != (#[trigger] scramble_pairs()[i]).0 && b != scramble_pairs()[i].1 {
        assert(b != scramble_pairs()[0].0 && b != scramble_pairs()[0].1);
        assert(b != scramble_pairs()[1].0 && b != scramble_pairs()[1].1);
        assert(b != scramble_pairs()[2].0 && b != scramble_pairs()[2].1);
        assert(b != scramble_pairs()[3].0 && b != scramble_pairs()[3].1);
        assert(b != scramble_pairs()[4].0 && b != scramble_pairs()[4].1);
        assert(b != scramble_pairs()[5].0 && b != scramble_pairs()[5].1);
        assert(b != scramble_pairs()[6].0 && b != scramble_pairs()[6].1);
    }
}

/// Block `n` of the data after decryption.
pub open spec fn decrypted_block(block: Seq<u8>, n: int, only_header_is_encrypted: bool, cycle: int) -> Seq<u8> {
    if is_des_block(n, only_header_is_encrypted, cycle) {
        be_bytes(des_decode(be_u64(block)))
    } else if is_scrambled_block(n, only_header_is_encrypted, cycle) {
        unscrambled(block)
    } else {
        block
    }
}

/// Bytes `8n..8n + 8` of `data`.
pub open spec fn block_at(data: Seq<u8>, n: int) -> Seq<u8> {
    data.subrange(8 * n, 8 * n + 8)
}

/// The data with each complete block decrypted; a trailing partial block is
/// left as it is.
pub open spec fn decrypted_blocks(data: Seq<u8>, only_header_is_encrypted: bool, cycle: int) -> Seq<u8> {
    Seq::new(
        data.len(),
        |i: int|
            if i < 8 * (data.len() / 8) {
                decrypted_block(block_at(data, i / 8), i / 8, only_header_is_encrypted, cycle)[i % 8]
            } else {
                data[i]
            },
    )
}

/// The decrypted data: the complete blocks are decrypted by their number;
/// a trailing partial block is left as it is unless its number makes it a
/// DES block, in which case it is padded with zeros to a whole block,
/// DES-decoded, and cut back to its length.
pub open spec fn decrypted_data(data: Seq<u8>, only_header_is_encrypted: bool, cycle: int) -> Seq<u8> {
    let full: int = (8 * (data.len() / 8)) as int;
    let padded = data.subrange(full, data.len() as int) + Seq::new((8 - (data.len() - full)) as nat, |i: int| 0u8);
    let tail = if is_des_block(full / 8, only_header_is_encrypted, cycle) {
        be_bytes(des_decode(be_u64(padded)))
    } else {
        padded
    };
    Seq::new(
        data.len(),
        |i: int|
            if i < full {
                decrypted_blocks(data, only_header_is_encrypted, cycle)[i]
            } else {
                tail[i - full]
            },
    )
}

/// Number of decimal digits of `n`; zero is written with one digit.
pub open spec fn decimal_digits(n: nat) -> nat
    decreases n,
{
    if n < 10 {
        1
    } else {
        1 + decimal_digits(n / 10)
    }
}

/// A number has at most as many decimal digits as its value.
proof fn lemma_decimal_digits_bounded(n: nat)
    requires
        n >= 1,
    ensures
        decimal_digits(n) <= n,
    decreases n,
{
    if n >= 10 {
        lemma_decimal_digits_bounded(n / 10);
    }
}

pub open spec fn pow10(k: nat) -> nat
    decreases k,
{
    if k == 0 {
        1
    } else {
        10 * pow10((k - 1) as nat)
    }
}

/// A number below `10^k` has at most `k` decimal digits.
proof fn lemma_decimal_digits_below(n: nat, k: nat)
    requires
        k >= 1,
        n < pow10(k),
    ensures
        decimal_digits(n) <= k,
    decreases k,
{
    if n >= 10 {
        if k == 1 {
            assert(pow10(1) == 10 * pow10(0));
        } else {
            assert(pow10(k) == 10 * pow10((k - 1) as nat));
            lemma_decimal_digits_below(n / 10, (k - 1) as nat);
        }
    }
}

/// A number from `10^(k - 1)` up to below `10^k` has exactly `k` digits.
pub proof fn lemma_decimal_digits_exact(n: nat, k: nat)
    requires
        k >= 1,
        k == 1 || pow10((k - 1) as nat) <= n,
        n < pow10(k),
    ensures
        decimal_digits(n) == k,
    decreases k,
{
    if k == 1 {
        assert(pow10(1) == 10 * pow10(0));
    } else {
        assert(pow10(k) == 10 * pow10((k - 1) as nat));
        assert(pow10((k - 1) as nat) == 10 * pow10((k - 2) as nat));
        assert(pow10((k - 2) as nat) >= 1) by {
            lemma_pow10_positive((k - 2) as nat);
        }
        lemma_decimal_digits_exact(n / 10, (k - 1) as nat);
    }
}

pub proof fn lemma_pow10_positive(k: nat)
    ensures
        pow10(k) >= 1,
    decreases k,
{
    if k > 0 {
        lemma_pow10_positive((k - 1) as nat);
    }
}

/// A 32-bit size has at most ten decimal digits.
pub proof fn lemma_decimal_digits_u32(n: u32)
    ensures
        1 <= decimal_digits(n as nat) <= 10,
{
    reveal_with_fuel(pow10, 11);
    assert(pow10(10) == 10000000000);
    lemma_decimal_digits_below(n as nat, 10);
}

/// Count the number of digits in the compressed file size.
pub fn count_digits(size: u32) -> (digits: usize)
    ensures
        digits == decimal_digits(size as nat),
{
    let mut digits: usize = 0;
    let mut rest_size: u32 = size;

    while rest_size > 0
        invariant
            rest_size > 0 ==> digits + decimal_digits(rest_size as nat) == decimal_digits(size as nat),
            rest_size == 0 ==> digits == (if size == 0 { 0 } else { decimal_digits(size as nat) }),
            digits <= size,
            rest_size <= size,
        decreases rest_size,
    {
        proof {
            lemma_decimal_digits_bounded(rest_size as nat);
            lemma_decimal_digits_bounded(size as nat);
            assert(decimal_digits(rest_size as nat) >= 1);
            if rest_size >= 10 {
                assert(decimal_digits(rest_size as nat) == 1 + decimal_digits((rest_size / 10) as nat));
            }
        }
        rest_size = rest_size / 10;
        digits = digits + 1;
    }

    if digits < 1 {
        digits = 1;
    }

    digits
}

/// Swapping the halves after the round leaves `L ^ f(R)` on top and `R` below.
proof fn lemma_swap_round_halves(y: u64, f: u64)
    by (bit_vector)
    requires
        f & 0xFFFF_FFFF == 0,
    ensures
        des::rotate_left_spec((y << 32u64) | ((f ^ (y & 0xFFFF_FFFF_0000_0000u64)) >> 32u64), 32)
            == ((y & 0xFFFF_FFFF_0000_0000u64) ^ f) | ((y << 32u64) >> 32u64),
{
}

/// Decodes one 64-bit block (read big-endian from the archive) with the
/// client's single-round DES.
pub fn decode_des_block(block: u64) -> (decoded: u64)
    ensures
        decoded == des_decode(block),
{
    let mut block = block;
    block = des::ip(block);
    let ghost permuted = block;
    block = des::round(block, 0);
    proof {
        lemma_swap_round_halves(permuted, des_f(permuted << 32u64, 0));
    }
    // Gravity accidentally swapped the sides.
    block = des::rotate_left(block, 32);
    des::fp(block)
}

/// Transform digit count into encryption cycle length.
pub fn calculate_encryption_cycle(digit: usize) -> (cycle: usize)
    requires
        digit + 15 <= usize::MAX,
    ensures
        cycle == encryption_cycle(digit as int),
{
    if digit < 3 {
        3
    } else if digit < 5 {
        digit + 1
    } else if digit < 7 {
        digit + 9
    } else {
        digit + 15
    }
}

/// Determines the encryption scheme used for the file.
/// Returns `Some((only_header_is_encrypted, cycle_length))` if the file is
/// encrypted, `None` otherwise.
///
/// - only_header_is_encrypted: `true` if only first 0x14 blocks are encrypted
///   (GRF_FLAG_HEADER_DES_CRYPT) `false` if using mixed encryption scheme
///   (GRF_FLAG_FULL_MIX_CRYPT)
/// - cycle_length: for mixed encryption, determines interval of encrypted
///   blocks based on compressed file size digits.
pub fn determine_encryption_scheme(flags: u8, compressed_size: u32) -> (scheme: Option<(bool, usize)>)
    ensures
        scheme == encryption_scheme(flags, compressed_size),
{
    if flags & GRF_FLAG_FULL_MIX_CRYPT != 0 {
        let digits = count_digits(compressed_size);
        proof {
            lemma_decimal_digits_u32(compressed_size);
        }
        let cycle = calculate_encryption_cycle(digits);
        Some((false, cycle))
    } else if flags & GRF_FLAG_HEADER_DES_CRYPT != 0 {
        Some((true, 0))
    } else {
        None
    }
}

/// Whether block `block_number` is DES-encrypted.
pub fn should_apply_des(block_number: usize, only_header_is_encrypted: bool, cycle: usize) -> (des: bool)
    ensures
        des == is_des_block(block_number as int, only_header_is_encrypted, cycle as int),
{
    block_number < HEADER_BLOCKS_SIZE || (!only_header_is_encrypted && block_number.is_multiple_of(cycle))
}

/// Whether a block that is not DES-encrypted and has `plain_blocks` such
/// blocks before it is scrambled.
pub fn should_apply_scramble(plain_blocks: usize, only_header_is_encrypted: bool) -> (scramble: bool)
    ensures
        scramble == scrambles(plain_blocks as int, only_header_is_encrypted),
{
    !only_header_is_encrypted && plain_blocks > 0 && plain_blocks % 7 == 0
}

/// Reads the eight bytes at `offset` as a big-endian block.
fn read_block(data: &[u8], offset: usize) -> (block: u64)
    requires
        offset + 8 <= data@.len(),
    ensures
        block == be_u64(data@.subrange(offset as int, offset + 8)),
{
    ((data[offset] as u64) << 56u64) | ((data[offset + 1] as u64) << 48u64) | ((data[offset + 2] as u64) << 40u64)
        | ((data[offset + 3] as u64) << 32u64) | ((data[offset + 4] as u64) << 24u64) | ((data[offset + 5] as u64)
        << 16u64) | ((data[offset + 6] as u64) << 8u64) | (data[offset + 7] as u64)
}

/// Writes `block` big-endian into the eight bytes at `offset`.
fn write_block(data: &mut [u8], offset: usize, block: u64)
    requires
        offset + 8 <= old(data)@.len(),
    ensures
        final(data)@.len() == old(data)@.len(),
        final(data)@.subrange(offset as int, offset + 8) == be_bytes(block),
        forall|k: int|
            0 <= k < old(data)@.len() && !(offset <= k < offset + 8) ==> #[trigger] final(data)@[k] == old(data)@[k],
{
    data[offset] = (block >> 56u64) as u8;
    data[offset + 1] = (block >> 48u64) as u8;
    data[offset + 2] = (block >> 40u64) as u8;
    data[offset + 3] = (block >> 32u64) as u8;
    data[offset + 4] = (block >> 24u64) as u8;
    data[offset + 5] = (block >> 16u64) as u8;
    data[offset + 6] = (block >> 8u64) as u8;
    data[offset + 7] = block as u8;
    assert(data@.subrange(offset as int, offset + 8) =~= be_bytes(block));
}

/// Where the bytes of a scrambled block come from.
pub const SHUFFLE: [usize; 7] = [3, 4, 6, 0, 1, 2, 5];

/// Puts the eight bytes of the scrambled block at `offset` back in order.
fn scramble_block(block: &mut [u8], offset: usize)
    requires
        offset + 8 <= old(block)@.len(),
    ensures
        final(block)@.len() == old(block)@.len(),
        final(block)@.subrange(offset as int, offset + 8) == unscrambled(old(block)@.subrange(offset as int, offset + 8)),
        forall|k: int|
            0 <= k < old(block)@.len() && !(offset <= k < offset + 8) ==> #[trigger] final(block)@[k] == old(block)@[k],
{
    let ghost initial = block@;
    let mut block_copy = [0u8; BLOCK_SIZE];
    let mut k: usize = 0;
    while k < BLOCK_SIZE
        invariant
            k <= 8,
            offset + 8 <= block@.len(),
            block@ == initial,
            forall|t: int| 0 <= t < k ==> #[trigger] block_copy@[t] == initial[offset + t],
        decreases 8 - k,
    {
        block_copy[k] = block[offset + k];
        k = k + 1;
    }

    let mut index: usize = 0;
    while index < 7
        invariant
            index <= 7,
            offset + 8 <= block.len(),
            block@.len() == initial.len(),
            forall|t: int| 0 <= t < 8 ==> #[trigger] block_copy@[t] == initial[offset + t],
            forall|t: int| 0 <= t < index ==> #[trigger] block@[offset + t] == block_copy@[SHUFFLE@[t] as int],
            forall|t: int|
                0 <= t < initial.len() && !(offset <= t < offset + index) ==> #[trigger] block@[t] == initial[t],
        decreases 7 - index,
    {
        let position = SHUFFLE[index];
        assert(position < 8) by {
            assert(index == 0 || index == 1 || index == 2 || index == 3 || index == 4 || index == 5 || index == 6);
        }
        block[offset + index] = block_copy[position];
        index = index + 1;
    }

    block[offset + 7] = match block_copy[7] {
        0x00 => 0x2B,
        0x2B => 0x00,
        0x01 => 0x68,
        0x68 => 0x01,
        0x48 => 0x77,
        0x77 => 0x48,
        0x60 => 0xFF,
        0xFF => 0x60,
        0x6C => 0x80,
        0x80 => 0x6C,
        0xB9 => 0xC0,
        0xC0 => 0xB9,
        0xEB => 0xFE,
        0xFE => 0xEB,
        x => x,
    };
    assert(block@[offset + 0] == block_copy@[3]);
    assert(block@[offset + 1] == block_copy@[4]);
    assert(block@[offset + 2] == block_copy@[6]);
    assert(block@[offset + 3] == block_copy@[0]);
    assert(block@[offset + 4] == block_copy@[1]);
    assert(block@[offset + 5] == block_copy@[2]);
    assert(block@[offset + 6] == block_copy@[5]);
    assert(block@[offset + 7] == unscramble_byte(block_copy@[7]));
    assert(block@.subrange(offset as int, offset + 8) =~= unscrambled(initial.subrange(offset as int, offset + 8)));
}

/// Decrypts every complete block of `data` in place.
pub fn decrypt_data_blocks(data: &mut [u8], only_header_is_encrypted: bool, cycle: usize)
    ensures
        final(data)@ == decrypted_blocks(old(data)@, only_header_is_encrypted, cycle as int),
{
    let ghost initial = data@;
    let blocks = data.len() / BLOCK_SIZE;
    let mut block_number: usize = 0;
    let mut plain_blocks: usize = 0;

    while block_number < blocks
        invariant
            blocks == initial.len() / 8,
            blocks == data.len() / 8,
            block_number <= blocks,
            plain_blocks <= block_number,
            plain_blocks == plain_blocks_before(block_number as int, only_header_is_encrypted, cycle as int),
            data@.len() == initial.len(),
            forall|i: int|
                0 <= i < 8 * block_number ==> #[trigger] data@[i] == decrypted_blocks(
                    initial,
                    only_header_is_encrypted,
                    cycle as int,
                )[i],
            forall|i: int| 8 * block_number <= i < initial.len() ==> #[trigger] data@[i] == initial[i],
        decreases blocks - block_number,
    {
        let offset = block_number * BLOCK_SIZE;
        let ghost before = data@;
        assert(before.subrange(offset as int, offset + 8) =~= block_at(initial, block_number as int));
        assert(plain_blocks_before(block_number + 1, only_header_is_encrypted, cycle as int)
            == plain_blocks + if is_des_block(block_number as int, only_header_is_encrypted, cycle as int) {
            0int
        } else {
            1int
        });
        if should_apply_des(block_number, only_header_is_encrypted, cycle) {
            let block = read_block(data, offset);
            let block = decode_des_block(block);
            write_block(data, offset, block);
        } else {
            if should_apply_scramble(plain_blocks, only_header_is_encrypted) {
                scramble_block(data, offset);
            }
            plain_blocks = plain_blocks + 1;
        }
        assert forall|i: int| offset <= i < offset + 8 implies #[trigger] data@[i] == decrypted_blocks(
            initial,
            only_header_is_encrypted,
            cycle as int,
        )[i] by {
            assert(i / 8 == block_number);
            assert(i % 8 == i - offset);
            assert(data@[i] == data@.subrange(offset as int, offset + 8)[i - offset]);
        }
        block_number = block_number + 1;
    }

    assert(data@ =~= decrypted_blocks(initial, only_header_is_encrypted, cycle as int));
}

/// Decrypts `data` in place; a trailing partial block is DES-decoded as a
/// zero-padded block where its number makes it a DES block, and left as it
/// is otherwise.
pub fn decrypt_data(data: &mut [u8], only_header_is_encrypted: bool, cycle: usize)
    ensures
        final(data)@ == decrypted_data(old(data)@, only_header_is_encrypted, cycle as int),
{
    let ghost initial = data@;
    if data.len().is_multiple_of(BLOCK_SIZE) {
        decrypt_data_blocks(data, only_header_is_encrypted, cycle);
        assert(data@ =~= decrypted_data(initial, only_header_is_encrypted, cycle as int));
    } else {
        let data_length = data.len();
        let full_blocks_size = (data_length / BLOCK_SIZE) * BLOCK_SIZE;
        let remainder_size = data_length % BLOCK_SIZE;

        // Decrypt full blocks in-place; the trailing bytes are left as they are.
        if full_blocks_size > 0 {
            decrypt_data_blocks(data, only_header_is_encrypted, cycle);
        }
        let ghost after_blocks = data@;
        assert(forall|i: int| 0 <= i < full_blocks_size ==> #[trigger] after_blocks[i] == decrypted_blocks(
            initial,
            only_header_is_encrypted,
            cycle as int,
        )[i]);

        // Handle the last incomplete block.
        let mut last_block = [0u8; BLOCK_SIZE];
        let mut k: usize = 0;
        while k < remainder_size
            invariant
                k <= remainder_size,
                remainder_size < 8,
                full_blocks_size + remainder_size == data_length,
                data_length == data.len(),
                data@ == after_blocks,
                after_blocks.len() == initial.len(),
                forall|i: int| full_blocks_size <= i < initial.len() ==> #[trigger] after_blocks[i] == initial[i],
                forall|t: int| 0 <= t < k ==> #[trigger] last_block@[t] == initial[full_blocks_size + t],
                forall|t: int| k <= t < 8 ==> #[trigger] last_block@[t] == 0,
            decreases remainder_size - k,
        {
            last_block[k] = data[full_blocks_size + k];
            k = k + 1;
        }
        let ghost padded = last_block@;
        assert(padded =~= initial.subrange(full_blocks_size as int, initial.len() as int) + Seq::new(
            (8 - remainder_size) as nat,
            |i: int| 0u8,
        ));

        let ghost tail = if is_des_block(
            (full_blocks_size / 8) as int,
            only_header_is_encrypted,
            cycle as int,
        ) {
            be_bytes(des_decode(be_u64(padded)))
        } else {
            padded
        };
        if should_apply_des(full_blocks_size / BLOCK_SIZE, only_header_is_encrypted, cycle) {
            let block = read_block(&last_block, 0);
            assert(padded.subrange(0, 8) =~= padded);
            let block = decode_des_block(block);
            write_block(&mut last_block, 0, block);
            assert(last_block@ =~= last_block@.subrange(0, 8));
        }
        assert forall|t: int| 0 <= t < 8 implies #[trigger] last_block@[t] == tail[t] by {}

        let mut k: usize = 0;
        while k < remainder_size
            invariant
                k <= remainder_size,
                remainder_size < 8,
                full_blocks_size + remainder_size == data_length,
                data_length == data.len(),
                data@.len() == initial.len(),
                forall|t: int| 0 <= t < 8 ==> #[trigger] last_block@[t] == tail[t],
                forall|i: int| 0 <= i < full_blocks_size ==> #[trigger] data@[i] == after_blocks[i],
                forall|t: int| 0 <= t < k ==> #[trigger] data@[full_blocks_size + t] == tail[t],
            decreases remainder_size - k,
        {
            data[full_blocks_size + k] = last_block[k];
            k = k + 1;
        }
        assert forall|i: int| 0 <= i < initial.len() implies #[trigger] data@[i] == decrypted_data(
            initial,
            only_header_is_encrypted,
            cycle as int,
        )[i] by {
            if i >= full_blocks_size {
                assert(data@[full_blocks_size + (i - full_blocks_size)] == tail[i - full_blocks_size]);
            }
        }
        assert(data@ =~= decrypted_data(initial, only_header_is_encrypted, cycle as int));
    }
}

/// Decrypts a file using the appropriate decryption method.
pub fn decrypt_file(file_information: &FileTableRow, data: &mut [u8])
    ensures
        final(data)@ == match encryption_scheme(file_information.flags, file_information.compressed_size) {
            Some((only_header_is_encrypted, cycle)) => decrypted_data(old(data)@, only_header_is_encrypted, cycle as int),
            None => old(data)@,
        },
{
    if let Some((is_limited_crypt, cycle)) = determine_encryption_scheme(
        file_information.flags,
        file_information.compressed_size,
    ) {
        decrypt_data(data, is_limited_crypt, cycle);
    }
}

/// A scrambled block of the decrypted data: its first seven bytes are bytes
/// 3, 4, 6, 0, 1, 2 and 5 of the stored block, and its last byte is the stored
/// last byte swapped through the seven pairs.
pub proof fn lemma_scrambled_block_bytes(data: Seq<u8>, n: int, only_header_is_encrypted: bool, cycle: int)
    requires
        0 <= n,
        8 * n + 8 <= data.len(),
        is_scrambled_block(n, only_header_is_encrypted, cycle),
    ensures
        ({
            let out = decrypted_blocks(data, only_header_is_encrypted, cycle);
            let order = seq![3int, 4, 6, 0, 1, 2, 5];
            &&& forall|k: int| 0 <= k < 7 ==> out[8 * n + k] == data[8 * n + #[trigger] order[k]]
            &&& forall|i: int| 0 <= i < 7 ==> (data[8 * n + 7] == (#[trigger] scramble_pairs()[i]).0 ==> out[8 * n + 7]
                == scramble_pairs()[i].1) && (data[8 * n + 7] == scramble_pairs()[i].1 ==> out[8 * n + 7]
                == scramble_pairs()[i].0)
            &&& (forall|i: int| 0 <= i < 7 ==> data[8 * n + 7] != (#[trigger] scramble_pairs()[i]).0 && data[8 * n + 7]
                != scramble_pairs()[i].1) ==> out[8 * n + 7] == data[8 * n + 7]
        }),
{
    let out = decrypted_blocks(data, only_header_is_encrypted, cycle);
    let block = block_at(data, n);
    lemma_unscramble_byte_swaps_the_pairs(data[8 * n + 7]);
    assert forall|k: int| 0 <= k < 8 implies #[trigger] out[8 * n + k] == unscrambled(block)[k] by {
        assert((8 * n + k) / 8 == n);
        assert((8 * n + k) % 8 == k);
        assert(8 * n + k < 8 * (data.len() / 8));
    }
    assert(out[8 * n + 7] == unscrambled(block)[7]);
}

} // verus!
