use korangar::archive::FileTableRow;
use korangar::mixcrypt::{
    calculate_encryption_cycle, count_digits, decode_des_block, decrypt_file, determine_encryption_scheme, should_apply_des,
    should_apply_scramble, GRF_FLAG_FULL_MIX_CRYPT, GRF_FLAG_HEADER_DES_CRYPT,
};

fn row(flags: u8, compressed_size: u32) -> FileTableRow {
    FileTableRow {
        file_name: String::from("data\\test.txt"),
        compressed_size,
        compressed_size_aligned: compressed_size,
        uncompressed_size: compressed_size,
        flags,
        offset: 0,
    }
}

#[test]
fn test_decode_des_block() {
    let input: u64 = u64::MAX - 123456789;
    let expected: u64 = 12316197016309868543;

    let result = decode_des_block(input);

    assert_eq!(
        result, expected,
        "DES decoding failed! Expected: {:016X}, got: {:016X}",
        expected, result
    );
}

#[test]
fn decoding_a_block_twice_gives_it_back() {
    for block in [0u64, 1, 0x0123_4567_89AB_CDEF, u64::MAX, u64::MAX - 123456789] {
        assert_eq!(decode_des_block(decode_des_block(block)), block);
    }
}

#[test]
fn digits_are_counted_in_decimal() {
    assert_eq!(count_digits(0), 1);
    assert_eq!(count_digits(9), 1);
    assert_eq!(count_digits(10), 2);
    assert_eq!(count_digits(99_999), 5);
    assert_eq!(count_digits(100_000), 6);
    assert_eq!(count_digits(u32::MAX), 10);
}

#[test]
fn encryption_cycle_grows_with_the_digit_count() {
    assert_eq!(calculate_encryption_cycle(1), 3);
    assert_eq!(calculate_encryption_cycle(2), 3);
    assert_eq!(calculate_encryption_cycle(3), 4);
    assert_eq!(calculate_encryption_cycle(4), 5);
    assert_eq!(calculate_encryption_cycle(5), 14);
    assert_eq!(calculate_encryption_cycle(6), 15);
    assert_eq!(calculate_encryption_cycle(7), 22);
    assert_eq!(calculate_encryption_cycle(10), 25);
}

#[test]
fn the_mixed_scheme_wins_over_the_header_scheme() {
    assert_eq!(determine_encryption_scheme(0, 100), None);
    assert_eq!(determine_encryption_scheme(GRF_FLAG_HEADER_DES_CRYPT, 100), Some((true, 0)));
    assert_eq!(determine_encryption_scheme(GRF_FLAG_FULL_MIX_CRYPT, 100), Some((false, 4)));
    assert_eq!(
        determine_encryption_scheme(GRF_FLAG_FULL_MIX_CRYPT | GRF_FLAG_HEADER_DES_CRYPT, 1234567),
        Some((false, 22))
    );
}

#[test]
fn des_and_scramble_blocks_follow_the_cycle() {
    assert!(should_apply_des(0, true, 0));
    assert!(should_apply_des(19, true, 0));
    assert!(!should_apply_des(20, true, 0));
    assert!(should_apply_des(21, false, 7));
    assert!(!should_apply_des(22, false, 7));
    assert!(!should_apply_scramble(0, false));
    assert!(should_apply_scramble(7, false));
    assert!(should_apply_scramble(14, false));
    assert!(!should_apply_scramble(8, false));
    assert!(!should_apply_scramble(7, true));
}

#[test]
fn plain_files_are_left_alone() {
    let mut data: Vec<u8> = (0..40).collect();
    let before = data.clone();
    decrypt_file(&row(1, 40), &mut data);
    assert_eq!(data, before);
}

#[test]
fn header_blocks_are_des_decoded() {
    let mut data: Vec<u8> = (0..24u8).map(|b| b.wrapping_mul(37)).collect();
    let before = data.clone();
    decrypt_file(&row(GRF_FLAG_HEADER_DES_CRYPT, 24), &mut data);
    for block in 0..3 {
        let mut bytes = [0u8; 8];
        bytes.copy_from_slice(&before[block * 8..block * 8 + 8]);
        let decoded = decode_des_block(u64::from_be_bytes(bytes)).to_be_bytes();
        assert_eq!(&data[block * 8..block * 8 + 8], &decoded);
    }
}

#[test]
fn mixed_scheme_scrambles_every_seventh_plain_block() {
    // 32 blocks; compressed size 100 has 3 digits, so the cycle is 4. The
    // blocks from 20 on that are not multiples of 4 are plain: 21, 22, 23, 25,
    // 26, 27, 29, 30, 31. Block 30 has seven plain blocks before it.
    let mut data: Vec<u8> = (0..=255u8).collect();
    let before = data.clone();
    decrypt_file(&row(GRF_FLAG_FULL_MIX_CRYPT, 100), &mut data);
    let initial = &before[30 * 8..31 * 8];
    let block = &data[30 * 8..31 * 8];
    assert_eq!(
        &block[..7],
        &[initial[3], initial[4], initial[6], initial[0], initial[1], initial[2], initial[5]]
    );
    // Blocks 21, 23 and 29 are neither DES-encrypted nor scrambled.
    assert_eq!(&data[21 * 8..22 * 8], &before[21 * 8..22 * 8]);
    assert_eq!(&data[23 * 8..24 * 8], &before[23 * 8..24 * 8]);
    assert_eq!(&data[29 * 8..30 * 8], &before[29 * 8..30 * 8]);
}

#[test]
fn header_scheme_leaves_everything_after_the_twentieth_block() {
    let mut data: Vec<u8> = (0..171u32).map(|b| (b * 7) as u8).collect();
    let before = data.clone();
    decrypt_file(&row(GRF_FLAG_HEADER_DES_CRYPT, 171), &mut data);
    assert_eq!(&data[160..], &before[160..]);
    assert_ne!(&data[..8], &before[..8]);
}
