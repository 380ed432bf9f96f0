use korangar::archive::FileTableRow;
use korangar::mixcrypt::{self, decode_des_block};
use korangar::native::{DesDecryption, FLAG_DATA_CRYPTED, FLAG_HEADER_CRYPTED};

fn row(flags: u8, compressed_size: u32) -> FileTableRow {
    FileTableRow {
        file_name: String::from("data\\test.txt"),
        compressed_size,
        compressed_size_aligned: compressed_size,
        uncompressed_size: compressed_size,
        flags,
        offset: 0,
    }
}

#[test]
fn byte_table_des_matches_the_bit_sliced_des() {
    let mut bytes = [0x01u8, 0x23, 0x45, 0x67, 0x89, 0xAB, 0xCD, 0xEF, 0xFF];
    DesDecryption::des_decode_block(&mut bytes, 0);
    let expected = decode_des_block(0x0123_4567_89AB_CDEF).to_be_bytes();
    assert_eq!(&bytes[..8], &expected);
    assert_eq!(bytes[8], 0xFF);
}

#[test]
fn byte_table_des_leaves_other_bytes_alone() {
    let mut bytes: Vec<u8> = (0..24).collect();
    DesDecryption::des_decode_block(&mut bytes, 8);
    assert_eq!(&bytes[..8], &[0, 1, 2, 3, 4, 5, 6, 7]);
    assert_eq!(&bytes[16..], &[16, 17, 18, 19, 20, 21, 22, 23]);
    let expected = decode_des_block(u64::from_be_bytes([8, 9, 10, 11, 12, 13, 14, 15])).to_be_bytes();
    assert_eq!(&bytes[8..16], &expected);
}

#[test]
fn header_only_decryption_agrees_between_schemes() {
    let data: Vec<u8> = (0..64u8).map(|b| b.wrapping_mul(91).wrapping_add(7)).collect();
    let mut legacy = data.clone();
    DesDecryption::decrypt_file(&row(FLAG_DATA_CRYPTED, 64), &mut legacy);
    let mut mixed = data.clone();
    mixcrypt::decrypt_file(&row(mixcrypt::GRF_FLAG_HEADER_DES_CRYPT, 64), &mut mixed);
    assert_eq!(legacy, mixed);
    assert_ne!(legacy, data);
}

#[test]
fn partial_tail_is_decoded_with_padding_and_cut() {
    let data: Vec<u8> = (0..13u8).collect();
    let mut legacy = data.clone();
    DesDecryption::decrypt_file(&row(FLAG_DATA_CRYPTED, 13), &mut legacy);
    assert_eq!(legacy.len(), 13);
    let mut padded = [0u8; 8];
    padded[..5].copy_from_slice(&data[8..13]);
    let tail = decode_des_block(u64::from_be_bytes(padded)).to_be_bytes();
    assert_eq!(&legacy[8..13], &tail[..5]);
    let mut mixed = data.clone();
    mixcrypt::decrypt_file(&row(mixcrypt::GRF_FLAG_HEADER_DES_CRYPT, 13), &mut mixed);
    assert_eq!(legacy, mixed);
}

#[test]
fn legacy_mixed_scheme_scrambles_every_seventh_plain_block() {
    // Compressed size 100: three digits, a cycle of four blocks.
    let data: Vec<u8> = (0..=255u8).collect();
    let mut decrypted = data.clone();
    DesDecryption::decrypt_file(&row(FLAG_HEADER_CRYPTED, 100), &mut decrypted);
    // Blocks 20..32 that are not multiples of 4 are plain: 21, 22, 23, 25,
    // 26, 27, 29, 30, 31. Block 30 has seven plain blocks before it and is
    // scrambled.
    let initial = &data[30 * 8..31 * 8];
    let block = &decrypted[30 * 8..31 * 8];
    assert_eq!(
        &block[..7],
        &[initial[3], initial[4], initial[6], initial[0], initial[1], initial[2], initial[5]]
    );
    assert_eq!(&decrypted[21 * 8..22 * 8], &data[21 * 8..22 * 8]);
    assert_eq!(&decrypted[29 * 8..30 * 8], &data[29 * 8..30 * 8]);
}

#[test]
fn unencrypted_files_stay_as_they_are() {
    let data: Vec<u8> = (0..20).collect();
    let mut decrypted = data.clone();
    DesDecryption::decrypt_file(&row(1, 20), &mut decrypted);
    assert_eq!(decrypted, data);
}

#[test]
fn decrypt_file_data_pads_to_whole_blocks_and_cuts_back() {
    let data: Vec<u8> = (0..3).collect();
    let mut decrypted = data.clone();
    DesDecryption::decrypt_file_data(&mut decrypted, true, 0);
    let tail = decode_des_block(u64::from_be_bytes([0, 1, 2, 0, 0, 0, 0, 0])).to_be_bytes();
    assert_eq!(decrypted, tail[..3].to_vec());
}

#[test]
fn both_decryptions_agree_on_the_mixed_scheme() {
    let data: Vec<u8> = (0..400u32).map(|b| (b * 13 + 5) as u8).collect();
    let mut legacy = data.clone();
    DesDecryption::decrypt_file(&row(FLAG_HEADER_CRYPTED, 100), &mut legacy);
    let mut mixed = data.clone();
    mixcrypt::decrypt_file(&row(mixcrypt::GRF_FLAG_FULL_MIX_CRYPT, 100), &mut mixed);
    assert_eq!(legacy, mixed);
}

#[test]
fn both_decryptions_agree_past_the_header_blocks() {
    let data: Vec<u8> = (0..173u32).map(|b| (b * 31 + 1) as u8).collect();
    let mut legacy = data.clone();
    DesDecryption::decrypt_file(&row(FLAG_DATA_CRYPTED, 173), &mut legacy);
    let mut mixed = data.clone();
    mixcrypt::decrypt_file(&row(mixcrypt::GRF_FLAG_HEADER_DES_CRYPT, 173), &mut mixed);
    assert_eq!(legacy, mixed);
    assert_eq!(&legacy[160..], &data[160..]);
}

#[test]
fn final_permutation_undoes_the_initial_one() {
    let original = [0x01u8, 0x23, 0x45, 0x67, 0x89, 0xAB, 0xCD, 0xEF];
    let mut block = original;
    DesDecryption::ip(&mut block);
    assert_ne!(block, original);
    DesDecryption::fp(&mut block);
    assert_eq!(block, original);
    DesDecryption::fp(&mut block);
    DesDecryption::ip(&mut block);
    assert_eq!(block, original);
}

#[test]
fn round_function_twice_gives_the_block_back() {
    let original = [0xDEu8, 0xAD, 0xBE, 0xEF, 0x12, 0x34, 0x56, 0x78];
    let mut block = original;
    DesDecryption::round_function(&mut block);
    assert_ne!(block, original);
    assert_eq!(block[4..], original[4..]);
    DesDecryption::round_function(&mut block);
    assert_eq!(block, original);
}

#[test]
fn bit_sliced_permutations_undo_each_other() {
    let message = 0x0123_4567_89AB_CDEFu64;
    assert_eq!(mixcrypt::des::fp(mixcrypt::des::ip(message)), message);
    assert_eq!(mixcrypt::des::ip(mixcrypt::des::fp(message)), message);
    assert_ne!(mixcrypt::des::ip(message), message);
}

#[test]
fn block_loops_agree_on_whole_blocks() {
    let data: Vec<u8> = (0..8 * 40).map(|i| (i * 37 % 251) as u8).collect();
    let cycle = 4;
    let mut mixed = data.clone();
    mixcrypt::decrypt_data_blocks(&mut mixed, false, mixcrypt::calculate_encryption_cycle(cycle));
    let mut legacy = data.clone();
    DesDecryption::decode_file_data(&mut legacy, false, cycle);
    assert_eq!(mixed, legacy);
    assert_ne!(mixed, data);
}
