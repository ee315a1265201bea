use embedded_dsp::fec::{
    checksum8, crc16, crc24, crc32, crc32_verify, crc8, hamming74_decode_bytes,
    hamming74_decode_nibble, hamming74_encode_bytes, hamming74_encode_nibble,
    hamming74_encoded_len, reverse_bits, CRC16_POLY, CRC24_POLY, CRC32_POLY, CRC8_POLY,
};
use embedded_dsp::types::Status;

#[test]
fn reverse_bits_matches_crc_polys() {
    assert_eq!(reverse_bits(0x07, 8), CRC8_POLY);
    assert_eq!(reverse_bits(0x8005, 16), CRC16_POLY);
    assert_eq!(reverse_bits(0x5D6DCB, 24), CRC24_POLY);
    assert_eq!(reverse_bits(0x04C11DB7, 32), CRC32_POLY);
    assert_eq!(reverse_bits(0, 8), 0);
}

#[test]
fn crc_check_values_of_the_standard_message() {
    let msg = b"123456789";
    assert_eq!(crc8(msg), 0x2f);
    assert_eq!(crc16(msg), 0xb4c8);
    assert_eq!(crc24(msg), 0x2f27ee);
    assert_eq!(crc32(msg), 0xcbf4_3926);
    assert_eq!(crc32(b""), 0);
}

#[test]
fn crc32_verify_accepts_only_the_matching_key() {
    let msg = b"123456789";
    assert!(crc32_verify(msg, 0xcbf4_3926));
    assert!(!crc32_verify(msg, 0xcbf4_3927));
}

#[test]
fn checksum8_makes_the_byte_sum_vanish() {
    let msg = b"123456789";
    let c = checksum8(msg);
    assert_eq!(c, 0x23);
    let total = msg.iter().fold(c as u32, |acc, &b| acc + b as u32);
    assert_eq!(total % 256, 0);
    assert_eq!(checksum8(b""), 0);
}

#[test]
fn hamming74_nibbles_round_trip_and_correct_one_bit() {
    assert_eq!(hamming74_encode_nibble(0x5), 0x25);
    assert_eq!(hamming74_encode_nibble(0xf5), 0x25);
    for n in 0u8..16 {
        let cw = hamming74_encode_nibble(n);
        assert!(cw < 0x80);
        assert_eq!(hamming74_decode_nibble(cw), n);
        for k in 0..7 {
            assert_eq!(hamming74_decode_nibble(cw ^ (1 << k)), n);
        }
    }
}

#[test]
fn hamming74_bytes_round_trip_and_length_errors() {
    let src = [0xa5u8, 0x00, 0xff, 0x3c];
    let mut enc = [0u8; 8];
    assert_eq!(hamming74_encoded_len(src.len()), 8);
    assert_eq!(hamming74_encode_bytes(&src, &mut enc), Status::Success);
    assert_eq!(enc[0], hamming74_encode_nibble(0xa));
    assert_eq!(enc[1], hamming74_encode_nibble(0x5));
    enc[3] ^= 0x10;
    let mut dec = [0u8; 4];
    assert_eq!(hamming74_decode_bytes(&enc, &mut dec), Status::Success);
    assert_eq!(dec, src);

    let mut short = [7u8; 3];
    assert_eq!(hamming74_encode_bytes(&src, &mut short), Status::LengthError);
    assert_eq!(short, [7u8; 3]);
    let mut wrong = [9u8; 3];
    assert_eq!(hamming74_decode_bytes(&enc, &mut wrong), Status::LengthError);
    assert_eq!(wrong, [9u8; 3]);
}
