use rtl_sdr_gnss::sbas::decoder::{decode_type1, SbasDecoder};
use rtl_sdr_gnss::sbas::SbasMessage;
use rtl_sdr_gnss::Error;

#[test]
fn test_sbas_decoder_creation() {
    let decoder = SbasDecoder::new(131);
    assert_eq!(decoder.prn(), 131);
}

#[test]
fn decoder_test_preamble_detection() {
    let mut decoder = SbasDecoder::new(131);
    let preamble = vec![0, 1, 0, 1, 0, 0, 1, 1];

    for &bit in &preamble {
        decoder.add_bit(bit);
    }

    assert!(decoder.is_preamble_at_offset(0));
}

fn message_bits(message_type: u8, data: &[u8]) -> Vec<u8> {
    let mut bits = vec![0, 1, 0, 1, 0, 0, 1, 1];
    for i in (0..6).rev() {
        bits.push((message_type >> i) & 1);
    }
    // 212 data bits: 26 whole bytes and the high half of the 27th.
    for &byte in data {
        for i in (0..8).rev() {
            bits.push((byte >> i) & 1);
        }
    }
    bits.truncate(14 + 212);
    while bits.len() < 250 {
        bits.push(0);
    }
    bits
}

#[test]
fn sbas_decoder_reads_type_and_data() {
    let mut data: Vec<u8> = (0..26).map(|i| (i * 7 + 3) as u8).collect();
    data.push(0xB0);
    let mut decoder = SbasDecoder::new(133);
    let bits = message_bits(9, &data);
    for &b in &bits[..249] {
        decoder.add_bit(b);
    }
    assert!(decoder.try_decode_message().is_err());
    // The whole 250-bit message is held: it is decoded.
    decoder.add_bit(bits[249]);
    let msg = decoder.try_decode_message().unwrap();
    assert_eq!(msg.prn, 133);
    assert_eq!(msg.message_type, 9);
    assert_eq!(msg.data, data);
}

#[test]
fn sbas_decoder_reports_missing_preamble() {
    let mut decoder = SbasDecoder::new(120);
    for _ in 0..260 {
        decoder.add_bit(1);
    }
    match decoder.try_decode_message() {
        Err(Error::SbasDecode(s)) => assert_eq!(s, "No preamble found"),
        other => panic!("unexpected {:?}", other),
    }
}

#[test]
fn sbas_decoder_keeps_a_bounded_window() {
    let mut data = vec![0xA5u8; 26];
    data.push(0xA0);
    let mut decoder = SbasDecoder::new(135);
    for _ in 0..3 {
        for b in message_bits(25, &data) {
            decoder.add_bit(b);
        }
    }
    decoder.add_bit(1);
    let msg = decoder.try_decode_message().unwrap();
    assert_eq!(msg.message_type, 25);
    assert_eq!(msg.data, data);
}

#[test]
fn sbas_type1_mask_is_empty() {
    let msg = SbasMessage { prn: 131, message_type: 1, data: vec![0; 26] };
    assert!(decode_type1(&msg).is_empty());
}

#[test]
fn sbas_decoder_keeps_all_212_data_bits() {
    let mut data = vec![0u8; 26];
    data.push(0x90);
    let mut decoder = SbasDecoder::new(127);
    for b in message_bits(2, &data) {
        decoder.add_bit(b);
    }
    let msg = decoder.try_decode_message().unwrap();
    assert_eq!(msg.data.len(), 27);
    assert_eq!(msg.data[26], 0x90);
    assert_eq!(msg.data, data);
}
