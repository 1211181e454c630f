use rtl_sdr_gnss::constants::GPS_CA_CODE_LENGTH;
use rtl_sdr_gnss::gps::ca_code::CaCodeGenerator;

#[test]
fn test_ca_code_length() {
    let code = CaCodeGenerator::generate(1);
    assert_eq!(code.len(), GPS_CA_CODE_LENGTH);
}

#[test]
fn test_ca_code_values() {
    let code = CaCodeGenerator::generate(1);
    // All values should be either 1 or -1
    assert!(code.iter().all(|&v| v == 1 || v == -1));
}

#[test]
fn test_different_prns_different_codes() {
    let code1 = CaCodeGenerator::generate(1);
    let code2 = CaCodeGenerator::generate(2);
    // Codes should be different
    assert_ne!(code1, code2);
}

#[test]
fn ca_code_first_chips_match_published_octal() {
    // IS-GPS-200: the first ten chips of PRN 1 are octal 1440, of PRN 2 octal 1620.
    let code1 = CaCodeGenerator::generate(1);
    assert_eq!(&code1[..10], &[1, 1, -1, -1, 1, -1, -1, -1, -1, -1]);
    let code2 = CaCodeGenerator::generate(2);
    assert_eq!(&code2[..10], &[1, 1, 1, -1, -1, 1, -1, -1, -1, -1]);
}

#[test]
fn ca_codes_are_balanced_for_all_gps_prns() {
    for prn in 1..=32u8 {
        let code = CaCodeGenerator::generate(prn);
        assert_eq!(code.len(), 1023);
        let ones = code.iter().filter(|&&c| c == 1).count();
        assert_eq!(ones, 512, "PRN {}", prn);
    }
}

#[test]
fn gps_prn_codes_are_pairwise_distinct() {
    let codes: Vec<Vec<i8>> = (1..=32u8).map(CaCodeGenerator::generate).collect();
    for i in 0..codes.len() {
        for j in (i + 1)..codes.len() {
            assert_ne!(codes[i], codes[j]);
        }
    }
}

#[test]
fn sbas_prn_code_is_generated() {
    let code = CaCodeGenerator::generate(131);
    assert_eq!(code.len(), GPS_CA_CODE_LENGTH);
    assert!(code.iter().all(|&v| v == 1 || v == -1));
    assert_eq!(&code[..10], &[1, 1, 1, -1, -1, 1, -1, -1, -1, -1]);
}

#[test]
fn sbas_prn_with_gps_taps_repeats_the_gps_code() {
    // PRN 121 selects G2 cells 1 and 5, as PRN 1 does.
    assert_eq!(CaCodeGenerator::generate(121), CaCodeGenerator::generate(1));
    assert_ne!(CaCodeGenerator::generate(120), CaCodeGenerator::generate(1));
}
