use rtl_sdr_gnss::output::nmea::NmeaGenerator;

#[test]
fn test_checksum() {
    let checksum = NmeaGenerator::checksum("GPGGA,123519,4807.038,N,01131.000,E,1,08,0.9,545.4,M,46.9,M,,");
    assert_eq!(checksum.len(), 2);
}

#[test]
fn checksum_of_reference_sentence() {
    let checksum = NmeaGenerator::checksum("GPGGA,123519,4807.038,N,01131.000,E,1,08,0.9,545.4,M,46.9,M,,");
    assert_eq!(checksum, "47");
    assert_eq!(NmeaGenerator::checksum(""), "00");
    assert_eq!(NmeaGenerator::checksum("A"), "41");
    assert_eq!(NmeaGenerator::checksum("\u{7f}"), "7F");
}

#[test]
fn frame_reference_sentence() {
    let s = NmeaGenerator::frame_sentence("GPGGA,123519,4807.038,N,01131.000,E,1,08,0.9,545.4,M,46.9,M,,");
    assert_eq!(s, "$GPGGA,123519,4807.038,N,01131.000,E,1,08,0.9,545.4,M,46.9,M,,*47");
}

#[test]
fn gsa_fields_pad_to_twelve() {
    assert_eq!(NmeaGenerator::gsa_prn_fields(&[1, 5, 120]), "01,05,120,,,,,,,,,,");
    assert_eq!(NmeaGenerator::gsa_prn_fields(&[]), ",,,,,,,,,,,,");
    let many: Vec<u8> = (1..=14).collect();
    assert_eq!(
        NmeaGenerator::gsa_prn_fields(&many),
        "01,02,03,04,05,06,07,08,09,10,11,12,"
    );
}

#[test]
fn test_gsv_generation() {
    let satellites = vec![(1u8, 45.0f64, 180.0f64, 42.0f64), (2, 30.0, 90.0, 38.0), (3, 60.0, 270.0, 45.0)];
    let fields: Vec<String> = satellites
        .iter()
        .map(|&(prn, elev, azim, snr)| format!(",{:02},{:.0},{:.0},{:.0}", prn, elev, azim, snr))
        .collect();

    let gsv_sentences = NmeaGenerator::gsv_from_fields(&fields);
    assert!(!gsv_sentences.is_empty());
    assert!(gsv_sentences[0].starts_with("$GPGSV"));
    let body = "GPGSV,1,1,3,01,45,180,42,02,30,90,38,03,60,270,45";
    assert_eq!(gsv_sentences[0], NmeaGenerator::frame_sentence(body));
}

#[test]
fn gsv_pages_four_satellites_per_sentence() {
    let fields: Vec<String> = (1..=5).map(|p| format!(",{:02},10,20,30", p)).collect();
    let sentences = NmeaGenerator::gsv_from_fields(&fields);
    assert_eq!(sentences.len(), 2);
    assert!(sentences[0].starts_with("$GPGSV,2,1,5,01,10,20,30,02,"));
    assert!(sentences[1].starts_with("$GPGSV,2,2,5,05,10,20,30*"));
    assert!(NmeaGenerator::gsv_from_fields(&[]).is_empty());
}
