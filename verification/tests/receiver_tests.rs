use rtl_sdr_gnss::gps::tracking::ChannelState;
use rtl_sdr_gnss::navigation::select_measurements;
use rtl_sdr_gnss::receiver::{prns_to_search, status_line};
use rtl_sdr_gnss::Error;

#[test]
fn search_all_gps_prns_without_channels() {
    let all: Vec<u8> = (1..=32).collect();
    assert_eq!(prns_to_search(&[]), all);
    let expected: Vec<u8> = (1..=32).filter(|p| ![3u8, 7, 32, 131].contains(p)).collect();
    assert_eq!(prns_to_search(&[3, 7, 32, 131]), expected);
    assert!(prns_to_search(&all).is_empty());
}

#[test]
fn status_line_counts_tracking_channels() {
    let states = [
        ChannelState::Tracking,
        ChannelState::PullIn,
        ChannelState::Tracking,
        ChannelState::Lost,
    ];
    assert_eq!(status_line(&states), "Tracking 2 satellites | 4 channels active");
    assert_eq!(status_line(&[]), "Tracking 0 satellites | 0 channels active");
}

#[test]
fn test_insufficient_satellites() {
    // Two pseudoranges and no ephemerides cannot give a fix.
    match select_measurements(&[1, 2], &[]) {
        Err(Error::InsufficientSatellites(2)) => {}
        other => panic!("unexpected {:?}", other),
    }
}

#[test]
fn measurements_pair_pseudoranges_with_first_ephemeris() {
    let r = select_measurements(&[5, 9, 12, 17, 30], &[17, 5, 12, 5, 9]).unwrap();
    assert_eq!(r, vec![(0, 1), (1, 4), (2, 2), (3, 0)]);
    match select_measurements(&[5, 9, 12, 17], &[5, 9, 12]) {
        Err(Error::InsufficientSatellites(3)) => {}
        other => panic!("unexpected {:?}", other),
    }
}
