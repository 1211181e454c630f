use rtl_sdr_gnss::gps::tracking::{ChannelState, NavBitSync, TrackingLock};
use rtl_sdr_gnss::Error;

#[test]
fn tracking_lock_starts_idle_and_refuses_work() {
    let lock = TrackingLock::new(1);
    assert_eq!(lock.prn, 1);
    assert_eq!(lock.state, ChannelState::Idle);
    assert!(matches!(lock.check_active(), Err(Error::TrackingLost(1))));
}

#[test]
fn tracking_lock_pulls_in_then_tracks() {
    let mut lock = TrackingLock::new(4);
    lock.initialize();
    assert_eq!(lock.state, ChannelState::PullIn);
    assert!(lock.check_active().is_ok());
    for _ in 0..101 {
        lock.end_integration(false, 1).unwrap();
        assert_eq!(lock.state, ChannelState::PullIn);
    }
    assert_eq!(lock.lock_time_ms, 101);
    lock.end_integration(false, 1).unwrap();
    assert_eq!(lock.state, ChannelState::Tracking);
    assert_eq!(lock.integration_count, 102);
}

#[test]
fn tracking_lock_is_lost_on_weak_signal() {
    let mut lock = TrackingLock::new(9);
    lock.initialize();
    assert!(matches!(lock.end_integration(true, 1), Err(Error::TrackingLost(9))));
    assert_eq!(lock.state, ChannelState::Lost);
    assert!(lock.check_active().is_err());
    lock.initialize();
    assert_eq!(lock.state, ChannelState::PullIn);
    assert_eq!(lock.lock_time_ms, 0);
}

#[test]
fn integrations_per_bit_matches_float_quotient() {
    for ms in 0..40usize {
        let float = (20.0 / ms as f64) as u32;
        assert_eq!(NavBitSync::integrations_per_bit(ms), float, "ms {}", ms);
    }
}

#[test]
fn nav_bit_sync_waits_for_a_transition() {
    let mut sync = NavBitSync::new();
    // 20 integrations of 1 ms make one bit; the first bit sets the sign.
    for _ in 0..19 {
        assert_eq!(sync.decode_nav_bit(true, 1), None);
    }
    assert_eq!(sync.decode_nav_bit(true, 1), None);
    // Same sign again: still no sync.
    for _ in 0..20 {
        assert_eq!(sync.decode_nav_bit(true, 1), None);
    }
    // A change of sign gives bit sync and the first bit.
    for _ in 0..19 {
        assert_eq!(sync.decode_nav_bit(false, 1), None);
    }
    assert_eq!(sync.decode_nav_bit(false, 1), Some(-1));
    for _ in 0..19 {
        assert_eq!(sync.decode_nav_bit(true, 1), None);
    }
    assert_eq!(sync.decode_nav_bit(true, 1), Some(1));
}

#[test]
fn nav_bit_sync_with_long_integrations() {
    let mut sync = NavBitSync::new();
    // 30 ms integrations: every integration ends a bit period.
    assert_eq!(sync.decode_nav_bit(true, 30), None);
    assert_eq!(sync.decode_nav_bit(false, 30), Some(-1));
    assert_eq!(sync.decode_nav_bit(false, 30), Some(-1));
}
