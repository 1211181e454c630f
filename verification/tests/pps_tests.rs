use rtl_sdr_gnss::output::pps::PpsGenerator;

#[test]
fn test_pps_creation() {
    let pps = PpsGenerator::new();
    assert!(!pps.is_enabled());
}

#[test]
fn test_pps_enable_disable() {
    let mut pps = PpsGenerator::new();
    pps.enable();
    assert!(pps.is_enabled());

    pps.disable();
    assert!(!pps.is_enabled());
}

fn at_second_boundary(gps_time_s: f64) -> bool {
    let fractional_second = gps_time_s - gps_time_s.floor();
    let time_to_next_second = 1.0 - fractional_second;
    time_to_next_second < 0.01 || time_to_next_second > 0.99
}

#[test]
fn test_pulse_generation() {
    let mut pps = PpsGenerator::new();
    pps.enable();

    // Test pulse at second boundary
    let result = pps.generate_pulse(at_second_boundary(123456.999), 5_000_000_000);
    assert!(result);
}

#[test]
fn test_gps_time_conversion() {
    let gps_time = PpsGenerator::system_time_to_gps(1_700_000_000);
    assert!(gps_time > 0);
    assert_eq!(gps_time, 1_700_000_000 - 315_964_800);
    assert_eq!(PpsGenerator::system_time_to_gps(0), 0);
    assert_eq!(PpsGenerator::system_time_to_gps(315_964_800), 0);
}

#[test]
fn pps_is_debounced() {
    let mut pps = PpsGenerator::default();
    assert!(!pps.generate_pulse(true, 0));
    pps.enable();
    assert!(!pps.generate_pulse(at_second_boundary(10.5), 0));
    assert!(pps.generate_pulse(true, 1_000_000_000));
    assert!(!pps.generate_pulse(true, 1_899_999_999));
    assert!(pps.generate_pulse(true, 1_900_000_000));
    // A clock reading before the last pulse counts as no time elapsed.
    assert!(!pps.generate_pulse(true, 0));
}

#[test]
fn pps_run_from_a_generator_that_has_pulsed() {
    let mut pps = PpsGenerator::new();
    pps.enable();
    assert!(pps.generate_pulse(true, 5_000_000_000));
    // A run of calls on that generator: no pulse within 900 ms of the last
    // one, none off a second boundary, and pulses 900 ms or more apart.
    let calls = [
        (true, 5_400_000_000u64, false),
        (false, 6_000_000_000, false),
        (true, 5_899_999_999, false),
        (true, 5_900_000_000, true),
        (true, 6_700_000_000, false),
        (true, 6_800_000_000, true),
    ];
    for (boundary, now, expected) in calls {
        assert_eq!(pps.generate_pulse(boundary, now), expected, "at {}", now);
    }
}
