use pc_monitoring::thermistor::{max_reading, reading_to_resistance, reading_to_voltage};

#[test]
fn divider_equation_exact_values() {
    // pull 4700 ohms, 12-fractional-bit fixed point, truncating.
    assert_eq!(reading_to_resistance(1, 4700), Some(1));
    assert_eq!(reading_to_resistance(100, 4700), Some(117));
    assert_eq!(reading_to_resistance(1024, 4700), Some(1567));
    assert_eq!(reading_to_resistance(2048, 4700), Some(4702));
    assert_eq!(reading_to_resistance(3000, 4700), Some(12877));
}

#[test]
fn degenerate_codes_yield_no_resistance() {
    assert_eq!(reading_to_resistance(0, 4700), None);
    assert_eq!(reading_to_resistance(4095, 4700), None);
    assert_eq!(reading_to_resistance(4096, 4700), None);
    assert_eq!(reading_to_resistance(u16::MAX, 4700), None);
}

#[test]
fn resistance_is_monotone_in_the_raw_code() {
    // The divider equation `pull / (max_code/raw - 1)` grows with the raw
    // code: a hotter thermistor (lower resistance) pulls the code down.
    let mut last = 0u32;
    for reading in 1..4095u16 {
        let r = reading_to_resistance(reading, 4700).unwrap();
        assert!(r >= last, "resistance fell from {last} to {r} at code {reading}");
        last = r;
    }
}

#[test]
fn voltage_is_proportional_to_the_code() {
    assert_eq!(reading_to_voltage(0, 3300), 0);
    assert_eq!(reading_to_voltage(2048, 3300), 1650);
    assert_eq!(reading_to_voltage(4095, 3300), 3300);
    assert_eq!(max_reading(), 4095);
}
