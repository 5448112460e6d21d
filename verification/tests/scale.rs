use jack_fourier::interpolate::map_range;
use jack_fourier::scale::{
    axis_position, bin2freq, db_to_position, max_from_knob, min_from_knob, ScaleConfig,
    LOWEST_FREQUENCY,
};
use jack_fourier::units::{MILLIHERTZ, UNIT};

#[test]
fn units() {
    assert_eq!(UNIT, 1_000_000);
    assert_eq!(MILLIHERTZ, 1_000);
    assert_eq!(LOWEST_FREQUENCY, 20_000);
}

#[test]
fn map_range_interpolates() {
    assert_eq!(map_range(5, 0, 10, 0, 100), Some(50));
    assert_eq!(map_range(0, 0, 10, 20, 40), Some(20));
    assert_eq!(map_range(10, 0, 10, 20, 40), Some(40));
    assert_eq!(map_range(7, 2, 12, -100, 100), Some(0));
}

#[test]
fn map_range_follows_the_line_beyond_the_range() {
    assert_eq!(map_range(20, 0, 10, 0, 100), Some(200));
    assert_eq!(map_range(-5, 0, 10, 0, 100), Some(-50));
}

#[test]
fn map_range_handles_downward_ranges() {
    assert_eq!(map_range(-45_000, 0, -90_000, 0, 1_000_000), Some(500_000));
    assert_eq!(map_range(3, 0, 10, 100, 0), Some(70));
    assert_eq!(map_range(3, 10, 0, 100, 0), Some(30));
}

#[test]
fn map_range_rounds_down() {
    assert_eq!(map_range(1, 0, 3, 0, 10), Some(3));
    assert_eq!(map_range(2, 0, 3, 0, 10), Some(6));
    assert_eq!(map_range(-1, 0, 3, 0, 10), Some(-4));
    assert_eq!(map_range(1, 0, -3, 0, 10), Some(-4));
    assert_eq!(map_range(1, 0, 3, 0, -10), Some(-4));
    assert_eq!(map_range(-1, 0, -3, 0, 10), Some(3));
}

#[test]
fn map_range_of_a_single_point_has_no_answer() {
    assert_eq!(map_range(1, 4, 4, 0, 1), None);
    assert_eq!(map_range(4, 4, 4, 0, 0), None);
}

#[test]
fn map_range_has_no_answer_outside_the_result_type() {
    assert_eq!(map_range(i64::MAX, 0, 1, 0, i64::MAX), None);
    assert_eq!(map_range(2, 0, 1, 0, i64::MAX), None);
    assert_eq!(map_range(i64::MIN, i64::MAX, i64::MIN, i64::MIN, i64::MAX), Some(i64::MAX));
    assert_eq!(map_range(i64::MAX, i64::MAX, i64::MIN, i64::MIN, i64::MAX), Some(i64::MIN));
    assert_eq!(map_range(1, 0, 1, i64::MIN, i64::MAX), Some(i64::MAX));
    assert_eq!(map_range(i64::MAX, i64::MIN, i64::MAX, 0, 0), Some(0));
}

#[test]
fn map_range_round_trip_stays_close() {
    let cases: [(i64, i64, i64, i64); 5] = [
        (20_000, 24_000_000, 0, 1_000_000),
        (0, -90_000, 0, 1_000_000),
        (0, 10, 0, 1_000),
        (-50, 50, 1_000, -1_000),
        (0, 1_000, 0, 7),
    ];
    for (x0, x1, y0, y1) in cases {
        let (lo, hi) = if x0 < x1 { (x0, x1) } else { (x1, x0) };
        let step = ((hi - lo) / 37).max(1);
        let mut v = lo;
        while v <= hi {
            let there = map_range(v, x0, x1, y0, y1).unwrap();
            let back = map_range(there, y0, y1, x0, x1).unwrap();
            let slack = (back - v).abs() * (y1 - y0).abs();
            assert!(slack < (x1 - x0).abs() + (y1 - y0).abs());
            v += step;
        }
    }
}

#[test]
fn map_range_round_trip_is_exact_onto_a_finer_range() {
    for v in 0..=10 {
        let there = map_range(v, 0, 10, 0, 1_000).unwrap();
        assert_eq!(map_range(there, 0, 1_000, 0, 10), Some(v));
    }
}

#[test]
fn db_positions() {
    assert_eq!(db_to_position(0), 0);
    assert_eq!(db_to_position(-90_000), 1_000_000);
    assert_eq!(db_to_position(-45_000), 500_000);
    assert_eq!(db_to_position(-30_000), 333_333);
    assert_eq!(db_to_position(9_000), -100_000);
    assert_eq!(db_to_position(-1), 11);
    assert_eq!(db_to_position(1), -12);
}

#[test]
fn axis_positions() {
    assert_eq!(axis_position(20, 20, 24_000), Some(0));
    assert_eq!(axis_position(24_000, 20, 24_000), Some(1_000_000));
    assert_eq!(axis_position(12_010, 20, 24_000), Some(500_000));
    assert_eq!(axis_position(1_000, 20, 24_000), Some(40_867));
    assert_eq!(axis_position(5, 7, 7), None);
}

#[test]
fn positions_never_decrease_with_frequency() {
    let config = ScaleConfig::new(48_000);
    let mut last = i64::MIN;
    let mut freq: i64 = 0;
    while freq <= 24_000_000 {
        let position = config.frequency_to_position(freq).unwrap();
        assert!(position >= last);
        last = position;
        freq += 7_919;
    }
    let mut last_log = i64::MIN;
    for hz in [20.0f64, 50.0, 100.0, 440.0, 1_000.0, 10_000.0, 24_000.0] {
        let value = (hz.log2() * 1_000_000.0).round() as i64;
        let low = (20.0f64.log2() * 1_000_000.0).round() as i64;
        let high = (24_000.0f64.log2() * 1_000_000.0).round() as i64;
        let position = axis_position(value, low, high).unwrap();
        assert!(position >= last_log);
        last_log = position;
    }
    assert_eq!(last_log, 1_000_000);
}

#[test]
fn bin_frequencies() {
    assert_eq!(bin2freq(0, 2049, 48_000), Some(0));
    assert_eq!(bin2freq(85, 2049, 48_000), Some(995_607));
    assert_eq!(bin2freq(1, 4096, 48_000), Some(5_859));
    assert_eq!(bin2freq(4096, 4096, 48_000), Some(24_000_000));
    assert_eq!(bin2freq(3, 4, 44_100), Some(16_537_500));
    assert_eq!(bin2freq(1, 0, 48_000), None);
    assert_eq!(bin2freq(usize::MAX, 1, u32::MAX), None);
}

#[test]
fn scale_config_starts_at_the_widest_range() {
    let config = ScaleConfig::new(48_000);
    assert_eq!(config.sample_rate(), 48_000);
    assert_eq!(config.min_frequency(), 20_000);
    assert_eq!(config.max_frequency(), 24_000_000);
}

#[test]
fn scale_config_clamps_its_bounds() {
    let mut config = ScaleConfig::new(48_000);
    config.set_min_frequency(5);
    assert_eq!(config.min_frequency(), 20_000);
    config.set_min_frequency(30_000_000);
    assert_eq!(config.min_frequency(), 24_000_000);
    config.set_min_frequency(440_000);
    assert_eq!(config.min_frequency(), 440_000);
    config.set_max_frequency(-1);
    assert_eq!(config.max_frequency(), 20_000);
    config.set_max_frequency(i64::MAX);
    assert_eq!(config.max_frequency(), 24_000_000);
    config.set_max_frequency(8_000_000);
    assert_eq!(config.max_frequency(), 8_000_000);
    assert_eq!(config.min_frequency(), 440_000);
}

#[test]
fn scale_config_at_a_tiny_sample_rate() {
    let mut config = ScaleConfig::new(30);
    assert_eq!(config.min_frequency(), 20_000);
    assert_eq!(config.max_frequency(), 20_000);
    config.set_max_frequency(1_000_000);
    assert_eq!(config.max_frequency(), 20_000);
    assert_eq!(config.frequency_to_position(20_000), None);
}

#[test]
fn linear_positions_of_frequencies() {
    let mut config = ScaleConfig::new(48_000);
    assert_eq!(config.frequency_to_position(20_000), Some(0));
    assert_eq!(config.frequency_to_position(24_000_000), Some(1_000_000));
    assert_eq!(config.frequency_to_position(12_010_000), Some(500_000));
    config.set_min_frequency(1_000_000);
    config.set_max_frequency(2_000_000);
    assert_eq!(config.frequency_to_position(1_250_000), Some(250_000));
    assert_eq!(config.frequency_to_position(500_000), Some(-500_000));
}

#[test]
fn knob_positions_to_bounds() {
    assert_eq!(min_from_knob(0, 48_000), 20_000);
    assert_eq!(min_from_knob(1_000_000, 48_000), 12_020_000);
    assert_eq!(min_from_knob(500_000, 48_000), 6_020_000);
    assert_eq!(max_from_knob(0, 48_000), 0);
    assert_eq!(max_from_knob(1_000_000, 48_000), 24_000_000);
    assert_eq!(max_from_knob(500_000, 48_000), 12_000_000);
    assert_eq!(max_from_knob(1, 44_100), 23);
    assert_eq!(max_from_knob(333_333, 48_000), 7_999_992);
    assert_eq!(max_from_knob(u32::MAX, u32::MAX), 9_223_372_032_559_809);
}

#[test]
fn map_range_follows_the_real_valued_line() {
    let cases: [(i64, i64, i64, i64, i64); 6] = [
        (1_000_000, 20_000, 24_000_000, 0, 1_000_000),
        (-45_123, 0, -90_000, 0, 1_000_000),
        (7, 2, 12, -100, 100),
        (-3, 10, -10, 5, 95),
        (123_456, -1_000, 1_000_000, 1_000, -1_000),
        (9_965_784, 4_321_928, 14_550_747, 0, 1_000_000),
    ];
    for (val, x0, x1, y0, y1) in cases {
        let mapped = map_range(val, x0, x1, y0, y1).unwrap() as f64;
        let exact =
            y0 as f64 + (y1 - y0) as f64 * (val - x0) as f64 / (x1 - x0) as f64;
        assert!(mapped <= exact && exact < mapped + 1.0);
    }
}

#[test]
fn db_position_follows_the_real_valued_line() {
    for level in [-90_000, -89_999, -60_000, -33_333, -1, 0] {
        let exact = level as f64 / -90_000.0;
        let position = db_to_position(level) as f64 / 1_000_000.0;
        assert!((position - exact).abs() < 0.000_001);
    }
}
