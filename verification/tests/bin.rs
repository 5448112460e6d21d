use jack_fourier::bin::{coefficient_from_travel, Bin, DEFAULT_ATTACK, DEFAULT_RELEASE};

#[test]
fn new_bin_shows_the_floor_whatever_its_value() {
    let bin = Bin::new(-12_000);
    assert_eq!(bin.get_smooth_val(), -90_000);
    assert_eq!(bin.get_raw_val(), -12_000);
    assert_eq!(Bin::new(0).get_smooth_val(), -90_000);
    assert_eq!(Bin::new(i32::MAX).get_smooth_val(), -90_000);
    assert_eq!(Bin::new(i32::MIN).get_smooth_val(), -90_000);
    assert_eq!(bin.get_frequency(), 0);
    assert_eq!(DEFAULT_ATTACK, 500_000);
    assert_eq!(DEFAULT_RELEASE, 950_000);
}

#[test]
fn first_update_rises_from_the_floor() {
    let mut bin = Bin::new(-12_000);
    bin.update(0);
    assert_eq!(bin.get_smooth_val(), -45_000);
    assert_eq!(bin.get_raw_val(), 0);
}

#[test]
fn rising_levels_use_the_attack_coefficient() {
    let mut bin = Bin::new(-90_000);
    bin.update(0);
    assert_eq!(bin.get_smooth_val(), -45_000);
    bin.update(0);
    assert_eq!(bin.get_smooth_val(), -22_500);
    bin.update(0);
    assert_eq!(bin.get_smooth_val(), -11_250);
}

#[test]
fn falling_levels_use_the_release_coefficient() {
    let mut bin = Bin::new(-90_000);
    bin.update(0);
    bin.update(0);
    assert_eq!(bin.get_smooth_val(), -22_500);
    bin.update(-90_000);
    assert_eq!(bin.get_smooth_val(), -25_875);
    bin.update(-90_000);
    assert_eq!(bin.get_smooth_val(), -29_082);
}

#[test]
fn equal_level_stays_put() {
    let mut bin = Bin::new(-90_000);
    bin.update(-90_000);
    assert_eq!(bin.get_smooth_val(), -90_000);
}

#[test]
fn smoothing_rounds_towards_the_raw_level() {
    let mut up = Bin::new(-90_000);
    up.update(-89_999);
    assert_eq!(up.get_smooth_val(), -89_999);
    let mut down = Bin::new(-90_000);
    down.update(-90_003);
    assert_eq!(down.get_smooth_val(), -90_001);
}

#[test]
fn smoothed_level_never_overshoots() {
    let mut bin = Bin::new(-90_000);
    let raws = [0, -3_000, -80_000, -79_999, 5_000, -90_000, -90_000, 0, i32::MAX, i32::MIN, 17];
    let mut previous = -90_000i32;
    for raw in raws {
        bin.update(raw);
        let now = bin.get_smooth_val();
        let low = previous.min(raw);
        let high = previous.max(raw);
        assert!(low <= now && now <= high);
        if previous != raw {
            assert_ne!(now, previous);
        }
        previous = now;
    }
}

#[test]
fn repeated_updates_reach_the_raw_level() {
    let mut bin = Bin::new(-90_000);
    for _ in 0..64 {
        bin.update(-10_000);
    }
    assert_eq!(bin.get_smooth_val(), -10_000);
    for _ in 0..400 {
        bin.update(-70_000);
    }
    assert_eq!(bin.get_smooth_val(), -70_000);
}

#[test]
fn coefficients_can_be_changed() {
    let mut bin = Bin::new(-90_000);
    bin.set_attack(0);
    bin.update(-10_000);
    assert_eq!(bin.get_smooth_val(), -10_000);
    bin.set_release(900_000);
    bin.update(-20_000);
    assert_eq!(bin.get_smooth_val(), -11_000);
    bin.set_attack(999_999);
    bin.update(0);
    assert_eq!(bin.get_smooth_val(), -10_999);
}

#[test]
fn frequency_is_kept_through_updates() {
    let mut bin = Bin::new(-90_000);
    bin.set_frequency(995_607);
    bin.update(-1_000);
    assert_eq!(bin.get_frequency(), 995_607);
    assert_eq!(bin.get_raw_val(), -1_000);
}

#[test]
fn smoothing_follows_the_real_valued_mean() {
    let raws_db = [-3.5f64, -12.25, -80.0, -79.5, -0.125, -90.0, -45.0, -44.0, -60.75, -1.0];
    let mut bin = Bin::new(-90_000);
    let mut history = -90.0f64;
    for _ in 0..5 {
        for raw in raws_db {
            let coefficient = if history > raw { 0.95 } else { 0.5 };
            history = history * coefficient + raw * (1.0 - coefficient);
            bin.update((raw * 1000.0).round() as i32);
            let shown = bin.get_smooth_val() as f64 / 1000.0;
            assert!((shown - history).abs() < 0.025);
        }
    }
}

#[test]
fn first_update_starts_from_what_a_new_bin_shows() {
    let mut loud = Bin::new(0);
    let shown = loud.get_smooth_val();
    loud.update(-50_000);
    let now = loud.get_smooth_val();
    assert_eq!(now, -70_000);
    assert!(shown <= now && now <= -50_000);

    let mut level = Bin::new(0);
    level.update(0);
    assert_eq!(level.get_smooth_val(), -45_000);

    let mut below = Bin::new(0);
    below.update(-100_000);
    assert_eq!(below.get_smooth_val(), -90_500);
}

#[test]
fn repeated_updates_shrink_the_distance_by_the_coefficient() {
    let mut bin = Bin::new(-90_000);
    let mut expected = 80_000;
    for _ in 0..5 {
        bin.update(-10_000);
        expected /= 2;
        assert_eq!(-10_000 - bin.get_smooth_val(), expected);
    }
    assert_eq!(bin.get_smooth_val(), -12_500);

    bin.set_release(900_000);
    let first: i128 = 77_500;
    let mut times: u32 = 0;
    let mut last = bin.get_smooth_val();
    for _ in 0..40 {
        bin.update(-90_000);
        times += 1;
        let now = bin.get_smooth_val();
        assert!(-90_000 <= now && now <= last);
        let left = (now + 90_000) as i128;
        if times <= 5 {
            let unit = 1_000_000i128.pow(times);
            let shrink = 900_000i128.pow(times);
            assert!(left * unit <= first * shrink);
            assert!(first * shrink <= (left + times as i128) * unit);
        }
        last = now;
    }
}

#[test]
fn a_bin_at_the_raw_level_stays_there() {
    let mut bin = Bin::new(-90_000);
    for _ in 0..10 {
        bin.update(-90_000);
        assert_eq!(bin.get_smooth_val(), -90_000);
    }
}

#[test]
fn travel_of_a_control_gives_a_coefficient_below_one() {
    assert_eq!(coefficient_from_travel(0), 0);
    assert_eq!(coefficient_from_travel(500_000), 500_000);
    assert_eq!(coefficient_from_travel(999_999), 999_999);
    assert_eq!(coefficient_from_travel(1_000_000), 999_999);
    assert_eq!(coefficient_from_travel(u32::MAX), 999_999);
}
