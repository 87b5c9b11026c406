use night_gamma::color::{
    get_white_point, Config, Ramps, WhitePoint, BLACK_BODY_COLOR, FULL_BRIGHTNESS,
    FULL_INTENSITY, MAX_TEMPERATURE, MIN_TEMPERATURE, NEUTRAL_TEMPERATURE,
};

fn config(temperature: u32, brightness: u32) -> Config {
    Config::new(temperature, brightness).unwrap()
}

fn generated(temperature: u32, brightness: u32, size: usize) -> Ramps {
    let mut ramps = Ramps::new(size);
    config(temperature, brightness).generate_ramps(&mut ramps);
    ramps
}

#[test]
fn config_new_keeps_fields_in_range() {
    for temperature in [1000, 1001, 3500, 6500, 24999, 25000] {
        for brightness in [0, 1, 400_000, 999_999, 1_000_000] {
            let config = Config::new(temperature, brightness).unwrap();
            assert_eq!(config.temperature(), temperature);
            assert_eq!(config.brightness(), brightness);
        }
    }
}

#[test]
fn config_new_covers_the_whole_temperature_range() {
    for temperature in MIN_TEMPERATURE..=MAX_TEMPERATURE {
        assert!(Config::new(temperature, FULL_BRIGHTNESS).is_some());
    }
}

#[test]
fn config_new_refuses_temperature_out_of_range() {
    assert!(Config::new(999, 500_000).is_none());
    assert!(Config::new(0, 500_000).is_none());
    assert!(Config::new(25_001, 500_000).is_none());
    assert!(Config::new(u32::MAX, 500_000).is_none());
}

#[test]
fn config_new_refuses_brightness_out_of_range() {
    assert!(Config::new(6500, 1_000_001).is_none());
    assert!(Config::new(6500, u32::MAX).is_none());
}

#[test]
fn config_default_is_neutral_and_full() {
    let config = Config::default();
    assert_eq!(config.temperature(), NEUTRAL_TEMPERATURE);
    assert_eq!(config.temperature(), 6500);
    assert_eq!(config.brightness(), 1_000_000);
    assert_eq!(config, Config::new(6500, 1_000_000).unwrap());
}

#[test]
fn different_from_is_false_for_a_copy() {
    for (temperature, brightness) in [(1000, 0), (3500, 400_000), (6500, 1_000_000), (25_000, 7)] {
        let config = config(temperature, brightness);
        let copy = config;
        assert!(!config.different_from(copy));
        assert!(!copy.different_from(config));
    }
}

#[test]
fn different_from_is_symmetric() {
    let points = [
        (1000, 0),
        (1005, 10_000),
        (1010, 10_001),
        (1011, 0),
        (6500, 1_000_000),
        (6510, 990_000),
        (6511, 989_999),
        (25_000, 500_000),
    ];
    for first in points {
        for second in points {
            let a = config(first.0, first.1);
            let b = config(second.0, second.1);
            assert_eq!(a.different_from(b), b.different_from(a));
        }
    }
}

#[test]
fn different_from_thresholds() {
    let base = config(5000, 500_000);
    // Ten kelvins or a hundredth apart is not enough.
    assert!(!base.different_from(config(5010, 500_000)));
    assert!(!base.different_from(config(4990, 500_000)));
    assert!(!base.different_from(config(5000, 510_000)));
    assert!(!base.different_from(config(5000, 490_000)));
    assert!(!base.different_from(config(5010, 510_000)));
    // One step more is.
    assert!(base.different_from(config(5011, 500_000)));
    assert!(base.different_from(config(4989, 500_000)));
    assert!(base.different_from(config(5000, 510_001)));
    assert!(base.different_from(config(5000, 489_999)));
}

#[test]
fn table_spans_1000_to_25100_kelvins() {
    assert_eq!(BLACK_BODY_COLOR.len(), 242);
    assert_eq!(BLACK_BODY_COLOR[0], (100_000_000, 18_172_716, 0));
    assert_eq!(BLACK_BODY_COLOR[55], (100_000_000, 100_000_000, 100_000_000));
    assert_eq!(BLACK_BODY_COLOR[241], (62_740_336, 75_282_962, 100_000_000));
    for row in BLACK_BODY_COLOR {
        assert!(row.0 <= 100_000_000 && row.1 <= 100_000_000 && row.2 <= 100_000_000);
    }
}

#[test]
fn white_point_at_neutral_is_all_ones() {
    assert_eq!(
        get_white_point(6500),
        Some(WhitePoint { red: FULL_INTENSITY, green: FULL_INTENSITY, blue: FULL_INTENSITY })
    );
}

#[test]
fn white_point_on_a_row_of_the_table() {
    assert_eq!(
        get_white_point(3500),
        Some(WhitePoint { red: 10_000_000_000, green: 7_798_769_900, blue: 5_464_226_800 })
    );
    assert_eq!(
        get_white_point(1000),
        Some(WhitePoint { red: 10_000_000_000, green: 1_817_271_600, blue: 0 })
    );
    assert_eq!(
        get_white_point(25_000),
        Some(WhitePoint { red: 6_277_418_600, green: 7_530_697_700, blue: 10_000_000_000 })
    );
}

#[test]
fn white_point_between_two_rows() {
    assert_eq!(
        get_white_point(3550),
        Some(WhitePoint { red: 10_000_000_000, green: 7_851_477_100, blue: 5_571_798_000 })
    );
    assert_eq!(
        get_white_point(25_099),
        Some(WhitePoint { red: 6_274_067_450, green: 7_528_320_215, blue: 10_000_000_000 })
    );
}

#[test]
fn white_point_outside_the_table() {
    assert_eq!(get_white_point(999), None);
    assert_eq!(get_white_point(0), None);
    assert_eq!(get_white_point(25_100), None);
    assert_eq!(get_white_point(u32::MAX), None);
}

#[test]
fn white_point_exists_for_every_config() {
    for temperature in MIN_TEMPERATURE..=MAX_TEMPERATURE {
        let white_point = get_white_point(temperature).unwrap();
        assert!(white_point.red <= FULL_INTENSITY);
        assert!(white_point.green <= FULL_INTENSITY);
        assert!(white_point.blue <= FULL_INTENSITY);
    }
}

#[test]
fn new_ramps_are_zero() {
    let ramps = Ramps::new(5);
    assert_eq!(ramps.ramp_size(), 5);
    let (red, green, blue) = ramps.channels();
    assert_eq!(red, [0u16; 5].as_slice());
    assert_eq!(green, [0u16; 5].as_slice());
    assert_eq!(blue, [0u16; 5].as_slice());
    assert_eq!(ramps.as_bytes(), [0u8; 30].as_slice());
}

#[test]
fn empty_ramps() {
    let mut ramps = Ramps::new(0);
    assert_eq!(ramps.ramp_size(), 0);
    config(6500, 1_000_000).generate_ramps(&mut ramps);
    assert_eq!(ramps.ramp_size(), 0);
    assert!(ramps.as_bytes().is_empty());
}

#[test]
fn rgb_slices_write_through() {
    let mut ramps = Ramps::new(2);
    {
        let (red, green, blue) = ramps.rgb_slices();
        assert_eq!((red.len(), green.len(), blue.len()), (2, 2, 2));
        red[0] = 1;
        red[1] = 2;
        green[0] = 3;
        green[1] = 4;
        blue[0] = 5;
        blue[1] = 6;
    }
    let (red, green, blue) = ramps.channels();
    assert_eq!(red, [1u16, 2].as_slice());
    assert_eq!(green, [3u16, 4].as_slice());
    assert_eq!(blue, [5u16, 6].as_slice());
}

#[test]
fn generation_is_deterministic() {
    for (temperature, brightness) in [(6500, 1_000_000), (3500, 400_000), (1234, 567_890)] {
        let first = generated(temperature, brightness, 256);
        let second = generated(temperature, brightness, 256);
        assert_eq!(first.channels(), second.channels());
        assert_eq!(first.as_bytes(), second.as_bytes());
        // Filling a buffer again overwrites all of it with the same samples.
        let mut third = generated(25_000, 1, 256);
        config(temperature, brightness).generate_ramps(&mut third);
        assert_eq!(first.as_bytes(), third.as_bytes());
    }
}

#[test]
fn ramps_never_fall_and_start_at_zero() {
    for (temperature, brightness) in
        [(1000, 1_000_000), (3500, 400_000), (6500, 1_000_000), (25_000, 1), (9999, 333_333)]
    {
        for size in [1usize, 2, 7, 256, 1024] {
            let ramps = generated(temperature, brightness, size);
            let (red, green, blue) = ramps.channels();
            for channel in [red, green, blue] {
                assert_eq!(channel.len(), size);
                assert_eq!(channel[0], 0);
                for index in 1..size {
                    assert!(channel[index - 1] <= channel[index]);
                }
            }
        }
    }
}

#[test]
fn samples_stay_below_intensity_times_brightness() {
    for (temperature, brightness) in [(3500u32, 400_000u32), (6500, 1_000_000), (25_000, 750_000)]
    {
        let white_point = get_white_point(temperature).unwrap();
        let ramps = generated(temperature, brightness, 256);
        let (red, green, blue) = ramps.channels();
        let unit: u128 = 1_000_000 * 10_000_000_000;
        for (channel, intensity) in
            [(red, white_point.red), (green, white_point.green), (blue, white_point.blue)]
        {
            let ceiling: u128 = intensity as u128 * brightness as u128 * 65_536;
            for sample in channel {
                assert!(*sample as u128 * unit <= ceiling);
            }
            // The last sample comes within one step of the ceiling.
            let last = channel[255] as u128 * unit;
            assert!(ceiling - last <= ceiling / 256 + unit);
        }
    }
}

#[test]
fn neutral_ramps_are_one_straight_line() {
    let ramps = generated(6500, 1_000_000, 256);
    let (red, green, blue) = ramps.channels();
    assert_eq!(red, green);
    assert_eq!(red, blue);
    for index in 0..256usize {
        assert_eq!(red[index] as usize, index * 256);
    }
    assert_eq!(red[0], 0);
    assert_eq!(red[255], 65_280);
}

#[test]
fn neutral_ramps_of_odd_size() {
    let ramps = generated(6500, 1_000_000, 3);
    let (red, green, blue) = ramps.channels();
    assert_eq!(red, [0u16, 21_845, 43_690].as_slice());
    assert_eq!(green, [0u16, 21_845, 43_690].as_slice());
    assert_eq!(blue, [0u16, 21_845, 43_690].as_slice());
}

#[test]
fn warm_dim_ramps_exact_samples() {
    let ramps = generated(3500, 400_000, 4);
    let (red, green, blue) = ramps.channels();
    assert_eq!(red, [0u16, 6553, 13_107, 19_660].as_slice());
    assert_eq!(green, [0u16, 5111, 10_222, 15_333].as_slice());
    assert_eq!(blue, [0u16, 3581, 7162, 10_743].as_slice());
}

#[test]
fn warm_dim_ramps_scale_green_and_blue_below_red() {
    let ramps = generated(3500, 400_000, 256);
    let (red, green, blue) = ramps.channels();
    for index in 0..256usize {
        assert!(green[index] <= red[index]);
        assert!(blue[index] <= green[index]);
        if index > 0 {
            assert!(green[index] < red[index]);
            assert!(blue[index] < green[index]);
        }
    }
    assert_eq!((red[1], green[1], blue[1]), (102, 79, 55));
    assert_eq!((red[128], green[128], blue[128]), (13_107, 10_222, 7162));
    assert_eq!((red[255], green[255], blue[255]), (26_112, 20_364, 14_268));
    // Two fifths of the neutral ramp at full brightness.
    let neutral = generated(6500, 1_000_000, 256);
    let (neutral_red, _, _) = neutral.channels();
    assert_eq!(red[255] as u32 * 5, neutral_red[255] as u32 * 2);
}

#[test]
fn coldest_and_warmest_ramps() {
    let warm = generated(1000, 1_000_000, 256);
    let (red, green, blue) = warm.channels();
    assert_eq!((red[255], green[255], blue[255]), (65_280, 11_863, 0));
    assert!(blue.iter().all(|sample| *sample == 0));
    let cold = generated(25_000, 500_000, 256);
    let (red, green, blue) = cold.channels();
    assert_eq!((red[255], green[255], blue[255]), (20_489, 24_580, 32_640));
}

#[test]
fn zero_brightness_is_black() {
    let ramps = generated(6500, 0, 16);
    assert!(ramps.as_bytes().iter().all(|byte| *byte == 0));
}

#[test]
fn bytes_are_red_green_blue_in_native_order() {
    let ramps = generated(3500, 400_000, 4);
    let bytes = ramps.as_bytes();
    assert_eq!(bytes.len(), 6 * 4);
    let mut expected: Vec<u8> = Vec::new();
    for sample in [0u16, 6553, 13_107, 19_660, 0, 5111, 10_222, 15_333, 0, 3581, 7162, 10_743] {
        expected.extend_from_slice(&sample.to_ne_bytes());
    }
    assert_eq!(bytes, expected.as_slice());
}

#[test]
fn bytes_match_a_cast_of_the_channels() {
    let ramps = generated(4321, 876_543, 33);
    let (red, green, blue) = ramps.channels();
    let mut samples: Vec<u16> = Vec::new();
    samples.extend_from_slice(red);
    samples.extend_from_slice(green);
    samples.extend_from_slice(blue);
    let cast: &[u8] = bytemuck::cast_slice(&samples);
    assert_eq!(ramps.as_bytes(), cast);
    assert_eq!(ramps.as_bytes().len(), 6 * ramps.ramp_size());
}

#[test]
fn outputs_of_different_sizes_fill_independently() {
    let small = generated(3500, 400_000, 4);
    let large = generated(3500, 400_000, 1024);
    assert_eq!(small.ramp_size(), 4);
    assert_eq!(large.ramp_size(), 1024);
    assert_eq!(small.as_bytes().len(), 24);
    assert_eq!(large.as_bytes().len(), 6144);
    // The same fraction of the way along gives the same sample.
    let (small_red, _, _) = small.channels();
    let (large_red, _, _) = large.channels();
    for index in 0..4usize {
        assert_eq!(small_red[index], large_red[index * 256]);
    }
}
