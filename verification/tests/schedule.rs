use night_gamma::dbus_time::DbusTime;
use night_gamma::schedule::{get_config, TimeOfDay};

fn at(hour: u8, minute: u8, second: u8) -> TimeOfDay {
    TimeOfDay::from_hms(hour, minute, second).unwrap()
}

fn temperature_at(hour: u8, minute: u8, second: u8) -> u32 {
    get_config(at(hour, minute, second), false).temperature()
}

#[test]
fn time_of_day_from_parts() {
    let time = TimeOfDay::from_hms_nano(7, 45, 30, 123_456_789).unwrap();
    assert_eq!(time.hour(), 7);
    assert_eq!(time.minute(), 45);
    assert_eq!(time.second(), 30);
    assert_eq!(time.nanosecond(), 123_456_789);
    assert_eq!(time.nanoseconds(), 27_930_123_456_789);
    assert_eq!(at(0, 0, 0).nanoseconds(), 0);
    assert_eq!(at(23, 59, 59).nanoseconds(), 86_399_000_000_000);
}

#[test]
fn time_of_day_refuses_what_is_no_time() {
    assert!(TimeOfDay::from_hms(24, 0, 0).is_none());
    assert!(TimeOfDay::from_hms(0, 60, 0).is_none());
    assert!(TimeOfDay::from_hms(0, 0, 60).is_none());
    assert!(TimeOfDay::from_hms_nano(0, 0, 0, 1_000_000_000).is_none());
    assert!(TimeOfDay::from_hms_nano(23, 59, 59, 999_999_999).is_some());
    assert!(TimeOfDay::from_nanoseconds(86_400_000_000_000).is_none());
    assert!(TimeOfDay::from_nanoseconds(u64::MAX).is_none());
}

#[test]
fn time_of_day_from_nanoseconds_round_trips() {
    for since_midnight in [0u64, 1, 999_999_999, 27_900_000_000_000, 86_399_999_999_999] {
        let time = TimeOfDay::from_nanoseconds(since_midnight).unwrap();
        assert_eq!(time.nanoseconds(), since_midnight);
    }
    let time = TimeOfDay::from_nanoseconds(71_100_000_000_001).unwrap();
    assert_eq!((time.hour(), time.minute(), time.second(), time.nanosecond()), (19, 45, 0, 1));
    assert_eq!(time, TimeOfDay::from_hms_nano(19, 45, 0, 1).unwrap());
}

#[test]
fn schedule_turning_points() {
    assert_eq!(temperature_at(7, 45, 0), 3500);
    assert_eq!(temperature_at(8, 15, 0), 6500);
    assert_eq!(temperature_at(12, 0, 0), 6500);
    assert_eq!(get_config(at(12, 0, 0), false).brightness(), 1_000_000);
    assert_eq!(temperature_at(20, 15, 0), 3500);
}

#[test]
fn schedule_night_and_day_are_flat() {
    assert_eq!(temperature_at(0, 0, 0), 3500);
    assert_eq!(temperature_at(3, 30, 0), 3500);
    assert_eq!(temperature_at(7, 44, 59), 3500);
    assert_eq!(temperature_at(8, 15, 1), 6500);
    assert_eq!(temperature_at(16, 0, 0), 6500);
    assert_eq!(temperature_at(19, 44, 59), 6500);
    assert_eq!(temperature_at(19, 45, 0), 6500);
    assert_eq!(temperature_at(20, 15, 1), 3500);
    assert_eq!(temperature_at(23, 59, 59), 3500);
}

#[test]
fn schedule_fades_in_a_straight_line() {
    assert_eq!(temperature_at(7, 45, 1), 3501);
    assert_eq!(temperature_at(8, 0, 0), 5000);
    assert_eq!(temperature_at(8, 14, 59), 6498);
    assert_eq!(temperature_at(19, 45, 1), 6498);
    assert_eq!(temperature_at(20, 0, 0), 5000);
    assert_eq!(temperature_at(20, 14, 59), 3501);
}

#[test]
fn schedule_rounds_down_to_whole_kelvins() {
    let config = |nanosecond: u32| {
        get_config(TimeOfDay::from_hms_nano(7, 45, 0, nanosecond).unwrap(), false)
    };
    assert_eq!(config(599_999_999).temperature(), 3500);
    assert_eq!(config(600_000_000).temperature(), 3501);
    let evening = get_config(TimeOfDay::from_hms_nano(19, 45, 0, 1).unwrap(), false);
    assert_eq!(evening.temperature(), 6499);
}

#[test]
fn schedule_fades_never_turn_back() {
    let mut last = 3500;
    for second in 0..1800u64 {
        let time = TimeOfDay::from_nanoseconds((27_900 + second) * 1_000_000_000).unwrap();
        let temperature = get_config(time, false).temperature();
        assert!(last <= temperature && temperature <= 6500);
        last = temperature;
    }
    let mut last = 6500;
    for second in 0..1800u64 {
        let time = TimeOfDay::from_nanoseconds((71_100 + second) * 1_000_000_000).unwrap();
        let temperature = get_config(time, false).temperature();
        assert!(3500 <= temperature && temperature <= last);
        last = temperature;
    }
}

#[test]
fn schedule_brightness_follows_dimming() {
    for time in [at(3, 0, 0), at(8, 0, 0), at(12, 0, 0), at(20, 0, 0)] {
        assert_eq!(get_config(time, false).brightness(), 1_000_000);
        assert_eq!(get_config(time, true).brightness(), 400_000);
        assert_eq!(
            get_config(time, true).temperature(),
            get_config(time, false).temperature()
        );
    }
}

#[test]
fn local_time_without_daylight_saving() {
    // One hour east of UTC, in winter.
    let zone = DbusTime::new(3600, false);
    assert_eq!(zone.get_time(at(6, 45, 0)), at(7, 45, 0));
    assert_eq!(zone.get_time(at(23, 30, 0)), at(0, 30, 0));
}

#[test]
fn local_time_takes_daylight_saving_out() {
    // The same zone in summer: two hours ahead, of which one is daylight saving time.
    let zone = DbusTime::new(7200, true);
    assert_eq!(zone.get_time(at(6, 45, 0)), at(7, 45, 0));
    assert_eq!(zone.get_time(at(23, 30, 0)), at(0, 30, 0));
}

#[test]
fn local_time_west_of_utc() {
    let zone = DbusTime::new(-18_000, false);
    assert_eq!(zone.get_time(at(3, 0, 0)), at(22, 0, 0));
    assert_eq!(zone.get_time(at(5, 0, 0)), at(0, 0, 0));
    let summer = DbusTime::new(-14_400, true);
    assert_eq!(summer.get_time(at(3, 0, 0)), at(22, 0, 0));
}

#[test]
fn local_time_keeps_the_fraction_of_the_second() {
    let zone = DbusTime::new(19_800, false);
    let utc = TimeOfDay::from_hms_nano(20, 0, 1, 987_654_321).unwrap();
    assert_eq!(zone.get_time(utc), TimeOfDay::from_hms_nano(1, 30, 1, 987_654_321).unwrap());
}

#[test]
fn local_time_with_extreme_offsets() {
    let utc = at(12, 0, 0);
    // i32::MAX seconds are 24855 days, 3 hours, 14 minutes and 7 seconds.
    assert_eq!(DbusTime::new(i32::MAX, false).get_time(utc), at(15, 14, 7));
    assert_eq!(DbusTime::new(i32::MAX, true).get_time(utc), at(14, 14, 7));
    // i32::MIN seconds are one second more the other way.
    assert_eq!(DbusTime::new(i32::MIN, false).get_time(utc), at(8, 45, 52));
    assert_eq!(DbusTime::new(i32::MIN, true).get_time(utc), at(7, 45, 52));
    assert_eq!(DbusTime::new(0, false).get_time(utc), utc);
}
