//! The time of day, and the configuration that the schedule asks for at each:
//! warm at night, neutral by day, with a fade of half an hour after each of
//! the two turning points.

use crate::color::{Config, FULL_BRIGHTNESS};
use crate::util::{lemma_lerp_between, lemma_lerp_monotone, lerp, lerp_scaled};
use vstd::arithmetic::div_mod::{lemma_div_by_multiple, lemma_div_is_ordered};
use vstd::prelude::*;

verus! {

/// Nanoseconds in a second.
pub const NANOSECONDS_PER_SECOND: u64 = 1000000000;

/// Nanoseconds in a day.
pub const NANOSECONDS_PER_DAY: u64 = 86400000000000;

/// The colour temperature by day, in kelvins.
pub const DAY_TEMPERATURE: u32 = 6500;

/// The colour temperature by night, in kelvins.
pub const NIGHT_TEMPERATURE: u32 = 3500;

/// The brightness while dimmed, in millionths.
pub const DIMMED_BRIGHTNESS: u32 = 400000;

/// 07:45:00, when the fade from night to day begins, in nanoseconds since
/// midnight.
pub const DAYTIME_START: u64 = 27900000000000;

/// 19:45:00, when the fade from day to night begins, in nanoseconds since
/// midnight.
pub const DAYTIME_END: u64 = 71100000000000;

/// How long each of the two fades lasts: 30 minutes, in nanoseconds.
pub const FADE_TIME: u64 = 1800000000000;

/// A time of day, to the nanosecond, without a date or a time zone.
#[derive(Clone, Copy, Debug, PartialEq, Eq, Structural)]
pub struct TimeOfDay {
    hour: u8,
    minute: u8,
    second: u8,
    nanosecond: u32,
}

/// Whether four numbers are the hour, minute, second and nanosecond of a time
/// of day.
pub open spec fn is_time(hour: int, minute: int, second: int, nanosecond: int) -> bool {
    &&& 0 <= hour < 24
    &&& 0 <= minute < 60
    &&& 0 <= second < 60
    &&& 0 <= nanosecond < NANOSECONDS_PER_SECOND
}

/// The nanoseconds from midnight to a time of day.
pub open spec fn nanoseconds_at(hour: int, minute: int, second: int, nanosecond: int) -> int {
    ((hour * 60 + minute) * 60 + second) * NANOSECONDS_PER_SECOND + nanosecond
}

impl TimeOfDay {
    #[verifier::type_invariant]
    pub closed spec fn valid(self) -> bool {
        is_time(
            self.hour as int,
            self.minute as int,
            self.second as int,
            self.nanosecond as int,
        )
    }

    /// The nanoseconds since midnight.
    pub closed spec fn since_midnight(self) -> int {
        nanoseconds_at(
            self.hour as int,
            self.minute as int,
            self.second as int,
            self.nanosecond as int,
        )
    }

    /// A valid time of day lies within its day.
    pub proof fn lemma_within_day(self)
        requires
            self.valid(),
        ensures
            0 <= self.since_midnight() < NANOSECONDS_PER_DAY,
    {
    }

    /// The time of day at a whole second, if the three numbers name one.
    pub fn from_hms(hour: u8, minute: u8, second: u8) -> (time: Option<TimeOfDay>)
        ensures
            time is Some <==> is_time(hour as int, minute as int, second as int, 0),
            time matches Some(t) ==> t.valid() && t.since_midnight() == nanoseconds_at(
                hour as int,
                minute as int,
                second as int,
                0,
            ),
    {
        TimeOfDay::from_hms_nano(hour, minute, second, 0)
    }

    /// The time of day at a nanosecond, if the four numbers name one.
    pub fn from_hms_nano(hour: u8, minute: u8, second: u8, nanosecond: u32) -> (time: Option<
        TimeOfDay,
    >)
        ensures
            time is Some <==> is_time(
                hour as int,
                minute as int,
                second as int,
                nanosecond as int,
            ),
            time matches Some(t) ==> t.valid() && t.since_midnight() == nanoseconds_at(
                hour as int,
                minute as int,
                second as int,
                nanosecond as int,
            ),
    {
        if hour < 24 && minute < 60 && second < 60 && nanosecond < 1000000000 {
            Some(TimeOfDay { hour, minute, second, nanosecond })
        } else {
            None
        }
    }

    /// The time of day that many nanoseconds after midnight, if it is within
    /// the day.
    pub fn from_nanoseconds(since_midnight: u64) -> (time: Option<TimeOfDay>)
        ensures
            time is Some <==> since_midnight < NANOSECONDS_PER_DAY,
            time matches Some(t) ==> t.valid() && t.since_midnight() == since_midnight,
    {
        if since_midnight >= NANOSECONDS_PER_DAY {
            return None;
        }
        let nanosecond: u32 = (since_midnight % NANOSECONDS_PER_SECOND) as u32;
        let seconds: u64 = since_midnight / NANOSECONDS_PER_SECOND;
        let second: u8 = (seconds % 60) as u8;
        let minutes: u64 = seconds / 60;
        let minute: u8 = (minutes % 60) as u8;
        let hour: u8 = (minutes / 60) as u8;
        Some(TimeOfDay { hour, minute, second, nanosecond })
    }

    /// The nanoseconds since midnight.
    pub fn nanoseconds(self) -> (since_midnight: u64)
        ensures
            since_midnight == self.since_midnight(),
            since_midnight < NANOSECONDS_PER_DAY,
    {
        proof {
            use_type_invariant(self);
        }
        ((self.hour as u64 * 60 + self.minute as u64) * 60 + self.second as u64)
            * NANOSECONDS_PER_SECOND + self.nanosecond as u64
    }

    /// The hour, from 0 to 23.
    pub fn hour(self) -> (hour: u8)
        ensures
            hour == self.since_midnight() / 3600000000000,
    {
        proof {
            use_type_invariant(self);
        }
        self.hour
    }

    /// The minute within the hour.
    pub fn minute(self) -> (minute: u8)
        ensures
            minute == self.since_midnight() / 60000000000 % 60,
    {
        proof {
            use_type_invariant(self);
        }
        self.minute
    }

    /// The second within the minute.
    pub fn second(self) -> (second: u8)
        ensures
            second == self.since_midnight() / 1000000000 % 60,
    {
        proof {
            use_type_invariant(self);
        }
        self.second
    }

    /// The nanosecond within the second.
    pub fn nanosecond(self) -> (nanosecond: u32)
        ensures
            nanosecond == self.since_midnight() % 1000000000,
    {
        proof {
            use_type_invariant(self);
        }
        self.nanosecond
    }
}

/// Whether a time, in nanoseconds since midnight, falls into the fade that
/// begins at `start`. The fade takes in its first instant and leaves out its
/// last.
pub open spec fn fading(since_midnight: int, start: int) -> bool {
    start <= since_midnight < start + FADE_TIME
}

/// The colour temperature that the schedule asks for at a time of day, given
/// in nanoseconds since midnight.
///
/// From [`DAYTIME_START`] it rises in a straight line from night to day, and
/// from [`DAYTIME_END`] it falls back in the same way, each within
/// [`FADE_TIME`] and rounded down to whole kelvins. Between the two fades it
/// is that of the day, elsewhere that of the night.
pub open spec fn scheduled_temperature(since_midnight: int) -> int {
    if fading(since_midnight, DAYTIME_START as int) {
        lerp_scaled(
            NIGHT_TEMPERATURE as int,
            DAY_TEMPERATURE as int,
            since_midnight - DAYTIME_START,
            FADE_TIME as int,
        ) / (FADE_TIME as int)
    } else if fading(since_midnight, DAYTIME_END as int) {
        lerp_scaled(
            DAY_TEMPERATURE as int,
            NIGHT_TEMPERATURE as int,
            since_midnight - DAYTIME_END,
            FADE_TIME as int,
        ) / (FADE_TIME as int)
    } else if DAYTIME_START <= since_midnight <= DAYTIME_END {
        DAY_TEMPERATURE as int
    } else {
        NIGHT_TEMPERATURE as int
    }
}

/// The brightness that the schedule asks for: full, unless dimmed.
pub open spec fn scheduled_brightness(dimmed: bool) -> int {
    if dimmed {
        DIMMED_BRIGHTNESS as int
    } else {
        FULL_BRIGHTNESS as int
    }
}

/// The configuration that the schedule asks for at a time of day, given in
/// nanoseconds since midnight.
pub open spec fn scheduled_config(since_midnight: int, dimmed: bool) -> Config {
    Config::of(scheduled_temperature(since_midnight), scheduled_brightness(dimmed))
}

/// Part of the way through a fade the temperature lies between those of
/// night and day.
proof fn lemma_fade_between(from: int, to: int, step: int)
    requires
        0 <= step <= FADE_TIME,
        NIGHT_TEMPERATURE <= from <= DAY_TEMPERATURE,
        NIGHT_TEMPERATURE <= to <= DAY_TEMPERATURE,
    ensures
        NIGHT_TEMPERATURE <= lerp_scaled(from, to, step, FADE_TIME as int) / (FADE_TIME as int)
            <= DAY_TEMPERATURE,
{
    let fade = FADE_TIME as int;
    let scaled = lerp_scaled(from, to, step, fade);
    lemma_lerp_between(from, to, step, fade);
    assert(NIGHT_TEMPERATURE * fade <= scaled <= DAY_TEMPERATURE * fade) by (nonlinear_arith)
        requires
            from <= to ==> from * fade <= scaled <= to * fade,
            to <= from ==> to * fade <= scaled <= from * fade,
            NIGHT_TEMPERATURE <= from <= DAY_TEMPERATURE,
            NIGHT_TEMPERATURE <= to <= DAY_TEMPERATURE,
            0 < fade,
    ;
    lemma_div_is_ordered(NIGHT_TEMPERATURE * fade, scaled, fade);
    lemma_div_is_ordered(scaled, DAY_TEMPERATURE * fade, fade);
    lemma_div_by_multiple(NIGHT_TEMPERATURE as int, fade);
    lemma_div_by_multiple(DAY_TEMPERATURE as int, fade);
}

/// At every time of day the schedule asks for a temperature between those of
/// night and day.
pub proof fn lemma_scheduled_temperature_bounded(since_midnight: int)
    ensures
        NIGHT_TEMPERATURE <= scheduled_temperature(since_midnight) <= DAY_TEMPERATURE,
{
    if fading(since_midnight, DAYTIME_START as int) {
        lemma_fade_between(
            NIGHT_TEMPERATURE as int,
            DAY_TEMPERATURE as int,
            since_midnight - DAYTIME_START,
        );
    } else if fading(since_midnight, DAYTIME_END as int) {
        lemma_fade_between(
            DAY_TEMPERATURE as int,
            NIGHT_TEMPERATURE as int,
            since_midnight - DAYTIME_END,
        );
    }
}

/// What the scheduled configuration holds: the scheduled temperature and the
/// scheduled brightness, which always make a valid configuration.
pub proof fn lemma_scheduled_config(since_midnight: int, dimmed: bool)
    ensures
        scheduled_config(since_midnight, dimmed).temperature() == scheduled_temperature(
            since_midnight,
        ),
        scheduled_config(since_midnight, dimmed).brightness() == scheduled_brightness(dimmed),
        scheduled_config(since_midnight, dimmed).valid(),
{
    lemma_scheduled_temperature_bounded(since_midnight);
    Config::lemma_of(scheduled_temperature(since_midnight), scheduled_brightness(dimmed));
}

/// The schedule at its turning points: still night at 07:45, day from 08:15,
/// day at noon and still at 19:45, night again from 20:15; and full
/// brightness unless dimmed.
pub proof fn lemma_turning_points()
    ensures
        scheduled_temperature(nanoseconds_at(7, 45, 0, 0)) == NIGHT_TEMPERATURE,
        scheduled_temperature(nanoseconds_at(8, 15, 0, 0)) == DAY_TEMPERATURE,
        scheduled_temperature(nanoseconds_at(12, 0, 0, 0)) == DAY_TEMPERATURE,
        scheduled_temperature(nanoseconds_at(19, 45, 0, 0)) == DAY_TEMPERATURE,
        scheduled_temperature(nanoseconds_at(20, 15, 0, 0)) == NIGHT_TEMPERATURE,
        scheduled_brightness(false) == FULL_BRIGHTNESS,
        scheduled_brightness(true) == DIMMED_BRIGHTNESS,
{
    let fade = FADE_TIME as int;
    lemma_lerp_between(NIGHT_TEMPERATURE as int, DAY_TEMPERATURE as int, 0, fade);
    lemma_lerp_between(DAY_TEMPERATURE as int, NIGHT_TEMPERATURE as int, 0, fade);
    lemma_div_by_multiple(NIGHT_TEMPERATURE as int, fade);
    lemma_div_by_multiple(DAY_TEMPERATURE as int, fade);
}

/// From the start of the morning fade to the start of the evening fade the
/// scheduled temperature never falls.
pub proof fn lemma_morning_rises(earlier: int, later: int)
    requires
        DAYTIME_START <= earlier <= later <= DAYTIME_END,
    ensures
        scheduled_temperature(earlier) <= scheduled_temperature(later),
{
    let fade = FADE_TIME as int;
    lemma_scheduled_temperature_bounded(earlier);
    lemma_scheduled_temperature_bounded(later);
    if fading(later, DAYTIME_START as int) {
        lemma_lerp_monotone(
            NIGHT_TEMPERATURE as int,
            DAY_TEMPERATURE as int,
            earlier - DAYTIME_START,
            later - DAYTIME_START,
            fade,
        );
        lemma_div_is_ordered(
            lerp_scaled(
                NIGHT_TEMPERATURE as int,
                DAY_TEMPERATURE as int,
                earlier - DAYTIME_START,
                fade,
            ),
            lerp_scaled(
                NIGHT_TEMPERATURE as int,
                DAY_TEMPERATURE as int,
                later - DAYTIME_START,
                fade,
            ),
            fade,
        );
    }
}

/// From the start of the evening fade on the scheduled temperature never
/// rises.
pub proof fn lemma_evening_falls(earlier: int, later: int)
    requires
        DAYTIME_END <= earlier <= later,
    ensures
        scheduled_temperature(later) <= scheduled_temperature(earlier),
{
    let fade = FADE_TIME as int;
    lemma_scheduled_temperature_bounded(earlier);
    lemma_scheduled_temperature_bounded(later);
    if fading(later, DAYTIME_END as int) {
        lemma_lerp_monotone(
            DAY_TEMPERATURE as int,
            NIGHT_TEMPERATURE as int,
            earlier - DAYTIME_END,
            later - DAYTIME_END,
            fade,
        );
        lemma_div_is_ordered(
            lerp_scaled(
                DAY_TEMPERATURE as int,
                NIGHT_TEMPERATURE as int,
                later - DAYTIME_END,
                fade,
            ),
            lerp_scaled(
                DAY_TEMPERATURE as int,
                NIGHT_TEMPERATURE as int,
                earlier - DAYTIME_END,
                fade,
            ),
            fade,
        );
    }
}

/// The temperature part of the way through a fade.
fn fade(from: u32, to: u32, elapsed: u64) -> (temperature: u32)
    requires
        elapsed <= FADE_TIME,
        NIGHT_TEMPERATURE <= from <= DAY_TEMPERATURE,
        NIGHT_TEMPERATURE <= to <= DAY_TEMPERATURE,
    ensures
        temperature == lerp_scaled(from as int, to as int, elapsed as int, FADE_TIME as int) / (
        FADE_TIME as int),
        NIGHT_TEMPERATURE <= temperature <= DAY_TEMPERATURE,
{
    proof {
        lemma_fade_between(from as int, to as int, elapsed as int);
        lemma_lerp_between(from as int, to as int, elapsed as int, FADE_TIME as int);
    }
    let scaled: i128 = lerp(from, to, elapsed, FADE_TIME);
    assert(scaled >= 0) by (nonlinear_arith)
        requires
            from <= to ==> from * FADE_TIME <= scaled,
            to <= from ==> to * FADE_TIME <= scaled,
            0 <= from,
            0 <= to,
    ;
    (scaled / (FADE_TIME as i128)) as u32
}

/// The configuration that the schedule asks for at a time of day.
pub fn get_config(time: TimeOfDay, dimmed: bool) -> (config: Config)
    ensures
        config == scheduled_config(time.since_midnight(), dimmed),
        config.temperature() == scheduled_temperature(time.since_midnight()),
        config.brightness() == scheduled_brightness(dimmed),
        config.valid(),
{
    let since_midnight: u64 = time.nanoseconds();
    let temperature: u32 = if DAYTIME_START <= since_midnight && since_midnight - DAYTIME_START
        < FADE_TIME {
        fade(NIGHT_TEMPERATURE, DAY_TEMPERATURE, since_midnight - DAYTIME_START)
    } else if DAYTIME_END <= since_midnight && since_midnight - DAYTIME_END < FADE_TIME {
        fade(DAY_TEMPERATURE, NIGHT_TEMPERATURE, since_midnight - DAYTIME_END)
    } else if DAYTIME_START <= since_midnight && since_midnight <= DAYTIME_END {
        DAY_TEMPERATURE
    } else {
        NIGHT_TEMPERATURE
    };
    let brightness: u32 = if dimmed {
        DIMMED_BRIGHTNESS
    } else {
        FULL_BRIGHTNESS
    };
    Config::new(temperature, brightness).unwrap()
}

} // verus!
