//! Local time as the schedule wants it: the time of day in the zone that the
//! system reports, with daylight saving time taken out again.

use crate::schedule::{TimeOfDay, NANOSECONDS_PER_DAY, NANOSECONDS_PER_SECOND};
use vstd::arithmetic::div_mod::{lemma_fundamental_div_mod, lemma_mod_multiples_vanish};
use vstd::prelude::*;

verus! {

/// Seconds in a day.
pub const SECONDS_PER_DAY: i64 = 86400;

/// By how many seconds daylight saving time moves the clock forward.
pub const DST_SHIFT: i64 = 3600;

/// What the time service of the system knows of local time at the moment, in
/// the form in which the schedule uses it: how far local time is ahead of UTC,
/// and whether that includes daylight saving time.
#[derive(Clone, Copy, Debug, PartialEq, Eq, Structural)]
pub struct DbusTime {
    /// Seconds that local time is ahead of UTC; negative where it is behind.
    pub ut_offset: i32,
    /// Whether daylight saving time is in force.
    pub is_dst: bool,
}

impl DbusTime {
    /// The time zone with the given offset from UTC in seconds.
    pub fn new(ut_offset: i32, is_dst: bool) -> (zone: DbusTime)
        ensures
            zone.ut_offset == ut_offset,
            zone.is_dst == is_dst,
    {
        DbusTime { ut_offset, is_dst }
    }

    /// The offset of the zone's standard time from UTC, in seconds: the
    /// offset in force, less the shift of daylight saving time where that is
    /// part of it.
    pub open spec fn standard_offset(self) -> int {
        if self.is_dst {
            self.ut_offset - DST_SHIFT
        } else {
            self.ut_offset as int
        }
    }

    /// The standard time of the zone, in nanoseconds since its midnight, at
    /// the moment that is `utc` nanoseconds past midnight in UTC.
    pub open spec fn standard_time(self, utc: int) -> int {
        (utc + self.standard_offset() * NANOSECONDS_PER_SECOND) % (NANOSECONDS_PER_DAY as int)
    }

    /// The local time of day at the moment at which it is `utc` in UTC.
    /// Daylight saving time is left out of it, so that the schedule keeps to
    /// standard time throughout the year.
    pub fn get_time(&self, utc: TimeOfDay) -> (time: TimeOfDay)
        ensures
            time.valid(),
            time.since_midnight() == self.standard_time(utc.since_midnight()),
    {
        let offset: i64 = if self.is_dst {
            self.ut_offset as i64 - DST_SHIFT
        } else {
            self.ut_offset as i64
        };
        // A whole number of days that lifts every offset above zero.
        let lifted: u64 = (offset + 24856 * SECONDS_PER_DAY) as u64;
        let ahead: u64 = lifted % 86400;
        let local: u64 = (utc.nanoseconds() + ahead * NANOSECONDS_PER_SECOND)
            % NANOSECONDS_PER_DAY;
        proof {
            let day = NANOSECONDS_PER_DAY as int;
            let days = lifted as int / 86400 - 24856;
            lemma_fundamental_div_mod(lifted as int, 86400);
            assert(utc.since_midnight() + ahead * NANOSECONDS_PER_SECOND == day * (-days) + (
            utc.since_midnight() + offset * NANOSECONDS_PER_SECOND)) by (nonlinear_arith)
                requires
                    lifted == offset + 24856 * 86400,
                    lifted == 86400 * (lifted as int / 86400) + ahead,
                    days == lifted as int / 86400 - 24856,
                    day == 86400 * NANOSECONDS_PER_SECOND,
            ;
            lemma_mod_multiples_vanish(
                -days,
                utc.since_midnight() + offset * NANOSECONDS_PER_SECOND,
                day,
            );
        }
        TimeOfDay::from_nanoseconds(local).unwrap()
    }
}

} // verus!
