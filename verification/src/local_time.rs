//! A moment of the local civil calendar, as the scheduler reads it.

use chrono::{Datelike, TimeZone};
use vstd::prelude::*;

verus! {

/// A moment in time together with the local calendar date it falls on.
#[derive(Copy, Clone, PartialEq, Eq, Debug)]
pub struct LocalTime {
    /// Seconds since the epoch.
    pub timestamp: i64,
    /// The fraction of the second that has passed, in nanoseconds.
    pub nanos: u32,
    pub year: i32,
    pub month: u32,
    pub day: u32,
    /// The day of the week, 0 for Monday up to 6 for Sunday.
    pub weekday: u32,
}

impl LocalTime {
    /// The weekday is one of the seven.
    pub open spec fn valid(self) -> bool {
        self.weekday < 7
    }

    /// Whether the weekday is one of the seven.
    pub fn is_valid(&self) -> (b: bool)
        ensures
            b == self.valid(),
    {
        self.weekday < 7
    }

    /// The moment `timestamp` seconds and `nanos` nanoseconds after the
    /// epoch, which falls on the given local date and weekday. `None` if
    /// `weekday` is not below 7.
    pub fn new(timestamp: i64, nanos: u32, year: i32, month: u32, day: u32, weekday: u32) -> (r:
        Option<LocalTime>)
        ensures
            r == if weekday < 7 {
                Some(LocalTime { timestamp, nanos, year, month, day, weekday })
            } else {
                None
            },
    {
        if weekday < 7 {
            Some(LocalTime { timestamp, nanos, year, month, day, weekday })
        } else {
            None
        }
    }

    /// Whether `timestamp`, on a second boundary, is this moment or later.
    pub open spec fn at_or_before(self, timestamp: int) -> bool {
        timestamp > self.timestamp || (timestamp == self.timestamp && self.nanos == 0)
    }

    /// Whether the moment `timestamp` seconds after the epoch is this moment
    /// or a later one.
    pub fn is_at_or_before(&self, timestamp: i64) -> (b: bool)
        ensures
            b == self.at_or_before(timestamp as int),
    {
        timestamp > self.timestamp || (timestamp == self.timestamp && self.nanos == 0)
    }

    /// Whether the numbers name a time of day: `hour` in 0..=23, `min` and
    /// `sec` in 0..=59.
    pub open spec fn is_time_of_day(hour: int, min: int, sec: int) -> bool {
        &&& 0 <= hour <= 23
        &&& 0 <= min <= 59
        &&& 0 <= sec <= 59
    }

    /// What the local calendar is asked for the given time of day on this
    /// moment's local date: year, month, day, hour, minute and second.
    /// `None` if the numbers name no time of day.
    pub fn today_request(&self, hour: i8, min: i8, sec: i8) -> (r: Option<
        (i32, u32, u32, u32, u32, u32),
    >)
        ensures
            r == if Self::is_time_of_day(hour as int, min as int, sec as int) {
                Some((self.year, self.month, self.day, hour as u32, min as u32, sec as u32))
            } else {
                None
            },
    {
        if 0 <= hour && hour <= 23 && 0 <= min && min <= 59 && 0 <= sec && sec <= 59 {
            Some((self.year, self.month, self.day, hour as u32, min as u32, sec as u32))
        } else {
            None
        }
    }

    /// The timestamp of the given time of day on this moment's local date:
    /// what the local calendar answers to `today_request`. `None` if the
    /// numbers name no time of day, or if the local calendar has no such
    /// time on that date or has it twice.
    pub fn today_at(&self, hour: i8, min: i8, sec: i8) -> (r: Option<i64>)
        ensures
            !Self::is_time_of_day(hour as int, min as int, sec as int) ==> r is None,
    {
        match self.today_request(hour, min, sec) {
            Some(request) => local_timestamp(request),
            None => None,
        }
    }
}

/// `chrono::Local::now`, read field by field. The contract claims only that
/// the weekday number, which `Weekday::num_days_from_monday` gives, is below
/// 7.
#[verifier::external_body]
pub(crate) fn local_now() -> (t: LocalTime)
    ensures
        t.valid(),
{
    let now = chrono::Local::now();
    LocalTime {
        timestamp: now.timestamp(),
        nanos: now.timestamp_subsec_nanos(),
        year: now.year(),
        month: now.month(),
        day: now.day(),
        weekday: now.weekday().num_days_from_monday(),
    }
}

/// `TimeZone::with_ymd_and_hms` on `chrono::Local`, asked for the year,
/// month, day, hour, minute and second of `request` and reduced to the
/// timestamp of its single result. The contract claims only that there is no
/// result for an hour above 23 or a minute or second above 59. What the
/// result is depends on the time zone of the machine.
#[verifier::external_body]
fn local_timestamp(request: (i32, u32, u32, u32, u32, u32)) -> (r: Option<i64>)
    ensures
        request.3 > 23 || request.4 > 59 || request.5 > 59 ==> r is None,
{
    let (year, month, day, hour, min, sec) = request;
    let t = chrono::Local.with_ymd_and_hms(year, month, day, hour, min, sec).single()?;
    Some(t.timestamp())
}

} // verus!
