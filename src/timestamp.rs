//! Wire timestamps and their conversion to and from calendar dates and UTC
//! instants.
use vstd::prelude::*;

use chrono::Datelike;

use crate::error::SdkError;

verus! {

/// Seconds in one UTC day.
pub const SECONDS_PER_DAY: i64 = 86_400;

/// Nanoseconds in one second.
pub const NANOS_PER_SECOND: i32 = 1_000_000_000;

/// Day number of 1970-01-01, counting 0001-01-01 as day 1.
pub const UNIX_EPOCH_DAY: i64 = 719_163;

/// Day number of the first representable date, January 1 of 262144 BCE.
pub const MIN_DAY: i32 = -95_746_129;

/// Day number of the last representable date, December 31 of 262142 CE.
pub const MAX_DAY: i32 = 95_745_399;

/// A point in time on the wire: `seconds` since 1970-01-01T00:00:00Z, plus `nanos`.
#[derive(Clone, Copy, Debug, PartialEq, Eq, Structural)]
pub struct Timestamp {
    pub seconds: i64,
    pub nanos: i32,
}

/// `day` is the number of a representable date.
pub open spec fn day_in_range(day: int) -> bool {
    MIN_DAY <= day <= MAX_DAY
}

/// The number of the UTC day that holds the second `seconds`.
pub open spec fn day_of_second(seconds: int) -> int {
    seconds / (SECONDS_PER_DAY as int) + UNIX_EPOCH_DAY
}

/// The second at which day `day` begins, at midnight UTC.
pub open spec fn midnight_second(day: int) -> int {
    (day - UNIX_EPOCH_DAY) * SECONDS_PER_DAY
}

/// The wire timestamp names a representable instant: its nanos lie in
/// `[0, 10^9)` and its day is a representable date.
pub open spec fn timestamp_valid(ts: Timestamp) -> bool {
    &&& 0 <= ts.nanos < NANOS_PER_SECOND
    &&& day_in_range(day_of_second(ts.seconds as int))
}

/// The error for a timestamp that names no representable instant.
pub open spec fn invalid_timestamp(ts: Timestamp) -> SdkError {
    SdkError::InvalidTimestamp { seconds: ts.seconds, nanos: ts.nanos }
}

/// First year of the representable range (262144 BCE).
pub const MIN_YEAR: i32 = -262_143;

/// Last year of the representable range.
pub const MAX_YEAR: i32 = 262_142;

/// A leap year of the proleptic Gregorian calendar.
pub open spec fn is_leap_year(year: int) -> bool {
    year % 4 == 0 && (year % 100 != 0 || year % 400 == 0)
}

/// The number of days in `month` (1 to 12) of `year`.
pub open spec fn days_in_month(year: int, month: int) -> int {
    if month == 2 {
        if is_leap_year(year) {
            29
        } else {
            28
        }
    } else if month == 4 || month == 6 || month == 9 || month == 11 {
        30
    } else {
        31
    }
}

/// The days of `year` in the months before `month`.
pub open spec fn days_before_month(year: int, month: int) -> int
    decreases month,
{
    if month <= 1 {
        0
    } else {
        days_before_month(year, month - 1) + days_in_month(year, month - 1)
    }
}

/// The days from 0001-01-01 up to the first of January of `year`, that day
/// left out (negative before year 1; year 0 is 1 BCE).
pub open spec fn days_before_year(year: int) -> int {
    let y = year - 1;
    365 * y + y / 4 - y / 100 + y / 400
}

/// The day number of `year`-`month`-`day` in the proleptic Gregorian
/// calendar, counting 0001-01-01 as day 1, or none where the month or the day
/// does not exist or the year is out of range.
pub open spec fn ymd_day_number(year: int, month: int, day: int) -> Option<int> {
    if MIN_YEAR <= year <= MAX_YEAR && 1 <= month <= 12 && 1 <= day <= days_in_month(
        year,
        month,
    ) {
        Some(days_before_year(year) + days_before_month(year, month) + day)
    } else {
        None
    }
}

/// Relies on chrono's `NaiveDate::from_ymd_opt`, which gives no date where the
/// month or the day does not exist or the year is out of range, and on
/// `num_days_from_ce`, the day number of the date it made.
#[verifier::external_body]
fn day_number_of_ymd(year: i32, month: u32, day: u32) -> (r: Option<i32>)
    ensures
        match r {
            Some(n) => ymd_day_number(year as int, month as int, day as int) == Some(n as int)
                && day_in_range(n as int),
            None => ymd_day_number(year as int, month as int, day as int) is None,
        },
{
    match chrono::NaiveDate::from_ymd_opt(year, month, day) {
        Some(date) => Some(date.num_days_from_ce()),
        None => None,
    }
}

/// Relies on chrono's `DateTime::<Utc>::from_timestamp`, which splits `seconds`
/// into a day (`div_euclid(86_400) + 719_163`) and a second of that day, and gives
/// an instant exactly when that day is a representable date (for `nanos` under
/// `10^9`); and on `date_naive().num_days_from_ce()`, the number of that day.
#[verifier::external_body]
fn utc_day_number(seconds: i64, nanos: u32) -> (r: Option<i32>)
    requires
        nanos < 1_000_000_000,
    ensures
        r == (if day_in_range(day_of_second(seconds as int)) {
            Some(day_of_second(seconds as int) as i32)
        } else {
            None
        }),
{
    match chrono::DateTime::<chrono::Utc>::from_timestamp(seconds, nanos) {
        Some(instant) => Some(instant.date_naive().num_days_from_ce()),
        None => None,
    }
}

/// Relies on chrono's `NaiveDate::from_num_days_from_ce_opt`, which gives a date
/// for every day number in range, and on `and_hms_opt(0, 0, 0)` with
/// `and_utc().timestamp()`, which counts `(day - 719_163) * 86_400` seconds at
/// midnight.
#[verifier::external_body]
fn midnight_seconds(day: i32) -> (r: i64)
    requires
        day_in_range(day as int),
    ensures
        r == midnight_second(day as int),
{
    let date = chrono::NaiveDate::from_num_days_from_ce_opt(day).unwrap();
    date.and_hms_opt(0, 0, 0).unwrap().and_utc().timestamp()
}

/// A Gregorian date with no time of day.
#[derive(Clone, Copy, Debug, PartialEq, Eq, Structural)]
pub struct CalendarDate {
    day: i32,
}

impl View for CalendarDate {
    type V = int;

    /// The day number, counting 0001-01-01 as day 1.
    closed spec fn view(&self) -> int {
        self.day as int
    }
}

impl CalendarDate {
    #[verifier::type_invariant]
    spec fn inv(self) -> bool {
        day_in_range(self.day as int)
    }

    /// The date `year`-`month`-`day`, if it exists and is in range.
    pub fn from_ymd_opt(year: i32, month: u32, day: u32) -> (r: Option<CalendarDate>)
        ensures
            match r {
                Some(d) => ymd_day_number(year as int, month as int, day as int) == Some(d@),
                None => ymd_day_number(year as int, month as int, day as int) is None,
            },
    {
        match day_number_of_ymd(year, month, day) {
            Some(n) => Some(CalendarDate { day: n }),
            None => None,
        }
    }

    /// The date with day number `days`, counting 0001-01-01 as day 1.
    pub fn from_num_days_from_ce_opt(days: i32) -> (r: Option<CalendarDate>)
        ensures
            r is Some <==> day_in_range(days as int),
            r matches Some(d) ==> d@ == days,
    {
        if MIN_DAY <= days && days <= MAX_DAY {
            Some(CalendarDate { day: days })
        } else {
            None
        }
    }

    /// The day number, counting 0001-01-01 as day 1.
    pub fn num_days_from_ce(&self) -> (r: i32)
        ensures
            r == self@,
            day_in_range(r as int),
    {
        proof {
            use_type_invariant(self);
        }
        self.day
    }
}

/// A UTC point in time with nanosecond precision.
#[derive(Clone, Copy, Debug, PartialEq, Eq, Structural)]
pub struct UtcInstant {
    seconds: i64,
    nanos: u32,
}

impl View for UtcInstant {
    type V = (int, int);

    /// Seconds since 1970-01-01T00:00:00Z, and the nanoseconds past that second.
    closed spec fn view(&self) -> (int, int) {
        (self.seconds as int, self.nanos as int)
    }
}

impl UtcInstant {
    #[verifier::type_invariant]
    spec fn inv(self) -> bool {
        &&& self.nanos < 1_000_000_000
        &&& day_in_range(day_of_second(self.seconds as int))
    }

    /// The instant `seconds` and `nanos` after the epoch, if `nanos` is under
    /// `10^9` and its day is a representable date.
    pub fn from_timestamp(seconds: i64, nanos: u32) -> (r: Option<UtcInstant>)
        ensures
            r is Some <==> (nanos < 1_000_000_000 && day_in_range(day_of_second(seconds as int))),
            r matches Some(t) ==> t@ == (seconds as int, nanos as int),
    {
        if nanos >= 1_000_000_000 {
            return None;
        }
        match utc_day_number(seconds, nanos) {
            Some(_) => Some(UtcInstant { seconds, nanos }),
            None => None,
        }
    }

    /// Whole seconds since the epoch, rounded down.
    pub fn timestamp(&self) -> (r: i64)
        ensures
            r == self@.0,
            day_in_range(day_of_second(r as int)),
    {
        proof {
            use_type_invariant(self);
        }
        self.seconds
    }

    /// Nanoseconds past the whole second.
    pub fn timestamp_subsec_nanos(&self) -> (r: u32)
        ensures
            r == self@.1,
            r < 1_000_000_000,
    {
        proof {
            use_type_invariant(self);
        }
        self.nanos
    }
}

/// The wire timestamp of midnight UTC at the start of `date`.
pub fn naive_date_to_timestamp(date: CalendarDate) -> (r: Timestamp)
    ensures
        r.seconds == midnight_second(date@),
        r.nanos == 0,
{
    proof {
        use_type_invariant(&date);
    }
    Timestamp { seconds: midnight_seconds(date.day), nanos: 0 }
}

/// The date that holds the instant `timestamp`, its time of day dropped.
pub fn timestamp_to_naive_date(timestamp: &Timestamp) -> (r: Result<CalendarDate, SdkError>)
    ensures
        match r {
            Ok(d) => timestamp_valid(*timestamp) && d@ == day_of_second(timestamp.seconds as int),
            Err(e) => !timestamp_valid(*timestamp) && e == invalid_timestamp(*timestamp),
        },
{
    if timestamp.nanos < 0 || timestamp.nanos >= NANOS_PER_SECOND {
        return Err(SdkError::InvalidTimestamp { seconds: timestamp.seconds, nanos: timestamp.nanos });
    }
    match utc_day_number(timestamp.seconds, timestamp.nanos as u32) {
        Some(day) => Ok(CalendarDate { day }),
        None => Err(SdkError::InvalidTimestamp { seconds: timestamp.seconds, nanos: timestamp.nanos }),
    }
}

/// The wire timestamp of `datetime`, to the nanosecond.
pub fn datetime_utc_to_timestamp(datetime: UtcInstant) -> (r: Timestamp)
    ensures
        r.seconds == datetime@.0,
        r.nanos == datetime@.1,
{
    proof {
        use_type_invariant(&datetime);
    }
    Timestamp { seconds: datetime.seconds, nanos: datetime.nanos as i32 }
}

/// The instant that `timestamp` names, to the nanosecond.
pub fn timestamp_to_datetime_utc(timestamp: &Timestamp) -> (r: Result<UtcInstant, SdkError>)
    ensures
        match r {
            Ok(t) => timestamp_valid(*timestamp) && t@ == (
                timestamp.seconds as int,
                timestamp.nanos as int,
            ),
            Err(e) => !timestamp_valid(*timestamp) && e == invalid_timestamp(*timestamp),
        },
{
    if timestamp.nanos < 0 || timestamp.nanos >= NANOS_PER_SECOND {
        return Err(SdkError::InvalidTimestamp { seconds: timestamp.seconds, nanos: timestamp.nanos });
    }
    match UtcInstant::from_timestamp(timestamp.seconds, timestamp.nanos as u32) {
        Some(t) => Ok(t),
        None => Err(SdkError::InvalidTimestamp { seconds: timestamp.seconds, nanos: timestamp.nanos }),
    }
}


/// The day of the second `midnight_second(day) + offset` is `day`, for every
/// offset within that day.
proof fn lemma_day_of_second_in_day(day: int, offset: int)
    requires
        0 <= offset < SECONDS_PER_DAY,
    ensures
        day_of_second(midnight_second(day) + offset) == day,
{
    vstd::arithmetic::div_mod::lemma_fundamental_div_mod_converse(
        midnight_second(day) + offset,
        SECONDS_PER_DAY as int,
        day - UNIX_EPOCH_DAY,
        offset,
    );
}

/// Round trip of dates: the timestamp of a date's midnight is valid and
/// converts back to the same date.
pub proof fn lemma_date_round_trip(date: CalendarDate)
    requires
        day_in_range(date@),
    ensures
        ({
            let ts = Timestamp { seconds: midnight_second(date@) as i64, nanos: 0 };
            &&& ts.seconds == midnight_second(date@)
            &&& timestamp_valid(ts)
            &&& day_of_second(ts.seconds as int) == date@
        }),
        forall|other: CalendarDate| other@ == date@ ==> other == date,
{
    lemma_day_of_second_in_day(date@, 0);
}

/// Round trip of instants: the timestamp of an instant is valid and converts
/// back to the same instant, nanoseconds included.
pub proof fn lemma_instant_round_trip(instant: UtcInstant)
    requires
        0 <= instant@.1 < NANOS_PER_SECOND,
        day_in_range(day_of_second(instant@.0)),
    ensures
        ({
            let ts = Timestamp { seconds: instant@.0 as i64, nanos: instant@.1 as i32 };
            &&& ts.seconds == instant@.0 && ts.nanos == instant@.1
            &&& timestamp_valid(ts)
        }),
        forall|other: UtcInstant| other@ == instant@ ==> other == instant,
{
}

/// A timestamp at any time of day, with any valid nanos, gives the same date
/// as midnight of that day.
pub proof fn lemma_date_ignores_time_of_day(date: CalendarDate, offset: int, nanos: i32)
    requires
        day_in_range(date@),
        0 <= offset < SECONDS_PER_DAY,
        0 <= nanos < NANOS_PER_SECOND,
    ensures
        ({
            let ts = Timestamp { seconds: (midnight_second(date@) + offset) as i64, nanos };
            &&& ts.seconds == midnight_second(date@) + offset
            &&& timestamp_valid(ts)
            &&& day_of_second(ts.seconds as int) == date@
        }),
{
    lemma_day_of_second_in_day(date@, offset);
}

} // verus!
