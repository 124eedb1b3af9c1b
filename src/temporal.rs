//! Calendar dates, times of day and UTC instants, held as plain numbers.
use chrono::{Datelike, NaiveDate, NaiveTime, Timelike};
use vstd::prelude::*;

use crate::hashing::{mix, mix_exec};

verus! {

/// Whether `year` has a 29th of February in the proleptic Gregorian calendar.
pub open spec fn is_leap_year(year: int) -> bool {
    year % 4 == 0 && (year % 100 != 0 || year % 400 == 0)
}

/// The number of days of `month` (1 to 12) in `year`.
pub open spec fn days_in_month(year: int, month: int) -> int {
    if month == 2 {
        if is_leap_year(year) {
            29
        } else {
            28
        }
    } else if month == 4 || month == 6 || month == 9 || month == 11 {
        30
    } else {
        31
    }
}

/// Whether the date exists, within the years that a date can hold.
pub open spec fn valid_ymd(year: i32, month: u32, day: u32) -> bool {
    &&& -262143 <= year <= 262142
    &&& 1 <= month <= 12
    &&& 1 <= day <= days_in_month(year as int, month as int)
}

/// Whether the time of day exists; a leap second is a nanosecond count of a
/// second or more within the 59th second.
pub open spec fn valid_hms_nano(hour: u32, minute: u32, second: u32, nano: u32) -> bool {
    &&& hour < 24
    &&& minute < 60
    &&& second < 60
    &&& nano < 2_000_000_000
    &&& (nano >= 1_000_000_000 ==> second == 59)
}

/// Relies on `chrono::NaiveDate::from_ymd_opt`, which gives a date exactly
/// when it exists and keeps its year, month and day.
#[verifier::external_body]
fn chrono_ymd(year: i32, month: u32, day: u32) -> (r: Option<(i32, u32, u32)>)
    ensures
        r is Some <==> valid_ymd(year, month, day),
        r is Some ==> r->Some_0 == (year, month, day),
{
    NaiveDate::from_ymd_opt(year, month, day).map(|d| (d.year(), d.month(), d.day()))
}

/// Relies on `chrono::NaiveTime::from_hms_nano_opt`, which gives a time
/// exactly when it exists and keeps its four parts.
#[verifier::external_body]
fn chrono_hms_nano(hour: u32, minute: u32, second: u32, nano: u32) -> (r: Option<
    (u32, u32, u32, u32),
>)
    ensures
        r is Some <==> valid_hms_nano(hour, minute, second, nano),
        r is Some ==> r->Some_0 == (hour, minute, second, nano),
{
    NaiveTime::from_hms_nano_opt(hour, minute, second, nano).map(
        |t| (t.hour(), t.minute(), t.second(), t.nanosecond()),
    )
}

pub open spec fn date_hash(d: (i32, u32, u32)) -> u64 {
    mix(mix(mix(0, d.0 as u64), d.1 as u64), d.2 as u64)
}

pub open spec fn time_hash(t: (u32, u32, u32, u32)) -> u64 {
    mix(mix(mix(mix(0, t.0 as u64), t.1 as u64), t.2 as u64), t.3 as u64)
}

pub open spec fn date_time_hash(t: ((i32, u32, u32), (u32, u32, u32, u32))) -> u64 {
    mix(date_hash(t.0), time_hash(t.1))
}

/// A calendar date that exists.
#[derive(Debug, Clone, Copy, PartialEq, Eq, Structural, Hash)]
pub struct Date {
    year: i32,
    month: u32,
    day: u32,
}

impl View for Date {
    type V = (i32, u32, u32);

    closed spec fn view(&self) -> (i32, u32, u32) {
        (self.year, self.month, self.day)
    }
}

impl Date {
    #[verifier::type_invariant]
    closed spec fn wf(&self) -> bool {
        valid_ymd(self.year, self.month, self.day)
    }

    /// The date, if it exists.
    pub fn from_ymd_opt(year: i32, month: u32, day: u32) -> (r: Option<Date>)
        ensures
            r is Some <==> valid_ymd(year, month, day),
            r is Some ==> r->Some_0@ == (year, month, day),
    {
        match chrono_ymd(year, month, day) {
            Some((y, m, d)) => Some(Date { year: y, month: m, day: d }),
            None => None,
        }
    }

    pub fn year(&self) -> (r: i32)
        ensures
            r == self@.0,
    {
        self.year
    }

    pub fn month(&self) -> (r: u32)
        ensures
            r == self@.1,
    {
        self.month
    }

    pub fn day(&self) -> (r: u32)
        ensures
            r == self@.2,
    {
        self.day
    }

    /// Equal when year, month and day agree.
    pub fn equals(&self, other: &Date) -> (r: bool)
        ensures
            r == (self@ == other@),
    {
        self.year == other.year && self.month == other.month && self.day == other.day
    }

    pub fn hash_code(&self) -> (r: u64)
        ensures
            r == date_hash(self@),
    {
        mix_exec(mix_exec(mix_exec(0, self.year as u64), self.month as u64), self.day as u64)
    }
}

/// A time of day that exists, to the nanosecond.
#[derive(Debug, Clone, Copy, PartialEq, Eq, Structural, Hash)]
pub struct Time {
    hour: u32,
    minute: u32,
    second: u32,
    nano: u32,
}

impl View for Time {
    type V = (u32, u32, u32, u32);

    closed spec fn view(&self) -> (u32, u32, u32, u32) {
        (self.hour, self.minute, self.second, self.nano)
    }
}

impl Time {
    #[verifier::type_invariant]
    closed spec fn wf(&self) -> bool {
        valid_hms_nano(self.hour, self.minute, self.second, self.nano)
    }

    /// The time of day, if it exists.
    pub fn from_hms_nano_opt(hour: u32, minute: u32, second: u32, nano: u32) -> (r: Option<Time>)
        ensures
            r is Some <==> valid_hms_nano(hour, minute, second, nano),
            r is Some ==> r->Some_0@ == (hour, minute, second, nano),
    {
        match chrono_hms_nano(hour, minute, second, nano) {
            Some((h, m, s, n)) => Some(Time { hour: h, minute: m, second: s, nano: n }),
            None => None,
        }
    }

    /// The time of day, if it exists, on a whole second.
    pub fn from_hms_opt(hour: u32, minute: u32, second: u32) -> (r: Option<Time>)
        ensures
            r is Some <==> valid_hms_nano(hour, minute, second, 0),
            r is Some ==> r->Some_0@ == (hour, minute, second, 0u32),
    {
        Self::from_hms_nano_opt(hour, minute, second, 0)
    }

    pub fn hour(&self) -> (r: u32)
        ensures
            r == self@.0,
    {
        self.hour
    }

    pub fn minute(&self) -> (r: u32)
        ensures
            r == self@.1,
    {
        self.minute
    }

    pub fn second(&self) -> (r: u32)
        ensures
            r == self@.2,
    {
        self.second
    }

    pub fn nanosecond(&self) -> (r: u32)
        ensures
            r == self@.3,
    {
        self.nano
    }

    /// Equal when all four parts agree.
    pub fn equals(&self, other: &Time) -> (r: bool)
        ensures
            r == (self@ == other@),
    {
        self.hour == other.hour && self.minute == other.minute && self.second == other.second
            && self.nano == other.nano
    }

    pub fn hash_code(&self) -> (r: u64)
        ensures
            r == time_hash(self@),
    {
        let h = mix_exec(mix_exec(0, self.hour as u64), self.minute as u64);
        mix_exec(mix_exec(h, self.second as u64), self.nano as u64)
    }
}

/// An instant, as a date and a time of day in UTC. Whatever offset it was
/// given in is gone once it is built.
#[derive(Debug, Clone, Copy, PartialEq, Eq, Structural, Hash)]
pub struct DateTime {
    date: Date,
    time: Time,
}

impl View for DateTime {
    type V = ((i32, u32, u32), (u32, u32, u32, u32));

    closed spec fn view(&self) -> ((i32, u32, u32), (u32, u32, u32, u32)) {
        (self.date@, self.time@)
    }
}

impl DateTime {
    /// The instant at which the UTC calendar shows `date` and `time`.
    pub fn from_utc(date: Date, time: Time) -> (r: DateTime)
        ensures
            r@ == (date@, time@),
    {
        DateTime { date, time }
    }

    pub fn date(&self) -> (r: Date)
        ensures
            r@ == self@.0,
    {
        self.date
    }

    pub fn time(&self) -> (r: Time)
        ensures
            r@ == self@.1,
    {
        self.time
    }

    /// Equal when date and time of day agree.
    pub fn equals(&self, other: &DateTime) -> (r: bool)
        ensures
            r == (self@ == other@),
    {
        self.date.equals(&other.date) && self.time.equals(&other.time)
    }

    pub fn hash_code(&self) -> (r: u64)
        ensures
            r == date_time_hash(self@),
    {
        mix_exec(self.date.hash_code(), self.time.hash_code())
    }
}

} // verus!
