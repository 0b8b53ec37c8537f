//! Moments of the local clock, as the `chrono` crate reads them.

use chrono::{DateTime, Datelike, Local, NaiveDate, TimeZone, Timelike};
use std::fmt::Write;
use vstd::prelude::*;

verus! {

/// A point in time together with its reading on the local clock.
#[derive(Clone, Copy, Debug, PartialEq, Eq, Structural)]
pub struct Moment {
    /// Whole seconds since 1970-01-01 00:00:00 UTC.
    pub timestamp: i64,
    pub year: i32,
    pub month: u32,
    pub day: u32,
    pub hour: u32,
    pub minute: u32,
    pub second: u32,
}

/// A reading of a calendar and a clock, tied to no zone.
#[derive(Clone, Copy, Debug, PartialEq, Eq, Structural)]
pub struct Civil {
    pub year: i32,
    pub month: u32,
    pub day: u32,
    pub hour: u32,
    pub minute: u32,
    pub second: u32,
}

/// Whether `year` has a 29th of February in the Gregorian calendar.
pub open spec fn leap(year: int) -> bool {
    year % 4 == 0 && (year % 100 != 0 || year % 400 == 0)
}

/// The days of month `month` of `year` in the Gregorian calendar.
pub open spec fn days_in(year: int, month: int) -> int {
    if month == 2 {
        if leap(year) {
            29
        } else {
            28
        }
    } else if month == 4 || month == 6 || month == 9 || month == 11 {
        30
    } else {
        31
    }
}

impl Moment {
    /// The fields are a day of the Gregorian calendar and a time that a
    /// clock shows.
    pub open spec fn well_formed(&self) -> bool {
        &&& 1 <= self.month <= 12
        &&& 1 <= self.day <= days_in(self.year as int, self.month as int)
        &&& self.hour <= 23
        &&& self.minute <= 59
        &&& self.second <= 59
    }

    /// What the local clock shows at this moment.
    pub open spec fn civil(&self) -> Civil {
        Civil {
            year: self.year,
            month: self.month,
            day: self.day,
            hour: self.hour,
            minute: self.minute,
            second: self.second,
        }
    }

    /// What the local clock shows at this moment.
    pub fn reading(&self) -> (r: Civil)
        ensures
            r == self.civil(),
    {
        Civil {
            year: self.year,
            month: self.month,
            day: self.day,
            hour: self.hour,
            minute: self.minute,
            second: self.second,
        }
    }
}

/// The seconds since the epoch of the moment that `text` writes as RFC 2822
/// has it; `None` where `text` is no such date.
pub uninterp spec fn rfc2822_seconds(text: Seq<char>) -> Option<i64>;

/// The seconds since the epoch of the moment that `text` writes as RFC 3339
/// has it; `None` where `text` is no such date.
pub uninterp spec fn rfc3339_seconds(text: Seq<char>) -> Option<i64>;

/// The seconds since the epoch of the moment that `text` writes in the
/// `strftime`-like `layout`, which must give a zone offset; `None` where
/// `text` does not fit.
pub uninterp spec fn layout_seconds(layout: Seq<char>, text: Seq<char>) -> Option<i64>;

/// How `layout` renders a civil reading; `None` where the reading is no date
/// and time of the calendar, or `layout` cannot be rendered.
pub uninterp spec fn rendered(layout: Seq<char>, reading: Civil) -> Option<Seq<char>>;

/// `Local::now`: the present moment. Its fields are a day of the calendar
/// and within the ranges that `Datelike` and `Timelike` document.
#[verifier::external_body]
pub(crate) fn now() -> (r: Moment)
    ensures
        r.well_formed(),
{
    let t: DateTime<Local> = Local::now();
    Moment {
        timestamp: t.timestamp(),
        year: t.year(),
        month: t.month(),
        day: t.day(),
        hour: t.hour(),
        minute: t.minute(),
        second: t.second(),
    }
}

/// `TimeZone::timestamp_opt` on `Local`: the moment `seconds` after the
/// epoch, read on the local clock. `None` where `chrono` cannot represent it.
/// The reading depends on the machine's time zone, so of the reading only
/// this is stated: it is a day of the calendar and a time of the clock.
#[verifier::external_body]
pub(crate) fn at(seconds: i64) -> (r: Option<Moment>)
    ensures
        r matches Some(m) ==> m.timestamp == seconds && m.well_formed(),
{
    let t: DateTime<Local> = Local.timestamp_opt(seconds, 0).single()?;
    Some(Moment {
        timestamp: t.timestamp(),
        year: t.year(),
        month: t.month(),
        day: t.day(),
        hour: t.hour(),
        minute: t.minute(),
        second: t.second(),
    })
}

/// `TimeZone::with_ymd_and_hms` on `Local`: the one moment at which the local
/// clock shows `reading`. `None` where there is no such moment, or more than
/// one; so there is none where `reading` is no day of the calendar. Which
/// moment it is depends on the machine's time zone.
#[verifier::external_body]
pub(crate) fn on(reading: Civil) -> (r: Option<Moment>)
    ensures
        r matches Some(m) ==> m.civil() == reading && m.well_formed(),
{
    let (y, mo, d) = (reading.year, reading.month, reading.day);
    let t: DateTime<Local> =
        Local.with_ymd_and_hms(y, mo, d, reading.hour, reading.minute, reading.second).single()?;
    Some(Moment {
        timestamp: t.timestamp(),
        year: t.year(),
        month: t.month(),
        day: t.day(),
        hour: t.hour(),
        minute: t.minute(),
        second: t.second(),
    })
}

/// `DateTime::parse_from_rfc2822`, then `DateTime::with_timezone` to
/// `Local`, which cannot fail: there is a moment exactly where `text` is
/// read, and it is the instant that was read. The reading depends on the
/// machine's time zone, so of it only this is stated: it is a day of the
/// calendar and a time of the clock.
#[verifier::external_body]
pub(crate) fn from_rfc2822(text: &str) -> (r: Option<Moment>)
    ensures
        r is Some == rfc2822_seconds(text@) is Some,
        r matches Some(m) ==> rfc2822_seconds(text@) == Some(m.timestamp) && m.well_formed(),
{
    let t: DateTime<Local> = DateTime::parse_from_rfc2822(text).ok()?.with_timezone(&Local);
    Some(Moment {
        timestamp: t.timestamp(),
        year: t.year(),
        month: t.month(),
        day: t.day(),
        hour: t.hour(),
        minute: t.minute(),
        second: t.second(),
    })
}

/// `DateTime::parse_from_rfc3339`, then `DateTime::with_timezone` to
/// `Local`, which cannot fail: there is a moment exactly where `text` is
/// read, and it is the instant that was read. Of the reading only this is
/// stated: it is a day of the calendar and a time of the clock.
#[verifier::external_body]
pub(crate) fn from_rfc3339(text: &str) -> (r: Option<Moment>)
    ensures
        r is Some == rfc3339_seconds(text@) is Some,
        r matches Some(m) ==> rfc3339_seconds(text@) == Some(m.timestamp) && m.well_formed(),
{
    let t: DateTime<Local> = DateTime::parse_from_rfc3339(text).ok()?.with_timezone(&Local);
    Some(Moment {
        timestamp: t.timestamp(),
        year: t.year(),
        month: t.month(),
        day: t.day(),
        hour: t.hour(),
        minute: t.minute(),
        second: t.second(),
    })
}

/// `DateTime::parse_from_str`, then `DateTime::with_timezone` to `Local`,
/// which cannot fail: there is a moment exactly where `text` is read in
/// `layout`, and it is the instant that was read. Of the reading only this
/// is stated: it is a day of the calendar and a time of the clock.
#[verifier::external_body]
pub(crate) fn from_layout(layout: &str, text: &str) -> (r: Option<Moment>)
    ensures
        r is Some == layout_seconds(layout@, text@) is Some,
        r matches Some(m) ==> layout_seconds(layout@, text@) == Some(m.timestamp)
            && m.well_formed(),
{
    let t: DateTime<Local> = DateTime::parse_from_str(text, layout).ok()?.with_timezone(&Local);
    Some(Moment {
        timestamp: t.timestamp(),
        year: t.year(),
        month: t.month(),
        day: t.day(),
        hour: t.hour(),
        minute: t.minute(),
        second: t.second(),
    })
}

/// `NaiveDate::from_ymd_opt`, `NaiveDate::and_hms_opt` and
/// `NaiveDateTime::format`, written out. The contract only names the outcome.
#[verifier::external_body]
pub(crate) fn render(layout: &str, reading: Civil) -> (r: Option<String>)
    ensures
        r is Some == rendered(layout@, reading) is Some,
        r is Some ==> r->0@ == rendered(layout@, reading)->0,
{
    let date = NaiveDate::from_ymd_opt(reading.year, reading.month, reading.day)?;
    let shown = date.and_hms_opt(reading.hour, reading.minute, reading.second)?;
    let mut out = String::new();
    write!(out, "{}", shown.format(layout)).ok()?;
    Some(out)
}

} // verus!
