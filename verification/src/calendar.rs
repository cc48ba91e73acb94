//! Calendar days, hours and ISO weeks of commit times.
//!
//! A day is a number of days since 1 January 1970. The library adds the
//! author's offset to a time itself; the calendar is asked for the rest.

use vstd::prelude::*;
use crate::model::Time;

verus! {

/// The first day that the calendar can name: 1 January of the year -262143.
pub const FIRST_DAY: i64 = -96_465_292;

/// The last day that the calendar can name: 31 December of the year 262142.
pub const LAST_DAY: i64 = 95_026_236;

/// The day in which a second since the epoch falls.
pub open spec fn day_of(seconds: int) -> int {
    seconds / 86_400
}

/// The hour of its day, 0 to 23, in which a second since the epoch falls.
pub open spec fn hour_of(seconds: int) -> int {
    (seconds % 86_400) / 3_600
}

/// Whether the calendar can name the day of a second since the epoch.
pub open spec fn in_calendar(seconds: int) -> bool {
    FIRST_DAY <= day_of(seconds) <= LAST_DAY
}

/// The ISO 8601 week in which a day falls: the week's year and its number.
pub uninterp spec fn iso_week_of(day: int) -> (int, int);

/// How the calendar writes a day: year, month and day of the month.
pub uninterp spec fn day_text(day: int) -> Seq<char>;

/// How the calendar writes the ISO 8601 week in which a day falls.
pub uninterp spec fn week_text(day: int) -> Seq<char>;

/// Calls `chrono::FixedOffset::east_opt`, which accepts an offset exactly
/// when it is less than a day in either direction.
#[verifier::external_body]
fn offset_exists(offset: i32) -> (ok: bool)
    ensures
        ok == (-86_400 < offset < 86_400),
{
    chrono::FixedOffset::east_opt(offset).is_some()
}

/// Calls `chrono::DateTime::from_timestamp` and reads the date and the hour
/// of the result. The call succeeds exactly when the day of the timestamp,
/// its seconds divided by 86400 rounding down, is a day the calendar can
/// name; the date is that day and the hour the hour of the remaining seconds.
#[verifier::external_body]
fn utc_day_and_hour(seconds: i64) -> (parts: Option<(i64, u32)>)
    ensures
        parts is Some <==> in_calendar(seconds as int),
        parts matches Some(p) ==> p.0 == day_of(seconds as int) && p.1 == hour_of(seconds as int),
{
    let time = chrono::DateTime::from_timestamp(seconds, 0)?;
    Some((i64::from(time.date_naive().to_epoch_days()), chrono::Timelike::hour(&time)))
}

/// Calls `chrono::Datelike::iso_week` on the date of a day. There is a date
/// exactly for the days the calendar can name. The week number is documented
/// to range from 1 to 53; the contract names the week otherwise.
#[verifier::external_body]
fn iso_week(day: i64) -> (week: Option<(i32, u32)>)
    ensures
        week is Some <==> FIRST_DAY <= day <= LAST_DAY,
        week matches Some(w) ==> (w.0 as int, w.1 as int) == iso_week_of(day as int) && 1 <= w.1
            <= 53,
{
    let date = chrono::NaiveDate::from_epoch_days(i32::try_from(day).ok()?)?;
    let week = chrono::Datelike::iso_week(&date);
    Some((week.year(), week.week()))
}

/// Formats the date of a day as `chrono::NaiveDate` displays it.
#[verifier::external_body]
pub(crate) fn show_day(day: i64) -> (label: Option<String>)
    ensures
        label is Some <==> FIRST_DAY <= day <= LAST_DAY,
        label matches Some(s) ==> s@ == day_text(day as int),
{
    let date = chrono::NaiveDate::from_epoch_days(i32::try_from(day).ok()?)?;
    Some(date.to_string())
}

/// Formats the ISO week of a day as `chrono::IsoWeek` prints itself: the
/// week's year, `-W`, and the week number.
#[verifier::external_body]
pub(crate) fn show_week(day: i64) -> (label: Option<String>)
    ensures
        label is Some <==> FIRST_DAY <= day <= LAST_DAY,
        label matches Some(s) ==> s@ == week_text(day as int),
{
    let date = chrono::NaiveDate::from_epoch_days(i32::try_from(day).ok()?)?;
    Some(format!("{:?}", chrono::Datelike::iso_week(&date)))
}

/// The author's wall-clock time as seconds: the time with the offset added.
pub open spec fn local_seconds(time: Time) -> int {
    time.seconds + time.offset
}

/// A time that can be read: its offset is less than a day, and the calendar
/// can name the author's local day.
pub open spec fn readable(time: Time) -> bool {
    &&& -86_400 < time.offset < 86_400
    &&& in_calendar(local_seconds(time))
}

/// The author's local day of a time.
pub open spec fn local_day(time: Time) -> int {
    day_of(local_seconds(time))
}

/// The author's local hour of a time.
pub open spec fn local_hour(time: Time) -> int {
    hour_of(local_seconds(time))
}

/// A local day and hour.
#[derive(Clone, Copy, Debug, PartialEq, Eq, Structural)]
pub struct LocalTime {
    pub day: i64,
    pub hour: u32,
}

/// Reads a commit time in the author's own time zone. There is a result
/// exactly for a readable time.
pub fn local_time(time: Time) -> (local: Option<LocalTime>)
    ensures
        local is Some <==> readable(time),
        local matches Some(l) ==> {
            &&& l.day == local_day(time)
            &&& l.hour == local_hour(time)
            &&& l.hour < 24
            &&& FIRST_DAY <= l.day <= LAST_DAY
        },
{
    if !offset_exists(time.offset) {
        return None;
    }
    let shifted = match time.seconds.checked_add(time.offset as i64) {
        Some(s) => s,
        None => {
            return None;
        },
    };
    match utc_day_and_hour(shifted) {
        Some((day, hour)) => Some(LocalTime { day, hour }),
        None => None,
    }
}

/// The ISO week of a day, for a day that the calendar can name.
#[derive(Clone, Copy, Debug, PartialEq, Eq, Structural)]
pub struct Week {
    pub year: i32,
    pub number: u32,
}

/// The ISO week in which a day falls.
pub fn week_of(day: i64) -> (week: Option<Week>)
    ensures
        week is Some <==> FIRST_DAY <= day <= LAST_DAY,
        week matches Some(w) ==> (w.year as int, w.number as int) == iso_week_of(day as int) && 1
            <= w.number <= 53,
{
    match iso_week(day) {
        Some((year, number)) => Some(Week { year, number }),
        None => None,
    }
}

} // verus!
