use chrono::Datelike;
use vstd::prelude::*;

verus! {

/// A calendar date without a time component, held as its day number in the
/// proleptic Gregorian calendar (0001-01-01 is day 1).
#[derive(Clone, Copy, Debug, PartialEq, Eq, Structural, Hash)]
pub struct Date {
    pub day: i32,
}

/// The day number of the calendar date `year-month-day`, or `None` where no
/// such date exists in the supported range.
pub uninterp spec fn day_number_of(year: int, month: int, day: int) -> Option<int>;

/// Relies on chrono's `NaiveDate::from_ymd_opt` and `Datelike::num_days_from_ce`:
/// the day number of a valid date; `None` for a month outside 1..=12 or a day
/// outside 1..=31 (or past the month's end, or out of chrono's range).
#[verifier::external_body]
fn ymd_to_day_number(year: i32, month: u32, day: u32) -> (r: Option<i32>)
    ensures
        r matches Some(v) ==> day_number_of(year as int, month as int, day as int) == Some(v as int),
        r is None ==> day_number_of(year as int, month as int, day as int) is None,
        (month < 1 || month > 12 || day < 1 || day > 31) ==> r is None,
{
    chrono::NaiveDate::from_ymd_opt(year, month, day).map(|d| d.num_days_from_ce())
}

impl Date {
    /// The date `year-month-day`, or `None` when it is not a calendar date.
    pub fn from_ymd(year: i32, month: u32, day: u32) -> (r: Option<Date>)
        ensures
            r matches Some(d) ==> day_number_of(year as int, month as int, day as int) == Some(
                d.day as int,
            ),
            r is None <==> day_number_of(year as int, month as int, day as int) is None,
    {
        match ymd_to_day_number(year, month, day) {
            Some(v) => Some(Date { day: v }),
            None => None,
        }
    }

    /// The date with the given day number.
    pub fn from_day_number(day: i32) -> (r: Date)
        ensures
            r.day == day,
    {
        Date { day }
    }

    /// Whole days from `self` to `other` (negative when `other` is earlier).
    pub fn days_until(self, other: Date) -> (r: i64)
        ensures
            r == other.day - self.day,
    {
        other.day as i64 - self.day as i64
    }
}

} // verus!
