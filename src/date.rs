//! Calendar dates as the ledger stores and orders them.

use chrono::Datelike;
use vstd::prelude::*;

verus! {

/// A calendar date without a time of day.
#[derive(Clone, Copy, Debug, PartialEq, Eq, Structural)]
pub struct CalendarDate {
    pub year: i32,
    /// 1 to 12.
    pub month: u32,
    /// 1 to 31.
    pub day: u32,
}

/// What reading a "YYYY-MM-DD" text gives: the year, month and day of the
/// date it names, or nothing when it names no date.
pub uninterp spec fn iso_date_fields(s: Seq<char>) -> Option<(int, int, int)>;

impl CalendarDate {
    pub open spec fn wf(&self) -> bool {
        1 <= self.month <= 12 && 1 <= self.day <= 31
    }

    /// A number that orders dates chronologically (for well-formed dates).
    pub open spec fn ordinal(&self) -> int {
        self.year as int * 416 + self.month as int * 32 + self.day as int
    }

    pub open spec fn fields(&self) -> (int, int, int) {
        (self.year as int, self.month as int, self.day as int)
    }

    /// The chronological position of this date, as `ordinal` gives it.
    pub fn sort_key(&self) -> (r: i64)
        ensures
            r == self.ordinal(),
    {
        self.year as i64 * 416 + self.month as i64 * 32 + self.day as i64
    }

    /// Whether this date falls on or between `start` and `end`.
    pub fn within(&self, start: &CalendarDate, end: &CalendarDate) -> (r: bool)
        ensures
            r == (start.ordinal() <= self.ordinal() <= end.ordinal()),
    {
        let k = self.sort_key();
        start.sort_key() <= k && k <= end.sort_key()
    }
}

/// Dates that are well formed are ordered by `ordinal` as they are by
/// (year, month, day).
pub proof fn ordinal_is_chronological(a: CalendarDate, b: CalendarDate)
    requires
        a.wf(),
        b.wf(),
    ensures
        a.ordinal() < b.ordinal() <==> (a.year < b.year || (a.year == b.year && (a.month < b.month
            || (a.month == b.month && a.day < b.day)))),
        a.ordinal() == b.ordinal() <==> a == b,
{
}

/// Relies on chrono's `NaiveDate::parse_from_str` with the format
/// "%Y-%m-%d" to read a date, and on `Datelike::{year, month, day}`, whose
/// month is documented to range from 1 to 12 and day from 1 to 31.
#[verifier::external_body]
pub(crate) fn parse_with_chrono(s: &str) -> (r: Option<CalendarDate>)
    ensures
        r is None <==> iso_date_fields(s@) is None,
        r matches Some(d) ==> d.wf() && iso_date_fields(s@) == Some(d.fields()),
{
    match chrono::NaiveDate::parse_from_str(s, "%Y-%m-%d") {
        Ok(d) => Some(CalendarDate { year: d.year(), month: d.month(), day: d.day() }),
        Err(_) => None,
    }
}

} // verus!
