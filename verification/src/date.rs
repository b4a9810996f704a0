use chrono::Datelike;
use vstd::prelude::*;

verus! {

/// Largest year the engine accepts as an anchor date; keeps every call into
/// the calendar library far away from its own range limit.
pub const MAX_YEAR: u32 = 9999;

/// One calendar date in the proleptic Gregorian calendar, held as plain
/// year / month / day values so that ordering and pruning are verified.
#[derive(Clone, Copy, PartialEq, Eq, Structural, Debug, Hash)]
pub struct Date {
    pub year: u32,
    pub month: u8,
    pub day: u8,
}

pub open spec fn is_leap_year(y: int) -> bool {
    y % 4 == 0 && (y % 100 != 0 || y % 400 == 0)
}

pub open spec fn days_in_month(y: int, m: int) -> int {
    if m == 2 {
        if is_leap_year(y) {
            29
        } else {
            28
        }
    } else if m == 4 || m == 6 || m == 9 || m == 11 {
        30
    } else {
        31
    }
}

impl Date {
    /// A real calendar date within the supported range.
    pub open spec fn wf(self) -> bool {
        &&& 1 <= self.month <= 12
        &&& 1 <= self.day <= days_in_month(self.year as int, self.month as int)
        &&& self.year <= MAX_YEAR
    }

    /// Chronological order: `self` lies strictly earlier than `other`.
    pub open spec fn before(self, other: Date) -> bool {
        ||| self.year < other.year
        ||| self.year == other.year && self.month < other.month
        ||| self.year == other.year && self.month == other.month && self.day < other.day
    }

    /// Builds a date after checking that it names a real calendar day in range.
    pub fn new(year: u32, month: u8, day: u8) -> (r: Option<Date>)
        ensures
            (Date { year, month, day }).wf() ==> r == Some(Date { year, month, day }),
            !(Date { year, month, day }).wf() ==> r is None,
    {
        if 1 <= month && month <= 12 && 1 <= day && day <= days_in_month_count(year, month)
            && year <= MAX_YEAR {
            Some(Date { year, month, day })
        } else {
            None
        }
    }

    pub fn is_before(&self, other: &Date) -> (r: bool)
        ensures
            r == self.before(*other),
    {
        if self.year != other.year {
            self.year < other.year
        } else if self.month != other.month {
            self.month < other.month
        } else {
            self.day < other.day
        }
    }
}

/// How many days the given month has, matching `days_in_month`.
pub fn days_in_month_count(year: u32, month: u8) -> (r: u8)
    requires
        1 <= month <= 12,
    ensures
        r == days_in_month(year as int, month as int),
{
    if month == 2 {
        if year % 4 == 0 && (year % 100 != 0 || year % 400 == 0) {
            29
        } else {
            28
        }
    } else if month == 4 || month == 6 || month == 9 || month == 11 {
        30
    } else {
        31
    }
}

/// The calendar date `n` days after `d`, as the calendar library computes it.
pub uninterp spec fn spec_add_days(d: Date, n: int) -> Date;

/// Relies on chrono's `NaiveDate`: `from_ymd_opt` accepts every real calendar
/// date in range, `checked_add_days` returns the date `n` days later (a
/// function of its arguments alone, in range for every input this accepts),
/// and `year` / `month` / `day` read its calendar fields back.
#[verifier::external_body]
pub fn add_days(d: &Date, n: u16) -> (r: Date)
    requires
        d.wf(),
        n <= 400,
    ensures
        r == spec_add_days(*d, n as int),
        1 <= r.month <= 12,
        1 <= r.day <= days_in_month(r.year as int, r.month as int),
        d.year <= r.year <= d.year + 2,
{
    let base = chrono::NaiveDate::from_ymd_opt(d.year as i32, d.month as u32, d.day as u32)
        .unwrap();
    let shifted = base.checked_add_days(chrono::Days::new(n as u64)).unwrap();
    Date { year: shifted.year() as u32, month: shifted.month() as u8, day: shifted.day() as u8 }
}

} // verus!
