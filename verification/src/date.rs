//! Calendar dates: year, month and day, without time of day or time zone.

use vstd::prelude::*;

verus! {

/// A date of the proleptic Gregorian calendar, with a year zero.
///
/// Dates are ordered by year, then month, then day. The fields are plain
/// numbers; [`CivilDate::is_valid`] says which triples name a day that exists.
#[derive(Clone, Copy, Debug, PartialEq, Eq, Structural, PartialOrd, Ord, Hash)]
pub struct CivilDate {
    pub year: i16,
    pub month: i8,
    pub day: i8,
}

/// The earliest year a date may have.
pub const MIN_YEAR: i16 = -9999;

/// The latest year a date may have.
pub const MAX_YEAR: i16 = 9999;

/// Whether `year` has a 29th of February.
pub open spec fn is_leap_year(year: int) -> bool {
    year % 4 == 0 && (year % 100 != 0 || year % 400 == 0)
}

/// The number of days of `month` in `year`, for a month from 1 to 12.
pub open spec fn days_in_month(year: int, month: int) -> int {
    if month == 2 {
        if is_leap_year(year) {
            29
        } else {
            28
        }
    } else if month == 4 || month == 6 || month == 9 || month == 11 {
        30
    } else {
        31
    }
}

/// Executable form of [`is_leap_year`].
pub fn leap_year(year: i16) -> (leap: bool)
    ensures
        leap == is_leap_year(year as int),
{
    year % 4 == 0 && (year % 100 != 0 || year % 400 == 0)
}

/// Executable form of [`days_in_month`].
pub fn month_length(year: i16, month: i8) -> (days: i8)
    requires
        1 <= month <= 12,
    ensures
        days == days_in_month(year as int, month as int),
{
    if month == 2 {
        if leap_year(year) {
            29
        } else {
            28
        }
    } else if month == 4 || month == 6 || month == 9 || month == 11 {
        30
    } else {
        31
    }
}

impl CivilDate {
    /// The date names a day that exists, in a year from -9999 to 9999.
    pub open spec fn is_valid(self) -> bool {
        &&& MIN_YEAR <= self.year <= MAX_YEAR
        &&& 1 <= self.month <= 12
        &&& 1 <= self.day <= days_in_month(self.year as int, self.month as int)
    }

    /// `self` is the same day as `other` or an earlier one.
    pub open spec fn on_or_before(self, other: CivilDate) -> bool {
        self.year < other.year || (self.year == other.year && (self.month < other.month || (
        self.month == other.month && self.day <= other.day)))
    }

    /// `self` is an earlier day than `other`.
    pub open spec fn before(self, other: CivilDate) -> bool {
        self.on_or_before(other) && self != other
    }

    /// The date with these fields, if there is such a day.
    pub fn new(year: i16, month: i8, day: i8) -> (date: Option<CivilDate>)
        ensures
            date.is_some() <==> (CivilDate { year, month, day }).is_valid(),
            date matches Some(d) ==> d == (CivilDate { year, month, day }),
    {
        if year < MIN_YEAR || year > MAX_YEAR || month < 1 || month > 12 || day < 1 {
            return None;
        }
        if day > month_length(year, month) {
            return None;
        }
        Some(CivilDate { year, month, day })
    }

    /// Whether `self` is the same day as `other` or an earlier one.
    pub fn is_on_or_before(&self, other: &CivilDate) -> (r: bool)
        ensures
            r == self.on_or_before(*other),
    {
        self.year < other.year || (self.year == other.year && (self.month < other.month || (
        self.month == other.month && self.day <= other.day)))
    }

    /// Whether `self` is an earlier day than `other`.
    pub fn is_before(&self, other: &CivilDate) -> (r: bool)
        ensures
            r == self.before(*other),
    {
        self.year < other.year || (self.year == other.year && (self.month < other.month || (
        self.month == other.month && self.day < other.day)))
    }
}

} // verus!
