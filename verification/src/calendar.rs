//! The civil calendar: which date a day counted from the Unix epoch falls on.
use vstd::prelude::*;

verus! {

/// A date of the (proleptic) Gregorian calendar. Months and days are counted from one.
pub struct CivilDate {
    pub year: int,
    pub month: int,
    pub day: int,
}

/// Whether `year` has a 29th of February.
pub open spec fn is_leap(year: int) -> bool {
    year % 4 == 0 && (year % 100 != 0 || year % 400 == 0)
}

/// Number of days of a month.
pub open spec fn days_in_month(year: int, month: int) -> int {
    if month == 2 {
        if is_leap(year) { 29 } else { 28 }
    } else if month == 4 || month == 6 || month == 9 || month == 11 {
        30
    } else {
        31
    }
}

/// Number of days of the year that lie before its month `month`.
pub open spec fn days_before_month(year: int, month: int) -> int
    decreases month,
{
    if month <= 1 {
        0
    } else {
        days_before_month(year, month - 1) + days_in_month(year, month - 1)
    }
}

/// Number of days from the first of January of the year one to that of `year`.
pub open spec fn days_before_year(year: int) -> int {
    365 * (year - 1) + (year - 1) / 4 - (year - 1) / 100 + (year - 1) / 400
}

impl CivilDate {
    /// Whether the calendar has this date.
    pub open spec fn valid(self) -> bool {
        1 <= self.month <= 12 && 1 <= self.day <= days_in_month(self.year, self.month)
    }

    /// Number of days from the first of January 1970 to this date.
    pub open spec fn epoch_day(self) -> int {
        days_before_year(self.year) - days_before_year(1970) + days_before_month(
            self.year,
            self.month,
        ) + self.day - 1
    }
}

/// The date that lies `days` days after the first of January 1970.
pub open spec fn civil_date(days: int) -> CivilDate {
    choose|date: CivilDate| #[trigger] date.valid() && date.epoch_day() == days
}

proof fn lemma_year_length(year: int)
    ensures
        days_before_year(year + 1) == days_before_year(year) + 365 + (if is_leap(year) {
            1int
        } else {
            0int
        }),
{
}

proof fn lemma_years_ascend(a: int, b: int)
    requires
        a <= b,
    ensures
        days_before_year(a) <= days_before_year(b),
{
}

proof fn lemma_months_of_year(year: int)
    ensures
        days_before_month(year, 1) == 0,
        days_before_month(year, 13) == 365 + (if is_leap(year) {
            1int
        } else {
            0int
        }),
{
    reveal_with_fuel(days_before_month, 13);
}

proof fn lemma_months_ascend(year: int, a: int, b: int)
    requires
        1 <= a <= b,
    ensures
        days_before_month(year, a) <= days_before_month(year, b),
    decreases b - a,
{
    if a < b {
        lemma_months_ascend(year, a, b - 1);
    }
}

/// Dates in the order of the calendar are in the order of their day numbers.
proof fn lemma_epoch_day_ascends(a: CivilDate, b: CivilDate)
    requires
        a.valid(),
        b.valid(),
        a.year < b.year || a.year == b.year && (a.month < b.month || a.month == b.month && a.day
            < b.day),
    ensures
        a.epoch_day() < b.epoch_day(),
{
    if a.year < b.year {
        lemma_year_length(a.year);
        lemma_years_ascend(a.year + 1, b.year);
        lemma_months_of_year(a.year);
        lemma_months_ascend(a.year, a.month + 1, 13);
        lemma_months_ascend(b.year, 1, b.month);
    } else if a.month < b.month {
        lemma_months_ascend(a.year, a.month + 1, b.month);
    }
}

/// A day number belongs to one date only: the date with that day number is the civil date of it.
pub proof fn law_day_has_one_date(date: CivilDate)
    requires
        date.valid(),
    ensures
        civil_date(date.epoch_day()) == date,
{
    let other = civil_date(date.epoch_day());
    assert(other.valid() && other.epoch_day() == date.epoch_day());
    if other.year < date.year || other.year == date.year && (other.month < date.month
        || other.month == date.month && other.day < date.day) {
        lemma_epoch_day_ascends(other, date);
    } else if other != date {
        lemma_epoch_day_ascends(date, other);
    }
}

/// Every day from the epoch on falls on a date of the calendar.
pub proof fn lemma_civil_date_exists(days: int)
    requires
        0 <= days,
    ensures
        civil_date(days).valid(),
        civil_date(days).epoch_day() == days,
    decreases days,
{
    reveal_with_fuel(days_before_month, 13);
    let date = if days == 0 {
        CivilDate { year: 1970, month: 1, day: 1 }
    } else {
        lemma_civil_date_exists(days - 1);
        let before = civil_date(days - 1);
        lemma_year_length(before.year);
        lemma_months_of_year(before.year);
        if before.day < days_in_month(before.year, before.month) {
            CivilDate { day: before.day + 1, ..before }
        } else if before.month < 12 {
            CivilDate { month: before.month + 1, day: 1, ..before }
        } else {
            CivilDate { year: before.year + 1, month: 1, day: 1 }
        }
    };
    assert(date.valid() && date.epoch_day() == days);
}

/// The days before the year ten thousand have a year of four digits.
pub proof fn lemma_civil_date_year(days: int)
    requires
        0 <= days < 2_932_897,
    ensures
        1970 <= civil_date(days).year <= 9999,
{
    lemma_civil_date_exists(days);
    let date = civil_date(days);
    lemma_months_of_year(date.year);
    lemma_months_ascend(date.year, 1, date.month);
    lemma_months_ascend(date.year, date.month + 1, 13);
    lemma_year_length(date.year);
    if date.year > 9999 {
        lemma_years_ascend(10_000, date.year);
    }
    if date.year < 1970 {
        lemma_years_ascend(date.year + 1, 1970);
    }
}

/// The calendar, day by day: it starts on the first of January 1970, and the date after a date is
/// the next day of the month, or the first of the next month, or the first of the next year.
/// February has 28 days, or 29 in every fourth year that is no century, or is a fourth century;
/// April, June, September and November have 30, the other months 31.
pub proof fn law_dates_follow_one_another(days: int)
    requires
        0 <= days,
    ensures
        civil_date(0) == (CivilDate { year: 1970, month: 1, day: 1 }),
        ({
            let date = civil_date(days);
            let next = civil_date(days + 1);
            let leap = date.year % 4 == 0 && date.year % 100 != 0 || date.year % 400 == 0;
            let last: int = if date.month == 2 && leap {
                29
            } else if date.month == 2 {
                28
            } else if date.month == 4 || date.month == 6 || date.month == 9 || date.month == 11 {
                30
            } else {
                31
            };
            &&& 1 <= date.month <= 12 && 1 <= date.day <= last
            &&& date.day < last ==> next.year == date.year && next.month == date.month && next.day
                == date.day + 1
            &&& date.day == last && date.month < 12 ==> next.year == date.year && next.month
                == date.month + 1 && next.day == 1
            &&& date.day == last && date.month == 12 ==> next.year == date.year + 1 && next.month
                == 1 && next.day == 1
        }),
{
    reveal_with_fuel(days_before_month, 13);
    let epoch = CivilDate { year: 1970, month: 1, day: 1 };
    assert(epoch.epoch_day() == 0);
    law_day_has_one_date(epoch);
    lemma_civil_date_exists(days);
    let date = civil_date(days);
    lemma_year_length(date.year);
    lemma_months_of_year(date.year);
    let next = if date.day < days_in_month(date.year, date.month) {
        CivilDate { day: date.day + 1, ..date }
    } else if date.month < 12 {
        CivilDate { month: date.month + 1, day: 1, ..date }
    } else {
        CivilDate { year: date.year + 1, month: 1, day: 1 }
    };
    assert(next.valid() && next.epoch_day() == days + 1);
    law_day_has_one_date(next);
}

} // verus!
