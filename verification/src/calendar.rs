//! The Gregorian calendar: dates, and days counted from the start of 1970.

use vstd::prelude::*;

verus! {

/// Whether a year has a 29th of February.
pub open spec fn is_leap(year: int) -> bool {
    year % 4 == 0 && (year % 100 != 0 || year % 400 == 0)
}

/// The number of days of a year.
pub open spec fn year_days(year: int) -> int {
    if is_leap(year) {
        366
    } else {
        365
    }
}

/// The number of days of a month, January being month 1.
pub open spec fn month_days(year: int, month: int) -> int {
    if month == 2 {
        if is_leap(year) {
            29
        } else {
            28
        }
    } else if month == 4 || month == 6 || month == 9 || month == 11 {
        30
    } else {
        31
    }
}

/// The number of days of the years from the first one up to, and without, the last.
pub open spec fn days_between_years(from: int, to: int) -> int
    decreases to - from,
{
    if to <= from {
        0
    } else {
        days_between_years(from, to - 1) + year_days(to - 1)
    }
}

/// The number of days of a year before the given month.
pub open spec fn days_before_month(year: int, month: int) -> int
    decreases month,
{
    if month <= 1 {
        0
    } else {
        days_before_month(year, month - 1) + month_days(year, month - 1)
    }
}

/// Whether the calendar has such a date.
pub open spec fn valid_date(year: int, month: int, day: int) -> bool {
    1 <= month <= 12 && 1 <= day <= month_days(year, month)
}

/// The day of a date, counted from the start of the year 1970.
pub open spec fn day_number(year: int, month: int, day: int) -> int {
    let before = if year >= 1970 {
        days_between_years(1970, year)
    } else {
        -days_between_years(year, 1970)
    };
    before + days_before_month(year, month) + day - 1
}

/// A date of the Gregorian calendar.
#[derive(Clone, Copy, PartialEq, Eq, Structural, Debug)]
pub struct CivilDate {
    pub year: i32,
    pub month: u32,
    pub day: u32,
}

impl CivilDate {
    /// Whether the calendar has this date.
    pub open spec fn valid(self) -> bool {
        valid_date(self.year as int, self.month as int, self.day as int)
    }

    /// The day of this date, counted from the start of the year 1970.
    pub open spec fn number(self) -> int {
        day_number(self.year as int, self.month as int, self.day as int)
    }
}

/// Whether a year has a 29th of February.
#[verifier::spinoff_prover]
pub fn leap_year(year: i32) -> (r: bool)
    ensures
        r == is_leap(year as int),
{
    if year >= 0 {
        year % 4 == 0 && (year % 100 != 0 || year % 400 == 0)
    } else {
        let y: i64 = year as i64 + 2_147_483_600;
        assert(y == year + 400 * 5_368_709);
        assert(y % 4 == year as int % 4);
        assert(y % 100 == year as int % 100);
        assert(y % 400 == year as int % 400);
        y % 4 == 0 && (y % 100 != 0 || y % 400 == 0)
    }
}

/// The number of days of a month.
pub fn days_in_month(year: i32, month: u32) -> (r: u32)
    ensures
        r == month_days(year as int, month as int),
{
    if month == 2 {
        if leap_year(year) {
            29
        } else {
            28
        }
    } else if month == 4 || month == 6 || month == 9 || month == 11 {
        30
    } else {
        31
    }
}

/// The date of a day counted from the start of 1970.
pub fn date_of_day(days: u32) -> (date: CivilDate)
    requires
        days <= i32::MAX,
    ensures
        date.valid(),
        date.year >= 1970,
        date.number() == days,
{
    let mut year: i32 = 1970;
    let mut rest: u32 = days;
    let mut len: u32 = 365;
    while rest >= len
        invariant
            1970 <= year,
            (year - 1970) * 365 + rest <= days,
            days <= i32::MAX,
            len == year_days(year as int),
            days_between_years(1970, year as int) + rest == days,
        decreases rest,
    {
        rest = rest - len;
        year = year + 1;
        len = if leap_year(year) {
            366
        } else {
            365
        };
    }
    let mut month: u32 = 1;
    let mut md: u32 = 31;
    proof {
        lemma_year_is_its_months(year as int);
    }
    while rest >= md
        invariant
            1 <= month <= 12,
            year >= 1970,
            md == month_days(year as int, month as int),
            rest + days_before_month(year as int, month as int) < year_days(year as int),
            days_before_month(year as int, 13) == year_days(year as int),
            days_between_years(1970, year as int) + days_before_month(year as int, month as int)
                + rest == days,
        decreases rest,
    {
        if month == 12 {
            assert(days_before_month(year as int, 13) == days_before_month(year as int, 12)
                + month_days(year as int, 12));
        }
        rest = rest - md;
        month = month + 1;
        md = days_in_month(year, month);
    }
    CivilDate { year, month, day: rest + 1 }
}

/// The months of a year fill it.
pub proof fn lemma_year_is_its_months(year: int)
    ensures
        days_before_month(year, 13) == year_days(year),
{
    reveal_with_fuel(days_before_month, 14);
}

proof fn lemma_days_between_monotonic(from: int, a: int, b: int)
    requires
        a < b,
        from <= a,
    ensures
        days_between_years(from, a) + year_days(a) <= days_between_years(from, b),
    decreases b - a,
{
    if a + 1 < b {
        lemma_days_between_monotonic(from, a, b - 1);
    }
}

proof fn lemma_days_between_splits(from: int, mid: int, to: int)
    requires
        from <= mid <= to,
    ensures
        days_between_years(from, to) == days_between_years(from, mid) + days_between_years(mid, to),
    decreases to - mid,
{
    if mid < to {
        lemma_days_between_splits(from, mid, to - 1);
    }
}

proof fn lemma_days_before_month_monotonic(year: int, a: int, b: int)
    requires
        1 <= a < b,
    ensures
        days_before_month(year, a) + month_days(year, a) <= days_before_month(year, b),
    decreases b - a,
{
    if a + 1 < b {
        lemma_days_before_month_monotonic(year, a, b - 1);
    }
}

proof fn lemma_date_within_year(year: int, month: int, day: int)
    requires
        valid_date(year, month, day),
    ensures
        0 <= days_before_month(year, month) + day - 1 < year_days(year),
{
    lemma_year_is_its_months(year);
    lemma_days_before_month_monotonic(year, month, 13);
    lemma_before_month_nonnegative(year, month);
}

proof fn lemma_before_month_nonnegative(year: int, month: int)
    ensures
        days_before_month(year, month) >= 0,
    decreases month,
{
    if month > 1 {
        lemma_before_month_nonnegative(year, month - 1);
    }
}

/// The days before a year, counted from 1970, grow by the length of each year.
proof fn lemma_year_starts(a: int, b: int)
    requires
        a < b,
    ensures
        day_number(a, 1, 1) + year_days(a) <= day_number(b, 1, 1),
{
    if a >= 1970 {
        lemma_days_between_monotonic(1970, a, b);
    } else if b <= 1970 {
        lemma_days_between_splits(a, b, 1970);
        lemma_days_between_monotonic(a, a, b);
    } else {
        lemma_days_between_monotonic(a, a, 1970);
        lemma_days_between_monotonic(1970, 1970, b);
    }
}

/// A later date has a greater day number.
pub proof fn lemma_day_number_orders(y1: int, m1: int, d1: int, y2: int, m2: int, d2: int)
    requires
        valid_date(y1, m1, d1),
        valid_date(y2, m2, d2),
        y1 < y2 || (y1 == y2 && (m1 < m2 || (m1 == m2 && d1 < d2))),
    ensures
        day_number(y1, m1, d1) < day_number(y2, m2, d2),
{
    lemma_date_within_year(y1, m1, d1);
    lemma_date_within_year(y2, m2, d2);
    if y1 < y2 {
        lemma_year_starts(y1, y2);
    } else if m1 < m2 {
        lemma_days_before_month_monotonic(y1, m1, m2);
    }
}

/// A day number belongs to one date only.
pub proof fn lemma_day_number_is_of_one_date(a: CivilDate, b: CivilDate)
    requires
        a.valid(),
        b.valid(),
        a.number() == b.number(),
    ensures
        a == b,
{
    let (y1, m1, d1) = (a.year as int, a.month as int, a.day as int);
    let (y2, m2, d2) = (b.year as int, b.month as int, b.day as int);
    if y1 < y2 || (y1 == y2 && (m1 < m2 || (m1 == m2 && d1 < d2))) {
        lemma_day_number_orders(y1, m1, d1, y2, m2, d2);
    }
    if y2 < y1 || (y2 == y1 && (m2 < m1 || (m2 == m1 && d2 < d1))) {
        lemma_day_number_orders(y2, m2, d2, y1, m1, d1);
    }
}

proof fn lemma_years_by_arithmetic(from: int, to: int)
    requires
        from <= to,
    ensures
        days_between_years(from, to) == 365 * (to - from) + ((to - 1) / 4 - (to - 1) / 100 + (to - 1)
            / 400) - ((from - 1) / 4 - (from - 1) / 100 + (from - 1) / 400),
    decreases to - from,
{
    if from < to {
        lemma_years_by_arithmetic(from, to - 1);
    }
}

/// The day number of a date by plain arithmetic: 365 days for each year from 1970
/// on, one more for each year that four divides, but for those that a hundred
/// divides and four hundred does not, and then the days of the months and of the
/// month. From March on five months have 153 days.
pub proof fn lemma_day_number_by_arithmetic(year: int, month: int, day: int)
    requires
        1 <= month <= 12,
    ensures
        day_number(year, month, day) == 365 * (year - 1970) + (year - 1) / 4 - (year - 1) / 100 + (
        year - 1) / 400 - 477 + (if month <= 2 {
            31 * (month - 1)
        } else if year % 4 == 0 && (year % 100 != 0 || year % 400 == 0) {
            60 + (153 * (month - 3) + 2) / 5
        } else {
            59 + (153 * (month - 3) + 2) / 5
        }) + day - 1,
{
    if year >= 1970 {
        lemma_years_by_arithmetic(1970, year);
    } else {
        lemma_years_by_arithmetic(year, 1970);
    }
    reveal_with_fuel(days_before_month, 13);
    if month == 3 {
    } else if month == 4 {
    } else if month == 5 {
    } else if month == 6 {
    } else if month == 7 {
    } else if month == 8 {
    } else if month == 9 {
    } else if month == 10 {
    } else if month == 11 {
    }
}

/// The calendar has the days of a month from the first up to the one before the
/// first of the next month. A year with 366 days between its first day and that of
/// the next year is a leap year, and each other one has 365.
pub proof fn lemma_months_and_years_follow(year: int, month: int, day: int)
    requires
        1 <= month <= 12,
    ensures
        valid_date(year, month, day) <==> 1 <= day && day_number(year, month, day) < (if month
            == 12 {
            day_number(year + 1, 1, 1)
        } else {
            day_number(year, month + 1, 1)
        }),
        !valid_date(year, 0, day) && !valid_date(year, 13, day),
        month_days(year, month) == (if month == 12 {
            day_number(year + 1, 1, 1)
        } else {
            day_number(year, month + 1, 1)
        }) - day_number(year, month, 1),
        year_days(year) == day_number(year + 1, 1, 1) - day_number(year, 1, 1),
        is_leap(year) <==> day_number(year + 1, 1, 1) - day_number(year, 1, 1) == 366,
{
    lemma_year_is_its_months(year);
    lemma_day_number_by_arithmetic(year, 1, 1);
    lemma_day_number_by_arithmetic(year + 1, 1, 1);
    assert(day_number(year + 1, 1, 1) - day_number(year, 1, 1) == year_days(year));
    assert(days_before_month(year, 1) == 0);
    if month == 12 {
        assert(days_before_month(year, 13) == days_before_month(year, 12) + month_days(year, 12));
    } else {
        assert(days_before_month(year, month + 1) == days_before_month(year, month) + month_days(
            year,
            month,
        ));
    }
}

} // verus!
