//! Calendar dates of the proleptic Gregorian calendar.
//!
//! A [`Date`] is a plain year/month/day triple. Its mathematical meaning
//! is its *day index*: the number of days since January 1 of year 1
//! (index 0, a Monday). All week arithmetic is stated over that index.

use vstd::prelude::*;

verus! {

/// A calendar date. Valid dates (see [`Date::valid`]) range from
/// 0001-01-01 to 9999-12-31.
#[derive(Clone, Copy, Debug, PartialEq, Eq, Structural)]
pub struct Date {
    pub year: u32,
    pub month: u32,
    pub day: u32,
}

pub open spec fn is_leap_year(y: int) -> bool {
    (y % 4 == 0 && y % 100 != 0) || y % 400 == 0
}

pub open spec fn spec_days_in_month(y: int, m: int) -> int {
    if m == 2 {
        if is_leap_year(y) {
            29
        } else {
            28
        }
    } else if m == 4 || m == 6 || m == 9 || m == 11 {
        30
    } else {
        31
    }
}

pub open spec fn spec_days_in_year(y: int) -> int {
    if is_leap_year(y) {
        366
    } else {
        365
    }
}

/// Days in the months `1 .. m` of year `y`, i.e. days of year `y` that
/// precede the first day of month `m`.
pub open spec fn spec_days_before_month(y: int, m: int) -> int
    decreases m,
{
    if m <= 1 {
        0
    } else {
        spec_days_before_month(y, m - 1) + spec_days_in_month(y, m - 1)
    }
}

/// Days in the years `1 .. y`, i.e. days that precede January 1 of year `y`.
pub open spec fn spec_days_before_year(y: int) -> int
    decreases y,
{
    if y <= 1 {
        0
    } else {
        spec_days_before_year(y - 1) + spec_days_in_year(y - 1)
    }
}

impl Date {
    pub open spec fn valid(self) -> bool {
        1 <= self.year <= 9999 && 1 <= self.month <= 12 && 1 <= self.day
            <= spec_days_in_month(self.year as int, self.month as int)
    }

    /// The number of days between 0001-01-01 and this date.
    pub open spec fn index(self) -> int {
        spec_days_before_year(self.year as int) + spec_days_before_month(
            self.year as int,
            self.month as int,
        ) + self.day - 1
    }
}

/// The largest valid date; bounds on day arithmetic are stated against it.
pub open spec fn max_date() -> Date {
    Date { year: 9999, month: 12, day: 31 }
}

proof fn lemma_days_before_month_bounds(y: int, m: int)
    requires
        1 <= m <= 13,
    ensures
        0 <= spec_days_before_month(y, m) <= 31 * (m - 1),
    decreases m,
{
    if m > 1 {
        lemma_days_before_month_bounds(y, m - 1);
    }
}

proof fn lemma_days_before_year_bounds(y: int)
    requires
        1 <= y,
    ensures
        0 <= spec_days_before_year(y) <= 366 * (y - 1),
    decreases y,
{
    if y > 1 {
        lemma_days_before_year_bounds(y - 1);
    }
}

/// A valid date's index lies within `0 .. 3_660_000`, so it fits in `u32`.
pub proof fn lemma_index_bounds(d: Date)
    requires
        d.valid(),
    ensures
        0 <= d.index() < 3_660_000,
{
    lemma_days_before_year_bounds(d.year as int);
    lemma_days_before_month_bounds(d.year as int, d.month as int);
}

impl Date {
    /// Whether `year` is a leap year of the Gregorian calendar.
    pub fn is_leap(year: u32) -> (r: bool)
        ensures
            r == is_leap_year(year as int),
    {
        (year % 4 == 0 && year % 100 != 0) || year % 400 == 0
    }

    /// The number of days in month `month` of year `year`.
    pub fn days_in_month(year: u32, month: u32) -> (r: u32)
        requires
            1 <= month <= 12,
        ensures
            r == spec_days_in_month(year as int, month as int),
    {
        if month == 2 {
            if Self::is_leap(year) {
                29
            } else {
                28
            }
        } else if month == 4 || month == 6 || month == 9 || month == 11 {
            30
        } else {
            31
        }
    }

    /// The day index of this date.
    pub fn day_index(&self) -> (r: u32)
        requires
            self.valid(),
        ensures
            r == self.index(),
    {
        proof {
            lemma_index_bounds(*self);
        }
        let mut days: u32 = 0;
        let mut y: u32 = 1;
        while y < self.year
            invariant
                1 <= y <= self.year,
                self.valid(),
                days == spec_days_before_year(y as int),
            decreases self.year - y,
        {
            proof {
                lemma_days_before_year_bounds(y as int + 1);
            }
            days = days + if Self::is_leap(y) {
                366
            } else {
                365
            };
            y = y + 1;
        }
        let mut m: u32 = 1;
        while m < self.month
            invariant
                1 <= m <= self.month,
                self.valid(),
                days == spec_days_before_year(self.year as int) + spec_days_before_month(
                    self.year as int,
                    m as int,
                ),
            decreases self.month - m,
        {
            proof {
                lemma_days_before_year_bounds(self.year as int);
                lemma_days_before_month_bounds(self.year as int, m as int + 1);
            }
            days = days + Self::days_in_month(self.year, m);
            m = m + 1;
        }
        days + self.day - 1
    }

    /// Whether the fields name a valid calendar date.
    pub fn check_valid(&self) -> (r: bool)
        ensures
            r == self.valid(),
    {
        1 <= self.year && self.year <= 9999 && 1 <= self.month && self.month <= 12 && 1 <= self.day
            && self.day <= Self::days_in_month(self.year, self.month)
    }

    /// The date with the given fields, if they name a valid calendar date.
    pub fn from_ymd(year: u32, month: u32, day: u32) -> (r: Option<Date>)
        ensures
            match r {
                Some(d) => d == (Date { year, month, day }) && d.valid(),
                None => !(Date { year, month, day }).valid(),
            },
    {
        if 1 <= year && year <= 9999 && 1 <= month && month <= 12 && 1 <= day && day
            <= Self::days_in_month(year, month) {
            Some(Date { year, month, day })
        } else {
            None
        }
    }
}

proof fn lemma_months_fill_year(y: int)
    ensures
        spec_days_before_month(y, 13) == spec_days_in_year(y),
{
    reveal_with_fuel(spec_days_before_month, 13);
}

proof fn lemma_days_before_month_mono(y: int, m1: int, m2: int)
    requires
        m1 <= m2,
    ensures
        spec_days_before_month(y, m1) <= spec_days_before_month(y, m2),
    decreases m2 - m1,
{
    if m1 < m2 {
        lemma_days_before_month_mono(y, m1, m2 - 1);
    }
}

proof fn lemma_days_before_year_mono(y1: int, y2: int)
    requires
        1 <= y1 <= y2,
    ensures
        spec_days_before_year(y1) <= spec_days_before_year(y2),
    decreases y2 - y1,
{
    if y1 < y2 {
        lemma_days_before_year_mono(y1, y2 - 1);
    }
}

/// A valid date's index stays below the start of the following year.
proof fn lemma_index_within_year(d: Date)
    requires
        d.valid(),
    ensures
        spec_days_before_year(d.year as int) <= d.index() < spec_days_before_year(
            d.year as int + 1,
        ),
{
    lemma_days_before_month_bounds(d.year as int, d.month as int);
    lemma_days_before_month_mono(d.year as int, d.month as int + 1, 13);
    lemma_months_fill_year(d.year as int);
}

/// The day index is strictly increasing in (year, month, day) order,
/// so no two valid dates share an index.
pub proof fn lemma_index_injective(a: Date, b: Date)
    requires
        a.valid(),
        b.valid(),
        a.index() == b.index(),
    ensures
        a == b,
{
    lemma_index_within_year(a);
    lemma_index_within_year(b);
    if a.year < b.year {
        lemma_days_before_year_mono(a.year as int + 1, b.year as int);
    }
    if b.year < a.year {
        lemma_days_before_year_mono(b.year as int + 1, a.year as int);
    }
    if a.month < b.month {
        lemma_days_before_month_mono(a.year as int, a.month as int + 1, b.month as int);
    }
    if b.month < a.month {
        lemma_days_before_month_mono(a.year as int, b.month as int + 1, a.month as int);
    }
}

impl Date {
    /// The date one day later.
    pub fn next_day(&self) -> (r: Date)
        requires
            self.valid(),
            *self != max_date(),
        ensures
            r.valid(),
            r.index() == self.index() + 1,
    {
        let dim = Self::days_in_month(self.year, self.month);
        if self.day < dim {
            Date { year: self.year, month: self.month, day: self.day + 1 }
        } else if self.month < 12 {
            Date { year: self.year, month: self.month + 1, day: 1 }
        } else {
            proof {
                lemma_months_fill_year(self.year as int);
            }
            Date { year: self.year + 1, month: 1, day: 1 }
        }
    }

    /// The date one day earlier.
    pub fn prev_day(&self) -> (r: Date)
        requires
            self.valid(),
            self.index() > 0,
        ensures
            r.valid(),
            r.index() == self.index() - 1,
    {
        if self.day > 1 {
            Date { year: self.year, month: self.month, day: self.day - 1 }
        } else if self.month > 1 {
            let pm = self.month - 1;
            Date { year: self.year, month: pm, day: Self::days_in_month(self.year, pm) }
        } else {
            proof {
                lemma_months_fill_year(self.year as int - 1);
            }
            Date { year: self.year - 1, month: 12, day: 31 }
        }
    }

    /// The date `n` days later.
    pub fn plus_days(&self, n: u32) -> (r: Date)
        requires
            self.valid(),
            self.index() + n <= max_date().index(),
        ensures
            r.valid(),
            r.index() == self.index() + n,
    {
        let mut cur = *self;
        let mut i: u32 = 0;
        while i < n
            invariant
                i <= n,
                cur.valid(),
                cur.index() == self.index() + i,
                self.index() + n <= max_date().index(),
            decreases n - i,
        {
            proof {
                if cur == max_date() {
                    assert(cur.index() == max_date().index());
                }
            }
            cur = cur.next_day();
            i = i + 1;
        }
        cur
    }

    /// The date `n` days earlier.
    pub fn minus_days(&self, n: u32) -> (r: Date)
        requires
            self.valid(),
            n <= self.index(),
        ensures
            r.valid(),
            r.index() == self.index() - n,
    {
        let mut cur = *self;
        let mut i: u32 = 0;
        while i < n
            invariant
                i <= n,
                cur.valid(),
                cur.index() == self.index() - i,
                n <= self.index(),
            decreases n - i,
        {
            cur = cur.prev_day();
            i = i + 1;
        }
        cur
    }
}

} // verus!
