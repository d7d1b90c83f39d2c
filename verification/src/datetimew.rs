//! Wall-clock instants at second resolution, in the proleptic Gregorian
//! calendar (local civil time, no zone arithmetic).
//!
//! An instant is ordered and subtracted through its timestamp: the number of
//! seconds since 0001-01-01T00:00:00.

use vstd::prelude::*;

use crate::durationw::DurationW;
use crate::text::{append_four_digits, append_two_digits, push_char, two_digits, four_digits};

verus! {

/// Largest supported year.
pub const MAX_YEAR: u16 = 9999;

/// Seconds in one calendar day.
pub const SECONDS_PER_DAY: u64 = 86400;

/// Gregorian leap-year rule.
pub open spec fn is_leap_year(y: int) -> bool {
    (y % 4 == 0 && y % 100 != 0) || y % 400 == 0
}

/// Days in year `y`.
pub open spec fn days_in_year(y: int) -> int {
    if is_leap_year(y) {
        366
    } else {
        365
    }
}

/// Days in month `m` of year `y` (`m` between 1 and 12).
pub open spec fn spec_days_in_month(y: int, m: int) -> int {
    if m == 2 {
        if is_leap_year(y) {
            29
        } else {
            28
        }
    } else if m == 4 || m == 6 || m == 9 || m == 11 {
        30
    } else {
        31
    }
}

/// Days from 0001-01-01 up to January 1st of year `y`.
pub open spec fn days_before_year(y: int) -> int
    decreases y,
{
    if y <= 1 {
        0
    } else {
        days_before_year(y - 1) + days_in_year(y - 1)
    }
}

/// Days from January 1st of year `y` up to the first day of month `m`.
pub open spec fn days_before_month(y: int, m: int) -> int
    decreases m,
{
    if m <= 1 {
        0
    } else {
        days_before_month(y, m - 1) + spec_days_in_month(y, m - 1)
    }
}

/// A point in local civil time, second resolution.
#[derive(Clone, Copy, Debug, PartialEq, Eq, Structural)]
pub struct DateTimeW {
    pub year: u16,
    pub month: u8,
    pub day: u8,
    pub hour: u8,
    pub minute: u8,
    pub second: u8,
}

impl DateTimeW {
    /// The fields form a real calendar date and time of day.
    pub open spec fn is_valid(self) -> bool {
        &&& 1 <= self.year <= MAX_YEAR
        &&& 1 <= self.month <= 12
        &&& 1 <= self.day <= spec_days_in_month(self.year as int, self.month as int)
        &&& self.hour < 24
        &&& self.minute < 60
        &&& self.second < 60
    }

    /// Days from 0001-01-01 to this date.
    pub open spec fn spec_day_index(self) -> int {
        days_before_year(self.year as int) + days_before_month(self.year as int, self.month as int)
            + (self.day - 1)
    }

    /// Seconds since this date's midnight.
    pub open spec fn spec_second_of_day(self) -> int {
        self.hour * 3600 + self.minute * 60 + self.second
    }

    /// Seconds since 0001-01-01T00:00:00; instants compare by this value.
    pub open spec fn timestamp(self) -> int {
        self.spec_day_index() * (SECONDS_PER_DAY as int) + self.spec_second_of_day()
    }
}

/// `days_before_year` grows by whole years of at most 366 days.
pub proof fn lemma_days_before_year_bounds(y: int)
    requires
        1 <= y,
    ensures
        365 * (y - 1) <= days_before_year(y) <= 366 * (y - 1),
    decreases y,
{
    if y > 1 {
        lemma_days_before_year_bounds(y - 1);
    }
}

/// `days_before_month` stays under a year's length.
pub proof fn lemma_days_before_month_bounds(y: int, m: int)
    requires
        1 <= m <= 13,
    ensures
        28 * (m - 1) <= days_before_month(y, m) <= 31 * (m - 1),
    decreases m,
{
    if m > 1 {
        lemma_days_before_month_bounds(y, m - 1);
    }
}

/// A valid instant's day index and timestamp stay well under `u64` range.
pub proof fn lemma_timestamp_bounds(dt: DateTimeW)
    requires
        dt.is_valid(),
    ensures
        0 <= dt.spec_day_index() < 3_660_000,
        0 <= dt.spec_second_of_day() < 86400,
        0 <= dt.timestamp() < 0x4_000_000_000_000,
{
    lemma_days_before_year_bounds(dt.year as int);
    lemma_days_before_month_bounds(dt.year as int, dt.month as int);
}

/// The twelve months of year `y` sum to its length.
pub proof fn lemma_months_fill_year(y: int)
    ensures
        days_before_month(y, 13) == days_in_year(y),
{
    reveal_with_fuel(days_before_month, 13);
}

/// `days_before_month` never decreases along the year.
pub proof fn lemma_days_before_month_monotone(y: int, m1: int, m2: int)
    requires
        1 <= m1 <= m2 <= 13,
    ensures
        days_before_month(y, m1) <= days_before_month(y, m2),
    decreases m2,
{
    if m1 < m2 {
        lemma_days_before_month_monotone(y, m1, m2 - 1);
    }
}

/// `days_before_year` never decreases along the years.
pub proof fn lemma_days_before_year_monotone(y1: int, y2: int)
    requires
        y1 <= y2,
    ensures
        days_before_year(y1) <= days_before_year(y2),
    decreases y2 - y1,
{
    if y1 < y2 {
        lemma_days_before_year_monotone(y1, y2 - 1);
    }
}

/// A valid instant's day index lies inside its year's day range.
pub proof fn lemma_day_index_in_year(dt: DateTimeW)
    requires
        dt.is_valid(),
    ensures
        days_before_year(dt.year as int) <= dt.spec_day_index() < days_before_year(
            dt.year as int + 1,
        ),
{
    let y = dt.year as int;
    let m = dt.month as int;
    lemma_days_before_month_monotone(y, 1, m);
    assert(days_before_month(y, m + 1) == days_before_month(y, m) + spec_days_in_month(y, m));
    lemma_days_before_month_monotone(y, m + 1, 13);
    lemma_months_fill_year(y);
    assert(days_before_year(y + 1) == days_before_year(y) + days_in_year(y));
}

/// A day strictly before another valid instant's day is never the calendar's
/// last supported date.
pub proof fn lemma_not_last_day(a: DateTimeW, b: DateTimeW)
    requires
        a.is_valid(),
        b.is_valid(),
        a.spec_day_index() < b.spec_day_index(),
    ensures
        a.year < MAX_YEAR || !(a.month == 12 && a.day == 31),
{
    if a.year == MAX_YEAR && a.month == 12 && a.day == 31 {
        lemma_months_fill_year(MAX_YEAR as int);
        reveal_with_fuel(days_before_month, 13);
        assert(a.spec_day_index() == days_before_year(MAX_YEAR as int + 1) - 1);
        lemma_day_index_in_year(b);
        lemma_days_before_year_monotone(b.year as int + 1, MAX_YEAR as int + 1);
        assert(false);
    }
}

impl DateTimeW {
    /// Days in month `month` of year `year`.
    pub fn days_in_month(year: u16, month: u8) -> (r: u8)
        requires
            1 <= month <= 12,
        ensures
            r == spec_days_in_month(year as int, month as int),
    {
        if month == 2 {
            let leap: bool = (year % 4 == 0 && year % 100 != 0) || year % 400 == 0;
            if leap {
                29
            } else {
                28
            }
        } else if month == 4 || month == 6 || month == 9 || month == 11 {
            30
        } else {
            31
        }
    }

    /// Build an instant; `None` iff the fields are no real date or time of day.
    pub fn new(year: u16, month: u8, day: u8, hour: u8, minute: u8, second: u8) -> (r: Option<
        DateTimeW,
    >)
        ensures
            ({
                let dt = DateTimeW { year, month, day, hour, minute, second };
                if dt.is_valid() {
                    r == Some(dt)
                } else {
                    r is None
                }
            }),
    {
        let dt = DateTimeW { year, month, day, hour, minute, second };
        if 1 <= year && year <= MAX_YEAR && 1 <= month && month <= 12 && 1 <= day && day
            <= Self::days_in_month(year, month) && hour < 24 && minute < 60 && second < 60 {
            Some(dt)
        } else {
            None
        }
    }

    /// Decides whether the fields form a real date and time of day.
    pub fn check_valid(&self) -> (r: bool)
        ensures
            r == self.is_valid(),
    {
        1 <= self.year && self.year <= MAX_YEAR && 1 <= self.month && self.month <= 12 && 1
            <= self.day && self.day <= Self::days_in_month(self.year, self.month) && self.hour < 24
            && self.minute < 60 && self.second < 60
    }

    /// Days from 0001-01-01 to this date.
    pub fn day_index(&self) -> (r: u64)
        requires
            self.is_valid(),
        ensures
            r == self.spec_day_index(),
    {
        proof {
            lemma_timestamp_bounds(*self);
        }
        let mut acc: u64 = 0;
        let mut y: u16 = 1;
        while y < self.year
            invariant
                1 <= y <= self.year <= MAX_YEAR,
                acc == days_before_year(y as int),
                acc <= 366 * (y - 1),
            decreases self.year - y,
        {
            let leap: bool = (y % 4 == 0 && y % 100 != 0) || y % 400 == 0;
            acc = acc + if leap {
                366
            } else {
                365
            };
            y = y + 1;
            proof {
                lemma_days_before_year_bounds(y as int);
            }
        }
        let mut m: u8 = 1;
        while m < self.month
            invariant
                self.is_valid(),
                1 <= m <= self.month,
                acc == days_before_year(self.year as int) + days_before_month(
                    self.year as int,
                    m as int,
                ),
                acc <= 366 * (self.year - 1) + 31 * (m - 1),
            decreases self.month - m,
        {
            acc = acc + Self::days_in_month(self.year, m) as u64;
            m = m + 1;
        }
        acc + (self.day - 1) as u64
    }

    /// Seconds since this date's midnight.
    pub fn second_of_day(&self) -> (r: u64)
        requires
            self.is_valid(),
        ensures
            r == self.spec_second_of_day(),
    {
        self.hour as u64 * 3600 + self.minute as u64 * 60 + self.second as u64
    }

    /// Seconds since 0001-01-01T00:00:00.
    pub fn timestamp_secs(&self) -> (r: u64)
        requires
            self.is_valid(),
        ensures
            r == self.timestamp(),
    {
        proof {
            lemma_timestamp_bounds(*self);
        }
        self.day_index() * SECONDS_PER_DAY + self.second_of_day()
    }

    /// Chronological `self <= other`.
    pub fn le(&self, other: &DateTimeW) -> (r: bool)
        requires
            self.is_valid(),
            other.is_valid(),
        ensures
            r == (self.timestamp() <= other.timestamp()),
    {
        self.timestamp_secs() <= other.timestamp_secs()
    }

    /// Chronological `self < other`.
    pub fn lt(&self, other: &DateTimeW) -> (r: bool)
        requires
            self.is_valid(),
            other.is_valid(),
        ensures
            r == (self.timestamp() < other.timestamp()),
    {
        self.timestamp_secs() < other.timestamp_secs()
    }

    /// Signed distance `self - rhs` in seconds.
    pub fn diff(&self, rhs: &DateTimeW) -> (r: DurationW)
        requires
            self.is_valid(),
            rhs.is_valid(),
        ensures
            r.secs == self.timestamp() - rhs.timestamp(),
    {
        proof {
            lemma_timestamp_bounds(*self);
            lemma_timestamp_bounds(*rhs);
        }
        DurationW { secs: self.timestamp_secs() as i64 - rhs.timestamp_secs() as i64 }
    }

    /// This date's midnight.
    pub fn start_of_day(&self) -> (r: DateTimeW)
        requires
            self.is_valid(),
        ensures
            r.is_valid(),
            r.spec_day_index() == self.spec_day_index(),
            r.spec_second_of_day() == 0,
    {
        DateTimeW { hour: 0, minute: 0, second: 0, ..*self }
    }

    /// This date's last representable second, 23:59:59.
    pub fn end_of_day(&self) -> (r: DateTimeW)
        requires
            self.is_valid(),
        ensures
            r.is_valid(),
            r.spec_day_index() == self.spec_day_index(),
            r.spec_second_of_day() == 86399,
    {
        DateTimeW { hour: 23, minute: 59, second: 59, ..*self }
    }

    /// Midnight of the following day.
    pub fn next_day_start(&self) -> (r: DateTimeW)
        requires
            self.is_valid(),
            self.year < MAX_YEAR || !(self.month == 12 && self.day == 31),
        ensures
            r.is_valid(),
            r.spec_day_index() == self.spec_day_index() + 1,
            r.spec_second_of_day() == 0,
    {
        if self.day < Self::days_in_month(self.year, self.month) {
            DateTimeW {
                day: self.day + 1,
                hour: 0,
                minute: 0,
                second: 0,
                ..*self
            }
        } else if self.month < 12 {
            DateTimeW {
                month: self.month + 1,
                day: 1,
                hour: 0,
                minute: 0,
                second: 0,
                ..*self
            }
        } else {
            proof {
                lemma_months_fill_year(self.year as int);
            }
            DateTimeW { year: self.year + 1, month: 1, day: 1, hour: 0, minute: 0, second: 0 }
        }
    }

    /// Midnight of the previous day; 0001-01-01 has none.
    pub fn prev_date(&self) -> (r: DateTimeW)
        requires
            self.is_valid(),
            self.spec_day_index() > 0,
        ensures
            r.is_valid(),
            r.spec_day_index() == self.spec_day_index() - 1,
            r.spec_second_of_day() == 0,
    {
        if self.day > 1 {
            DateTimeW {
                day: self.day - 1,
                hour: 0,
                minute: 0,
                second: 0,
                ..*self
            }
        } else if self.month > 1 {
            DateTimeW {
                month: self.month - 1,
                day: Self::days_in_month(self.year, self.month - 1),
                hour: 0,
                minute: 0,
                second: 0,
                ..*self
            }
        } else {
            proof {
                lemma_months_fill_year(self.year as int - 1);
                lemma_days_before_year_bounds(self.year as int);
            }
            DateTimeW {
                year: self.year - 1,
                month: 12,
                day: 31,
                hour: 0,
                minute: 0,
                second: 0,
            }
        }
    }

    /// Midnight `k` days before this date.
    pub fn date_minus_days(&self, k: u8) -> (r: DateTimeW)
        requires
            self.is_valid(),
            self.spec_day_index() >= k,
        ensures
            r.is_valid(),
            r.spec_day_index() == self.spec_day_index() - k,
            r.spec_second_of_day() == 0,
    {
        let mut cur = self.start_of_day();
        let mut left: u8 = k;
        while left > 0
            invariant
                cur.is_valid(),
                cur.spec_second_of_day() == 0,
                self.spec_day_index() >= k,
                cur.spec_day_index() == self.spec_day_index() - (k - left),
                left <= k,
            decreases left,
        {
            cur = cur.prev_date();
            left = left - 1;
        }
        cur
    }

    /// The display form `YYYY-MM-DDTHH:MM:SS` of this instant.
    pub open spec fn spec_text(self) -> Seq<char> {
        four_digits(self.year as int) + seq!['-'] + two_digits(self.month as int) + seq!['-']
            + two_digits(self.day as int) + seq!['T'] + two_digits(self.hour as int) + seq![':']
            + two_digits(self.minute as int) + seq![':'] + two_digits(self.second as int)
    }

    /// Formats this instant as `YYYY-MM-DDTHH:MM:SS`.
    pub fn to_text(&self) -> (r: String)
        requires
            self.is_valid(),
        ensures
            r@ == self.spec_text(),
    {
        let mut r = String::new();
        append_four_digits(&mut r, self.year as u64);
        push_char(&mut r, '-');
        append_two_digits(&mut r, self.month as u64);
        push_char(&mut r, '-');
        append_two_digits(&mut r, self.day as u64);
        push_char(&mut r, 'T');
        append_two_digits(&mut r, self.hour as u64);
        push_char(&mut r, ':');
        append_two_digits(&mut r, self.minute as u64);
        push_char(&mut r, ':');
        append_two_digits(&mut r, self.second as u64);
        proof {
            assert(r@ =~= self.spec_text());
        }
        r
    }

    /// The time-of-day label `HH:MM`.
    pub open spec fn spec_hh_mm(self) -> Seq<char> {
        two_digits(self.hour as int) + seq![':'] + two_digits(self.minute as int)
    }

    /// Formats the time of day as `HH:MM`.
    pub fn hh_mm(&self) -> (r: String)
        requires
            self.is_valid(),
        ensures
            r@ == self.spec_hh_mm(),
    {
        let mut r = String::new();
        append_two_digits(&mut r, self.hour as u64);
        push_char(&mut r, ':');
        append_two_digits(&mut r, self.minute as u64);
        proof {
            assert(r@ =~= self.spec_hh_mm());
        }
        r
    }

    /// The calendar-day label `DD/MM`.
    pub open spec fn spec_dd_mm(self) -> Seq<char> {
        two_digits(self.day as int) + seq!['/'] + two_digits(self.month as int)
    }

    /// Formats the date as `DD/MM`.
    pub fn dd_mm(&self) -> (r: String)
        requires
            self.is_valid(),
        ensures
            r@ == self.spec_dd_mm(),
    {
        let mut r = String::new();
        append_two_digits(&mut r, self.day as u64);
        push_char(&mut r, '/');
        append_two_digits(&mut r, self.month as u64);
        proof {
            assert(r@ =~= self.spec_dd_mm());
        }
        r
    }

    /// This is the calendar's last supported date, 9999-12-31.
    pub fn is_last_date(&self) -> (r: bool)
        ensures
            r == (self.year == MAX_YEAR && self.month == 12 && self.day == 31),
    {
        self.year == MAX_YEAR && self.month == 12 && self.day == 31
    }

    /// Midnight `k` days after this date, stopping at the calendar's last
    /// supported date.
    pub fn date_plus_days(&self, k: u8) -> (r: DateTimeW)
        requires
            self.is_valid(),
        ensures
            r.is_valid(),
            r.spec_second_of_day() == 0,
            self.spec_day_index() <= r.spec_day_index() <= self.spec_day_index() + k,
    {
        let mut cur = self.start_of_day();
        let mut left: u8 = k;
        while left > 0 && !cur.is_last_date()
            invariant
                cur.is_valid(),
                cur.spec_second_of_day() == 0,
                left <= k,
                self.spec_day_index() <= cur.spec_day_index() <= self.spec_day_index() + (k
                    - left),
            decreases left,
        {
            cur = cur.next_day_start();
            left = left - 1;
        }
        cur
    }

    /// Day of the week as days since Monday (0 = Monday, 6 = Sunday);
    /// 0001-01-01 of the proleptic Gregorian calendar is a Monday.
    pub fn weekday_from_monday(&self) -> (r: u8)
        requires
            self.is_valid(),
        ensures
            r == self.spec_day_index() % 7,
            r < 7,
    {
        (self.day_index() % 7) as u8
    }
}

} // verus!
