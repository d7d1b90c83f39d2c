//! The real wall clock, read through chrono and clamped into the supported
//! calendar range.

use vstd::prelude::*;

use chrono::{Datelike, Timelike};

use crate::clock::{Clock, Time};
use crate::datetimew::{DateTimeW, MAX_YEAR};

verus! {

/// Relies on chrono's `Local::now` and its field accessors: `month` is 1 to
/// 12, `day` 1 to 31, `hour` below 24, `minute` and `second` below 60; the
/// year is whatever the library reports.
#[verifier::external_body]
fn now_fields() -> (r: (i32, u8, u8, u8, u8, u8))
    ensures
        1 <= r.1 <= 12,
        1 <= r.2 <= 31,
        r.3 < 24,
        r.4 < 60,
        r.5 < 60,
{
    let now = chrono::Local::now();
    (
        now.year(),
        now.month() as u8,
        now.day() as u8,
        now.hour() as u8,
        now.minute() as u8,
        now.second() as u8,
    )
}

/// Builds a valid instant from raw clock fields: the year is clamped into
/// the supported range, the day into the month's length, and out-of-range
/// time fields fall back to zero.
pub fn clamp_to_instant(y: i32, month: u8, day: u8, hour: u8, minute: u8, second: u8) -> (r:
    DateTimeW)
    ensures
        r.is_valid(),
{
    let year: u16 = if y < 1 {
        1
    } else if y > MAX_YEAR as i32 {
        MAX_YEAR
    } else {
        y as u16
    };
    let month: u8 = if 1 <= month && month <= 12 {
        month
    } else {
        1
    };
    let dim = DateTimeW::days_in_month(year, month);
    let day: u8 = if day < 1 {
        1
    } else if day > dim {
        dim
    } else {
        day
    };
    let hour: u8 = if hour < 24 {
        hour
    } else {
        0
    };
    let minute: u8 = if minute < 60 {
        minute
    } else {
        0
    };
    let second: u8 = if second < 60 {
        second
    } else {
        0
    };
    DateTimeW { year, month, day, hour, minute, second }
}

/// The system's local wall clock.
pub struct ChronoClock {}

impl Clock for ChronoClock {
    fn get_time(&self) -> (r: DateTimeW) {
        let (y, month, day, hour, minute, second) = now_fields();
        clamp_to_instant(y, month, day, hour, minute, second)
    }

    fn date_time(&self, time: Time) -> (r: DateTimeW) {
        match time {
            Time::Now => self.get_time(),
            Time::DateTime(abs_time) => abs_time,
        }
    }

    fn today_range(&self) -> (r: (DateTimeW, DateTimeW)) {
        let today = self.get_time();
        (today.start_of_day(), today.end_of_day())
    }

    fn yesterday_range(&self) -> (r: (DateTimeW, DateTimeW)) {
        let today = self.get_time();
        let yesterday = today.date_minus_days(if today.day_index() >= 1 {
            1
        } else {
            0
        });
        (yesterday, yesterday.end_of_day())
    }

    fn last_week_range(&self) -> (r: (DateTimeW, DateTimeW)) {
        let today = self.get_time();
        let weekday = today.weekday_from_monday();
        proof {
            crate::datetimew::lemma_timestamp_bounds(today);
            vstd::arithmetic::div_mod::lemma_fundamental_div_mod(
                today.spec_day_index(),
                7,
            );
            assert(today.spec_day_index() >= today.spec_day_index() % 7) by (nonlinear_arith)
                requires
                    today.spec_day_index() >= 0,
            ;
        }
        let this_monday = today.date_minus_days(weekday);
        proof {
            assert(this_monday.spec_day_index() == 7 * (today.spec_day_index() / 7));
            assert((7 * (today.spec_day_index() / 7)) % 7 == 0) by (nonlinear_arith);
        }
        let last_monday = this_monday.date_minus_days(if this_monday.day_index() >= 7 {
            7
        } else {
            0
        });
        proof {
            assert(last_monday.spec_day_index() % 7 == 0) by (nonlinear_arith)
                requires
                    last_monday.spec_day_index() == this_monday.spec_day_index() - 7
                        || last_monday.spec_day_index() == this_monday.spec_day_index(),
                    this_monday.spec_day_index() % 7 == 0,
                    this_monday.spec_day_index() >= 0,
            ;
        }
        let last_sunday = last_monday.date_plus_days(6);
        (last_monday, last_sunday.end_of_day())
    }

    fn this_week_range(&self) -> (r: (DateTimeW, DateTimeW)) {
        let today = self.get_time();
        let weekday = today.weekday_from_monday();
        proof {
            crate::datetimew::lemma_timestamp_bounds(today);
            vstd::arithmetic::div_mod::lemma_fundamental_div_mod(
                today.spec_day_index(),
                7,
            );
            assert(today.spec_day_index() >= today.spec_day_index() % 7) by (nonlinear_arith)
                requires
                    today.spec_day_index() >= 0,
            ;
        }
        let monday = today.date_minus_days(weekday);
        proof {
            assert(monday.spec_day_index() == 7 * (today.spec_day_index() / 7));
            assert((7 * (today.spec_day_index() / 7)) % 7 == 0) by (nonlinear_arith);
        }
        let sunday = monday.date_plus_days(6);
        (monday, sunday.end_of_day())
    }
}

} // verus!
