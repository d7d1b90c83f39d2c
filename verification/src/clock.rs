//! The clock abstraction: the current instant and named day ranges.

use vstd::prelude::*;

use crate::datetimew::DateTimeW;

verus! {

/// A point in time, absolute or relative to the clock.
#[derive(Debug, Clone, Copy, PartialEq, Eq, Structural)]
pub enum Time {
    /// Now; resolved to an instant by `Clock::date_time`.
    Now,
    /// An absolute instant.
    DateTime(DateTimeW),
}

/// A wall clock: supplies the current instant and named ranges as
/// `(start, end)` pairs inclusive of the `00:00:00` and `23:59:59` bounds.
pub trait Clock {
    /// The current local time.
    fn get_time(&self) -> (r: DateTimeW)
        ensures
            r.is_valid(),
    ;

    /// Resolves a `Time` to an absolute instant: `Now` becomes the current
    /// time, an absolute instant is returned as it is.
    fn date_time(&self, time: Time) -> (r: DateTimeW)
        requires
            time matches Time::DateTime(dt) ==> dt.is_valid(),
        ensures
            r.is_valid(),
            time matches Time::DateTime(dt) ==> r == dt,
    ;

    /// Today's range: `00:00:00` to `23:59:59` of one calendar day.
    fn today_range(&self) -> (r: (DateTimeW, DateTimeW))
        ensures
            r.0.is_valid(),
            r.1.is_valid(),
            r.0.spec_second_of_day() == 0,
            r.1.spec_second_of_day() == 86399,
            r.0.spec_day_index() == r.1.spec_day_index(),
    ;

    /// Yesterday's range: `00:00:00` to `23:59:59` of one calendar day.
    fn yesterday_range(&self) -> (r: (DateTimeW, DateTimeW))
        ensures
            r.0.is_valid(),
            r.1.is_valid(),
            r.0.spec_second_of_day() == 0,
            r.1.spec_second_of_day() == 86399,
            r.0.spec_day_index() == r.1.spec_day_index(),
    ;

    /// Last ISO-8601 week: Monday `00:00:00` to Sunday `23:59:59` (clipped
    /// only at the calendar's supported bounds).
    fn last_week_range(&self) -> (r: (DateTimeW, DateTimeW))
        ensures
            r.0.is_valid(),
            r.1.is_valid(),
            r.0.spec_second_of_day() == 0,
            r.1.spec_second_of_day() == 86399,
            r.0.spec_day_index() % 7 == 0,
            r.0.spec_day_index() <= r.1.spec_day_index() <= r.0.spec_day_index() + 6,
    ;

    /// This ISO-8601 week: Monday `00:00:00` to Sunday `23:59:59` (clipped
    /// only at the calendar's supported bounds).
    fn this_week_range(&self) -> (r: (DateTimeW, DateTimeW))
        ensures
            r.0.is_valid(),
            r.1.is_valid(),
            r.0.spec_second_of_day() == 0,
            r.1.spec_second_of_day() == 86399,
            r.0.spec_day_index() % 7 == 0,
            r.0.spec_day_index() <= r.1.spec_day_index() <= r.0.spec_day_index() + 6,
    ;
}

} // verus!
