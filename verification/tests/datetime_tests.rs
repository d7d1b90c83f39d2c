use chrono::Datelike;
use rtw::chrono_clock::ChronoClock;
use rtw::clock::Clock;
use rtw::datetimew::DateTimeW;
use rtw::durationw::DurationW;

fn dt(year: u16, month: u8, day: u8, hour: u8, minute: u8, second: u8) -> DateTimeW {
    DateTimeW::new(year, month, day, hour, minute, second).unwrap()
}

#[test]
fn new_rejects_impossible_dates() {
    assert!(DateTimeW::new(2020, 2, 29, 0, 0, 0).is_some());
    assert!(DateTimeW::new(2021, 2, 29, 0, 0, 0).is_none());
    assert!(DateTimeW::new(2021, 4, 31, 0, 0, 0).is_none());
    assert!(DateTimeW::new(2021, 13, 1, 0, 0, 0).is_none());
    assert!(DateTimeW::new(2021, 1, 1, 24, 0, 0).is_none());
    assert!(DateTimeW::new(0, 1, 1, 0, 0, 0).is_none());
}

#[test]
fn day_index_matches_chrono_rata_die() {
    // chrono counts 0001-01-01 as day 1, this calendar as day 0.
    for (y, m, d) in [(1u16, 1u8, 1u8), (2000, 3, 1), (2020, 12, 25), (1999, 2, 28)] {
        let here = dt(y, m, d, 0, 0, 0).day_index();
        let there = chrono::NaiveDate::from_ymd_opt(y as i32, m as u32, d as u32)
            .unwrap()
            .num_days_from_ce() as u64;
        assert_eq!(here + 1, there, "day index of {:04}-{:02}-{:02}", y, m, d);
    }
}

#[test]
fn weekday_counts_days_from_monday() {
    // 2020-12-25 was a Friday.
    assert_eq!(dt(2020, 12, 25, 0, 0, 0).weekday_from_monday(), 4);
    // 2026-10-11 is a Sunday.
    assert_eq!(dt(2026, 10, 11, 0, 0, 0).weekday_from_monday(), 6);
}

#[test]
fn formats_follow_the_documented_shapes() {
    let t = dt(2019, 12, 25, 18, 43, 0);
    assert_eq!(t.to_text(), "2019-12-25T18:43:00");
    assert_eq!(t.hh_mm(), "18:43");
    assert_eq!(t.dd_mm(), "25/12");
    assert_eq!(dt(987, 4, 5, 6, 7, 8).to_text(), "0987-04-05T06:07:08");
}

#[test]
fn diff_is_signed_seconds() {
    let a = dt(2020, 12, 25, 9, 0, 0);
    let b = dt(2020, 12, 26, 10, 30, 0);
    assert_eq!(b.diff(&a).secs, 86400 + 5400);
    assert_eq!(a.diff(&b).secs, -(86400 + 5400));
}

#[test]
fn duration_display_allows_more_than_24_hours() {
    assert_eq!(DurationW::new(0).hh_mm_ss(), "00:00:00");
    assert_eq!(DurationW::new(3661).hh_mm_ss(), "01:01:01");
    assert_eq!(DurationW::new(30 * 3600 + 5).hh_mm_ss(), "30:00:05");
}

#[test]
fn duration_sum_has_zero_identity_and_associates() {
    let a = DurationW::new(10);
    let b = DurationW::new(20);
    let c = DurationW::new(30);
    let zero = DurationW::default();
    assert_eq!(a.plus(&zero), a);
    assert_eq!(a.plus(&b).plus(&c), a.plus(&b.plus(&c)));
}

#[test]
fn day_arithmetic_steps_through_month_and_year_ends() {
    let end = dt(2020, 12, 31, 13, 0, 0);
    let next = end.next_day_start();
    assert_eq!((next.year, next.month, next.day), (2021, 1, 1));
    assert_eq!(next.prev_date(), dt(2020, 12, 31, 0, 0, 0));
    let leap = dt(2020, 2, 28, 0, 0, 0).next_day_start();
    assert_eq!((leap.month, leap.day), (2, 29));
    let minus = dt(2020, 3, 1, 8, 0, 0).date_minus_days(2);
    assert_eq!((minus.month, minus.day), (2, 28));
    let plus = dt(2020, 2, 27, 8, 0, 0).date_plus_days(3);
    assert_eq!((plus.month, plus.day), (3, 1));
}

#[test]
fn clock_ranges_have_the_documented_shape() {
    let clock = ChronoClock {};
    let now = clock.get_time();
    assert!(now.check_valid());
    let (a, b) = clock.today_range();
    assert_eq!((a.hour, a.minute, a.second), (0, 0, 0));
    assert_eq!((b.hour, b.minute, b.second), (23, 59, 59));
    assert_eq!(a.day_index(), b.day_index());
    let (ws, we) = clock.this_week_range();
    assert_eq!(ws.weekday_from_monday(), 0);
    assert_eq!(we.day_index() - ws.day_index(), 6);
    let (ls, le) = clock.last_week_range();
    assert_eq!(ls.weekday_from_monday(), 0);
    assert_eq!(le.day_index() - ls.day_index(), 6);
    assert_eq!(ws.day_index() - ls.day_index(), 7);
    let (ys, ye) = clock.yesterday_range();
    assert_eq!(ys.day_index(), ye.day_index());
    assert_eq!(a.day_index() - ys.day_index(), 1);
}

#[test]
fn clock_now_agrees_with_chrono() {
    let clock = ChronoClock {};
    let here = clock.get_time();
    let there = chrono::Local::now();
    assert_eq!(here.year as i32, there.year());
}
