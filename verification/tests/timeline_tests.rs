use rtw::activity::{Activity, OngoingActivity};
use rtw::datetimew::DateTimeW;
use rtw::timeline::{
    bounds, chunkify, color, day_bounds, day_total, days, render_days_with_width, scale,
    split_interval, split_interval_if_needed, TimelineError,
};

fn dt(year: u16, month: u8, day: u8, hour: u8, minute: u8, second: u8) -> DateTimeW {
    DateTimeW::new(year, month, day, hour, minute, second).unwrap()
}

fn tagged(start: DateTimeW, stop: DateTimeW, tag: &str) -> Activity {
    OngoingActivity::new(start, vec![tag.to_string()], None).into_activity(stop).unwrap()
}

const PALETTE: [(u8, u8, u8); 4] = [(183, 28, 28), (26, 35, 126), (0, 77, 64), (38, 50, 56)];

#[test]
fn chunkify_pads_the_remainder_with_spaces() {
    assert_eq!(chunkify("abcd", 2), vec!["ab", "cd", "  "]);
    assert_eq!(chunkify("abcde", 2), vec!["ab", "cd", "e "]);
    assert_eq!(chunkify("", 3), vec!["   "]);
    assert!(chunkify("abc", 0).is_empty());
}

#[test]
fn same_day_activity_is_not_split() {
    let a = (0usize, tagged(dt(2020, 12, 25, 9, 0, 0), dt(2020, 12, 25, 10, 0, 0), "x"));
    let (first, rest) = split_interval_if_needed(&a);
    assert!(rest.is_none());
    assert_eq!(first.1.get_stop_time(), dt(2020, 12, 25, 10, 0, 0));
    assert_eq!(split_interval(&a).len(), 1);
}

#[test]
fn two_day_activity_splits_into_two_pieces_whose_durations_sum() {
    let a = (3usize, tagged(dt(2020, 12, 25, 23, 0, 0), dt(2020, 12, 26, 1, 30, 0), "x"));
    let pieces = split_interval(&a);
    assert_eq!(pieces.len(), 2);
    assert_eq!(pieces[0].0, 3);
    assert_eq!(pieces[1].0, 3);
    assert_eq!(pieces[0].1.get_start_time(), dt(2020, 12, 25, 23, 0, 0));
    assert_eq!(pieces[0].1.get_stop_time(), dt(2020, 12, 26, 0, 0, 0));
    assert_eq!(pieces[1].1.get_start_time(), dt(2020, 12, 26, 0, 0, 0));
    assert_eq!(pieces[1].1.get_stop_time(), dt(2020, 12, 26, 1, 30, 0));
    let total: i64 = pieces.iter().map(|(_, p)| p.get_duration().secs).sum();
    assert_eq!(total, a.1.get_duration().secs);
}

#[test]
fn three_day_activity_splits_per_calendar_day() {
    let a = (0usize, tagged(dt(2020, 12, 25, 23, 0, 0), dt(2020, 12, 27, 1, 0, 0), "x"));
    let pieces = split_interval(&a);
    assert_eq!(pieces.len(), 3);
    let total: i64 = pieces.iter().map(|(_, p)| p.get_duration().secs).sum();
    assert_eq!(total, a.1.get_duration().secs);
}

#[test]
fn bounds_reach_86400_for_a_piece_ending_at_midnight() {
    let a = (0usize, tagged(dt(2020, 12, 25, 23, 0, 0), dt(2020, 12, 26, 0, 0, 0), "x"));
    assert_eq!(bounds(&a), (23 * 3600, 86400));
}

#[test]
fn day_helpers_summarize_piece_lists() {
    let one = (0usize, tagged(dt(2020, 12, 25, 9, 0, 0), dt(2020, 12, 25, 10, 0, 0), "x"));
    let two = (1usize, tagged(dt(2020, 12, 25, 11, 0, 0), dt(2020, 12, 25, 11, 30, 0), "y"));
    let list = vec![one, two];
    assert_eq!(day_bounds(&list), (9 * 3600, 11 * 3600 + 1800));
    assert_eq!(day_bounds(&Vec::new()), (0, 86400));
    assert_eq!(day_total(&list).secs, 3600 + 1800);
    let d = dt(2020, 12, 25, 0, 0, 0).day_index();
    assert_eq!(days(&list), (d, d));
    assert_eq!(days(&Vec::new()), (0, 0));
}

#[test]
fn palette_color_wraps_by_id() {
    let colors = PALETTE.to_vec();
    assert_eq!(color(0, &colors), (183, 28, 28));
    assert_eq!(color(5, &colors), (26, 35, 126));
}

#[test]
fn rendering_nothing_yields_no_rows() {
    let r = render_days_with_width(&Vec::new(), &PALETTE.to_vec(), 90);
    assert!(r.unwrap().is_empty());
}

#[test]
fn rendering_overlapping_activities_names_both() {
    let a = (0usize, tagged(dt(2020, 12, 25, 9, 0, 0), dt(2020, 12, 25, 10, 0, 0), "first"));
    let b = (1usize, tagged(dt(2020, 12, 25, 9, 30, 0), dt(2020, 12, 25, 10, 30, 0), "second"));
    match render_days_with_width(&vec![a, b], &PALETTE.to_vec(), 90) {
        Err(TimelineError::Intersection(t1, t2)) => {
            assert_eq!(t1, "first");
            assert_eq!(t2, "second");
        }
        Ok(_) => panic!("overlapping activities must not render"),
    }
}

#[test]
fn rendering_touching_activities_succeeds() {
    let a = (0usize, tagged(dt(2020, 12, 25, 9, 0, 0), dt(2020, 12, 25, 10, 0, 0), "first"));
    let b = (1usize, tagged(dt(2020, 12, 25, 10, 0, 0), dt(2020, 12, 25, 11, 0, 0), "second"));
    let lines = render_days_with_width(&vec![a, b], &PALETTE.to_vec(), 90).unwrap();
    assert!(!lines.is_empty());
}

#[test]
fn rendered_rows_carry_colors_labels_and_totals() {
    let a = (0usize, tagged(dt(2020, 12, 25, 9, 0, 0), dt(2020, 12, 25, 10, 0, 0), "foo"));
    let lines = render_days_with_width(&vec![a], &PALETTE.to_vec(), 90).unwrap();
    assert_eq!(lines.len(), 2);
    // legend row: wall-clock bounds and the day label, right-aligned
    assert!(lines[0].contains("09:00-10:00"));
    assert!(lines[0].ends_with("   25/12"));
    // data row: the title painted on the palette's first color, then the total
    assert!(lines[1].contains("foo"));
    assert!(lines[1].contains("\u{1b}[48;2;183;28;28m"));
    assert!(lines[1].ends_with("01:00:00"));
}

#[test]
fn a_midnight_crossing_activity_renders_as_two_day_rows() {
    let a = (0usize, tagged(dt(2020, 12, 25, 23, 0, 0), dt(2020, 12, 26, 1, 0, 0), "night"));
    let lines = render_days_with_width(&vec![a], &PALETTE.to_vec(), 90).unwrap();
    assert_eq!(lines.len(), 4);
    assert!(lines[0].contains("23:00-24:00"));
    assert!(lines[0].ends_with("   25/12"));
    assert!(lines[2].contains("00:00-01:00"));
    assert!(lines[2].ends_with("   26/12"));
}

#[test]
fn scale_maps_seconds_linearly_onto_columns() {
    assert_eq!(scale(0, 0, 86400, 100), 0);
    assert_eq!(scale(43200, 0, 86400, 100), 50);
    assert_eq!(scale(86400, 0, 86400, 100), 100);
    assert_eq!(scale(30, 0, 90, 80), 26);
    // a degenerate range maps everything to column 0
    assert_eq!(scale(5, 5, 5, 100), 0);
}
