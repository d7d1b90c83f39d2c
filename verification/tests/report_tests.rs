use rtw::activity::{Activity, OngoingActivity};
use rtw::datetimew::DateTimeW;
use rtw::mem_storage::MemStorage;
use rtw::rtw_cli::{filter_in_range, merge_same_tags};
use rtw::service::Service;

fn dt(year: u16, month: u8, day: u8, hour: u8, minute: u8, second: u8) -> DateTimeW {
    DateTimeW::new(year, month, day, hour, minute, second).unwrap()
}

fn tagged(start: DateTimeW, stop: DateTimeW, tags: &[&str]) -> Activity {
    OngoingActivity::new(start, tags.iter().map(|t| t.to_string()).collect(), None)
        .into_activity(stop)
        .unwrap()
}

#[test]
fn track_then_summary_returns_one_entry_with_exact_duration() {
    let mut service = Service::new(MemStorage::new());
    service
        .track_activity(tagged(dt(2020, 6, 1, 9, 0, 0), dt(2020, 6, 1, 10, 0, 0), &["foo"]), true)
        .unwrap();
    let listing = service.get_finished_activities().unwrap();
    let in_range = filter_in_range(&listing, &dt(2020, 6, 1, 8, 0, 0), &dt(2020, 6, 1, 11, 0, 0));
    assert_eq!(in_range.len(), 1);
    let report = merge_same_tags(&in_range);
    assert_eq!(report.len(), 1);
    assert_eq!(report[0].1.get_title(), "foo");
    assert_eq!(report[0].2.hh_mm_ss(), "01:00:00");
    assert_eq!(report[0].3, 1);
}

#[test]
fn merge_same_tags_groups_by_exact_title() {
    let entries = vec![
        (2usize, tagged(dt(2020, 6, 1, 9, 0, 0), dt(2020, 6, 1, 10, 0, 0), &["a", "b"])),
        (1usize, tagged(dt(2020, 6, 1, 11, 0, 0), dt(2020, 6, 1, 11, 30, 0), &["b", "a"])),
        (0usize, tagged(dt(2020, 6, 1, 12, 0, 0), dt(2020, 6, 1, 12, 15, 0), &["a", "b"])),
    ];
    let report = merge_same_tags(&entries);
    // differently ordered tag lists are distinct groups
    assert_eq!(report.len(), 2);
    let ab = report.iter().find(|r| r.1.get_title() == "a b").unwrap();
    assert_eq!(ab.2.secs, 3600 + 900);
    assert_eq!(ab.3, 2);
    let ba = report.iter().find(|r| r.1.get_title() == "b a").unwrap();
    assert_eq!(ba.2.secs, 1800);
    assert_eq!(ba.3, 1);
}

#[test]
fn filter_in_range_keeps_the_bounds_inclusive() {
    let entries = vec![
        (1usize, tagged(dt(2020, 6, 1, 9, 0, 0), dt(2020, 6, 1, 10, 0, 0), &["in"])),
        (0usize, tagged(dt(2020, 6, 2, 9, 0, 0), dt(2020, 6, 2, 10, 0, 0), &["out"])),
    ];
    let kept = filter_in_range(&entries, &dt(2020, 6, 1, 9, 0, 0), &dt(2020, 6, 1, 23, 0, 0));
    assert_eq!(kept.len(), 1);
    assert_eq!(kept[0].1.get_title(), "in");
}
