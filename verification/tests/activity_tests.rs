use rtw::activity::{intersect, overlap, Activity, OngoingActivity};
use rtw::datetimew::DateTimeW;
use rtw::errors::RtwError;

fn dt(year: u16, month: u8, day: u8, hour: u8, minute: u8, second: u8) -> DateTimeW {
    DateTimeW::new(year, month, day, hour, minute, second).unwrap()
}

fn act(start: DateTimeW, stop: DateTimeW) -> Activity {
    OngoingActivity::new(start, vec![], None).into_activity(stop).unwrap()
}

#[test]
fn test_intersect() {
    let finished = act(dt(2020, 12, 25, 9, 0, 0), dt(2020, 12, 25, 10, 0, 0));
    let date = dt(2020, 12, 25, 9, 30, 0);
    assert!(intersect(&finished, &date).is_some());
    let date = dt(2020, 12, 25, 10, 30, 0);
    assert!(intersect(&finished, &date).is_none());
}

#[test]
fn test_overlap() {
    let finished = act(dt(2020, 12, 25, 9, 0, 0), dt(2020, 12, 25, 10, 0, 0));
    let other = act(dt(2020, 12, 25, 9, 30, 0), dt(2020, 12, 25, 11, 0, 0));
    assert!(overlap(&finished, &other).is_some());
    let other = act(dt(2020, 12, 25, 8, 30, 0), dt(2020, 12, 25, 9, 30, 0));
    assert!(overlap(&finished, &other).is_some());
    let other = act(dt(2020, 12, 25, 8, 30, 0), dt(2020, 12, 25, 10, 30, 0));
    assert!(overlap(&finished, &other).is_some());
    let other = act(dt(2020, 12, 25, 9, 30, 0), dt(2020, 12, 25, 9, 45, 0));
    assert!(overlap(&finished, &other).is_some());
    let other = act(dt(2020, 12, 25, 10, 30, 0), dt(2020, 12, 25, 11, 45, 0));
    assert!(overlap(&finished, &other).is_none());
}

#[test]
fn into_activity_succeeds_when_ordered() {
    let a = dt(2020, 1, 1, 9, 0, 0);
    let b = dt(2020, 1, 1, 9, 0, 0);
    let same = OngoingActivity::new(a, vec!["x".to_string()], None).into_activity(b);
    assert!(same.is_ok());
    let later = OngoingActivity::new(a, vec![], None).into_activity(dt(2021, 2, 3, 4, 5, 6));
    assert!(later.is_ok());
}

#[test]
fn into_activity_rejects_reversed_interval() {
    let a = dt(2020, 1, 1, 9, 0, 0);
    let b = dt(2020, 1, 1, 8, 59, 59);
    match OngoingActivity::new(a, vec![], None).into_activity(b) {
        Err(RtwError::InvalidInterval(stop, start)) => {
            assert_eq!(stop, b);
            assert_eq!(start, a);
        }
        other => panic!("expected InvalidInterval, got {:?}", other),
    }
}

#[test]
fn intersect_is_none_on_boundaries() {
    let finished = act(dt(2020, 12, 25, 9, 0, 0), dt(2020, 12, 25, 10, 0, 0));
    assert!(intersect(&finished, &dt(2020, 12, 25, 9, 0, 0)).is_none());
    assert!(intersect(&finished, &dt(2020, 12, 25, 10, 0, 0)).is_none());
    assert!(intersect(&finished, &dt(2020, 12, 25, 9, 0, 1)).is_some());
    assert!(intersect(&finished, &dt(2020, 12, 25, 9, 59, 59)).is_some());
}

#[test]
fn overlap_is_symmetric_on_samples() {
    let a = act(dt(2020, 12, 25, 9, 0, 0), dt(2020, 12, 25, 10, 0, 0));
    let bs = vec![
        act(dt(2020, 12, 25, 9, 30, 0), dt(2020, 12, 25, 11, 0, 0)),
        act(dt(2020, 12, 25, 10, 0, 0), dt(2020, 12, 25, 11, 0, 0)),
        act(dt(2020, 12, 25, 9, 0, 0), dt(2020, 12, 25, 10, 0, 0)),
        act(dt(2020, 12, 24, 9, 0, 0), dt(2020, 12, 24, 10, 0, 0)),
        act(dt(2020, 12, 25, 9, 15, 0), dt(2020, 12, 25, 9, 45, 0)),
    ];
    for b in bs {
        assert_eq!(overlap(&a, &b).is_some(), overlap(&b, &a).is_some());
    }
}

#[test]
fn title_joins_tags_with_single_spaces() {
    let a = OngoingActivity::new(
        dt(2020, 1, 1, 0, 0, 0),
        vec!["hello".to_string(), "world".to_string()],
        None,
    );
    assert_eq!(a.get_title(), "hello world");
    let empty = OngoingActivity::new(dt(2020, 1, 1, 0, 0, 0), vec![], None);
    assert_eq!(empty.get_title(), "");
}

#[test]
fn duration_of_activity_is_stop_minus_start() {
    let a = act(dt(2020, 12, 25, 9, 0, 0), dt(2020, 12, 25, 10, 30, 15));
    assert_eq!(a.get_duration().secs, 3600 + 30 * 60 + 15);
    assert_eq!(a.get_duration().hh_mm_ss(), "01:30:15");
}
