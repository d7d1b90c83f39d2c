use rtw::activity::{Activity, OngoingActivity};
use rtw::chrono_clock::ChronoClock;
use rtw::clock::Clock;
use rtw::datetimew::DateTimeW;
use rtw::errors::RtwError;
use rtw::mem_storage::MemStorage;
use rtw::ram_current::RAMCurrentActivityRepository;
use rtw::repository::CurrentActivityRepository;
use rtw::rtw_cli::{get_ongoing_activity, OptionalOrAmbiguousOrNotFound};
use rtw::service::Service;

fn dt(year: u16, month: u8, day: u8, hour: u8, minute: u8, second: u8) -> DateTimeW {
    DateTimeW::new(year, month, day, hour, minute, second).unwrap()
}

fn act(start: DateTimeW, stop: DateTimeW) -> Activity {
    OngoingActivity::new(start, vec![], None).into_activity(stop).unwrap()
}

fn build_service() -> Service<MemStorage> {
    Service::new(MemStorage::new())
}

#[test]
fn test_no_activity() {
    let clock = ChronoClock {};
    let mut service = build_service();
    assert!(service.stop_ongoing_activity(clock.get_time(), 0, true).is_ok());
    assert!(service.get_ongoing_activities().unwrap().is_empty());
}

#[test]
fn test_start_activity() {
    let clock = ChronoClock {};
    let mut service = build_service();
    assert!(service.stop_ongoing_activity(clock.get_time(), 0, true).is_ok());
    let start = service.start_activity(
        OngoingActivity {
            start_time: clock.get_time(),
            tags: vec![String::from("a")],
            description: None,
        },
        true,
    );
    start.unwrap();
    let current = service.get_ongoing_activities();
    assert!(current.is_ok());
    assert!(!current.unwrap().is_empty());
}

#[test]
fn test_stop_activity_with_active() {
    let clock = ChronoClock {};
    let mut service = build_service();
    let start = service.start_activity(
        OngoingActivity {
            start_time: clock.get_time(),
            tags: vec![String::from("a")],
            description: None,
        },
        true,
    );
    start.unwrap();
    assert!(!service.get_ongoing_activities().unwrap().is_empty());
    assert!(service.stop_ongoing_activity(clock.get_time(), 0, true).is_ok());
    assert!(service.get_ongoing_activities().unwrap().is_empty());
}

#[test]
fn test_start_stop_start() {
    let clock = ChronoClock {};
    let mut service = build_service();
    let start_0 = service.start_activity(
        OngoingActivity {
            start_time: clock.get_time(),
            tags: vec![String::from("a")],
            description: None,
        },
        true,
    );
    assert!(start_0.is_ok());
    assert!(!service.get_ongoing_activities().unwrap().is_empty());
    let stop = service.stop_ongoing_activity(clock.get_time(), 0, true);
    assert!(stop.is_ok());
    assert!(service.get_ongoing_activities().unwrap().is_empty());
    let start_1 = service.start_activity(
        OngoingActivity {
            start_time: clock.get_time(),
            tags: vec![String::from("b")],
            description: None,
        },
        true,
    );
    assert!(start_1.is_ok());
    assert!(!service.get_ongoing_activities().unwrap().is_empty());
}

#[test]
fn test_start_intersecting_activity() {
    let mut service = build_service();
    let finished = OngoingActivity::new(dt(2020, 12, 25, 9, 0, 0), vec![], None)
        .into_activity(dt(2020, 12, 25, 10, 0, 0))
        .unwrap();
    let recorded = service.track_activity(finished, true);
    assert!(recorded.is_ok());
    let other = OngoingActivity::new(dt(2020, 12, 25, 9, 30, 0), vec![], None);
    let started = service.start_activity(other, true);
    assert!(started.is_err());
}

#[test]
fn test_stop_intersecting_activity() {
    let mut service = build_service();
    let finished = OngoingActivity::new(dt(2020, 12, 25, 9, 0, 0), vec![], None)
        .into_activity(dt(2020, 12, 25, 10, 0, 0))
        .unwrap();
    let recorded = service.track_activity(finished, true);
    assert!(recorded.is_ok());
    let other = OngoingActivity::new(dt(2020, 12, 25, 8, 30, 0), vec![], None);
    let started = service.start_activity(other, true);
    assert!(started.is_ok());
    let stopped = service.stop_ongoing_activity(
        dt(2020, 12, 25, 9, 30, 0),
        0, // only one ongoing activity => id is 0
        true,
    );
    assert!(stopped.is_err());
}

#[test]
fn test_summary_nothing() {
    let clock = ChronoClock {};
    let service = build_service();
    let (today_start, today_end) = clock.today_range();
    let activities = service.filter_activities(|(_id, a): &(usize, Activity)| {
        today_start.le(&a.get_start_time()) && a.get_start_time().le(&today_end)
    });
    assert!(activities.is_ok());
}

#[test]
fn test_summary_something() {
    let mut service = build_service();
    let range_start = dt(2020, 6, 1, 8, 0, 0);
    let activity_start = dt(2020, 6, 1, 8, 30, 0);
    let activity_end = dt(2020, 6, 1, 8, 45, 0);
    let range_end = dt(2020, 6, 1, 9, 0, 0);
    service
        .track_activity(
            OngoingActivity::new(activity_start, vec![], None)
                .into_activity(activity_end)
                .unwrap(),
            true,
        )
        .unwrap();
    let activities = service.filter_activities(|(_id, a): &(usize, Activity)| {
        range_start.le(&a.get_start_time()) && a.get_start_time().le(&range_end)
    });
    assert!(!activities.unwrap().is_empty());
}

#[test]
fn test_summary_not_in_range() {
    let mut service = build_service();
    let range_start = dt(2020, 6, 1, 9, 0, 0);
    let activity_start = dt(2020, 6, 1, 8, 30, 0);
    let activity_end = dt(2020, 6, 1, 8, 45, 0);
    let range_end = dt(2020, 6, 1, 10, 0, 0);
    service
        .track_activity(
            OngoingActivity::new(activity_start, vec![], None)
                .into_activity(activity_end)
                .unwrap(),
            true,
        )
        .unwrap();
    let activities = service.filter_activities(|(_id, a): &(usize, Activity)| {
        range_start.le(&a.get_start_time()) && a.get_start_time().le(&range_end)
    });
    assert!(activities.unwrap().is_empty());
}

#[test]
fn test_track_intersecting_activity() {
    let mut service = build_service();
    let finished = act(dt(2020, 12, 25, 9, 0, 0), dt(2020, 12, 25, 10, 0, 0));
    let recorded = service.track_activity(finished, true);
    assert!(recorded.is_ok());
    let other = act(dt(2020, 12, 25, 9, 30, 0), dt(2020, 12, 25, 10, 30, 0));
    let recorded = service.track_activity(other, true);
    assert!(recorded.is_err());
}

#[test]
fn track_overlapping_allowed_when_policy_is_off() {
    let mut service = build_service();
    let finished = act(dt(2020, 12, 25, 9, 0, 0), dt(2020, 12, 25, 10, 0, 0));
    service.track_activity(finished, true).unwrap();
    let other = act(dt(2020, 12, 25, 9, 30, 0), dt(2020, 12, 25, 10, 30, 0));
    match service.track_activity(other, true) {
        Err(RtwError::Overlap(conflicts)) => assert!(!conflicts.is_empty()),
        other => panic!("expected Overlap, got {:?}", other),
    }
    let other = act(dt(2020, 12, 25, 9, 30, 0), dt(2020, 12, 25, 10, 30, 0));
    assert!(service.track_activity(other, false).is_ok());
}

#[test]
fn start_with_one_ongoing_stops_it_at_new_start() {
    let mut service = build_service();
    let first = OngoingActivity::new(dt(2020, 6, 1, 9, 0, 0), vec!["old".to_string()], None);
    service.start_activity(first, true).unwrap();
    let second = OngoingActivity::new(dt(2020, 6, 1, 10, 0, 0), vec!["new".to_string()], None);
    let (started, stopped) = service.start_activity(second, true).unwrap();
    assert_eq!(started.get_start_time(), dt(2020, 6, 1, 10, 0, 0));
    let stopped = stopped.expect("the previous ongoing activity must be stopped");
    assert_eq!(stopped.get_stop_time(), dt(2020, 6, 1, 10, 0, 0));
    assert_eq!(stopped.get_start_time(), dt(2020, 6, 1, 9, 0, 0));
    assert_eq!(stopped.get_title(), "old");
    let ongoing = service.get_ongoing_activities().unwrap();
    assert_eq!(ongoing.len(), 1);
    assert_eq!(ongoing[0].1.get_title(), "new");
}

#[test]
fn start_with_many_ongoing_is_ambiguous() {
    let mut service = build_service();
    let a = OngoingActivity::new(dt(2020, 6, 1, 9, 0, 0), vec![], None);
    let b = OngoingActivity::new(dt(2020, 6, 1, 9, 30, 0), vec![], None);
    service.start_activity(a, false).unwrap();
    service.start_activity(b, false).unwrap();
    let c = OngoingActivity::new(dt(2020, 6, 1, 10, 0, 0), vec![], None);
    match service.start_activity(c, true) {
        Err(RtwError::AmbiguousState) => {}
        other => panic!("expected AmbiguousState, got {:?}", other),
    }
}

#[test]
fn delete_renumbers_remaining_activities() {
    let mut service = build_service();
    for h in [9u8, 11u8, 13u8] {
        let a = act(dt(2020, 6, 1, h, 0, 0), dt(2020, 6, 1, h, 30, 0));
        service.track_activity(a, true).unwrap();
    }
    let before = service.get_finished_activities().unwrap();
    assert_eq!(before.len(), 3);
    // id 0 denotes the most recently started activity (13:00)
    assert_eq!(before[2].0, 0);
    assert_eq!(before[2].1.get_start_time(), dt(2020, 6, 1, 13, 0, 0));
    let deleted = service.delete_activity(1).unwrap().expect("id 1 must exist");
    assert_eq!(deleted.get_start_time(), dt(2020, 6, 1, 11, 0, 0));
    let after = service.get_finished_activities().unwrap();
    assert_eq!(after.len(), 2);
    // id 0 still denotes the most recent remaining activity
    assert_eq!(after[1].0, 0);
    assert_eq!(after[1].1.get_start_time(), dt(2020, 6, 1, 13, 0, 0));
    // deleting an unknown id is not an error
    assert!(service.delete_activity(17).unwrap().is_none());
}

#[test]
fn cancel_discards_without_persisting() {
    let mut service = build_service();
    let a = OngoingActivity::new(dt(2020, 6, 1, 9, 0, 0), vec!["x".to_string()], None);
    service.start_activity(a, true).unwrap();
    let cancelled = service.cancel_ongoing_activity(0).unwrap().expect("must cancel");
    assert_eq!(cancelled.get_title(), "x");
    assert!(service.get_ongoing_activities().unwrap().is_empty());
    assert!(service.get_finished_activities().unwrap().is_empty());
    assert!(service.cancel_ongoing_activity(0).unwrap().is_none());
}

#[test]
fn stop_with_nothing_tracked_is_a_success() {
    let mut service = build_service();
    let stopped = service.stop_ongoing_activity(dt(2020, 6, 1, 9, 0, 0), 0, true);
    assert!(matches!(stopped, Ok(None)));
    match get_ongoing_activity(None, &service).unwrap() {
        OptionalOrAmbiguousOrNotFound::Optional(None) => {}
        _ => panic!("expected no active time tracking"),
    }
}

#[test]
fn stop_rejects_time_before_start() {
    let mut service = build_service();
    let a = OngoingActivity::new(dt(2020, 6, 1, 9, 0, 0), vec![], None);
    service.start_activity(a, true).unwrap();
    match service.stop_ongoing_activity(dt(2020, 6, 1, 8, 0, 0), 0, true) {
        Err(RtwError::InvalidInterval(stop, start)) => {
            assert_eq!(stop, dt(2020, 6, 1, 8, 0, 0));
            assert_eq!(start, dt(2020, 6, 1, 9, 0, 0));
        }
        other => panic!("expected InvalidInterval, got {:?}", other),
    }
}

#[test]
fn ram_repository_holds_at_most_one_current_activity() {
    let mut repo = RAMCurrentActivityRepository::default();
    assert!(repo.get_current_activity().unwrap().is_none());
    let a = OngoingActivity::new(dt(2020, 6, 1, 9, 0, 0), vec!["x".to_string()], None);
    repo.set_current_activity(a).unwrap();
    let got = repo.get_current_activity().unwrap().expect("a current activity was set");
    assert_eq!(got.get_title(), "x");
    repo.reset_current_activity().unwrap();
    assert!(repo.get_current_activity().unwrap().is_none());
}
