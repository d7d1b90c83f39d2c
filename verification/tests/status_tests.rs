use rtw::activity::OngoingActivity;
use rtw::datetimew::DateTimeW;
use rtw::rtw_config::RtwConfig;
use rtw::status::{format_status, replace_all};

fn dt(year: u16, month: u8, day: u8, hour: u8, minute: u8, second: u8) -> DateTimeW {
    DateTimeW::new(year, month, day, hour, minute, second).unwrap()
}

#[test]
fn replace_all_substitutes_every_occurrence() {
    assert_eq!(replace_all("a{x}b{x}", "{x}", "!"), "a!b!");
    assert_eq!(replace_all("nothing here", "{x}", "!"), "nothing here");
    assert_eq!(replace_all("aaa", "aa", "b"), "ba");
}

#[test]
fn format_status_defaults_to_the_title() {
    let ongoing = vec![
        (0usize, OngoingActivity::new(dt(2020, 6, 1, 9, 0, 0), vec!["foo".to_string()], None)),
        (1usize, OngoingActivity::new(dt(2020, 6, 1, 9, 30, 0), vec!["bar".to_string()], None)),
    ];
    let now = dt(2020, 6, 1, 10, 0, 0);
    assert_eq!(format_status(None, &ongoing, now), "foo bar");
}

#[test]
fn format_status_fills_every_placeholder() {
    let ongoing = vec![(
        3usize,
        OngoingActivity::new(dt(2020, 6, 1, 9, 0, 0), vec!["foo".to_string()], None),
    )];
    let now = dt(2020, 6, 1, 10, 30, 0);
    let line = format_status(
        Some("{id}|{ongoing}|{start}|{duration}".to_string()),
        &ongoing,
        now,
    );
    assert_eq!(line, "3|foo|2020-06-01T09:00:00|01:30:00");
}

#[test]
fn format_status_renders_human_durations() {
    let ongoing = vec![(
        0usize,
        OngoingActivity::new(dt(2020, 6, 1, 9, 0, 0), vec!["foo".to_string()], None),
    )];
    let now = dt(2020, 6, 1, 10, 0, 0);
    let line = format_status(Some("{human_duration}".to_string()), &ongoing, now);
    // an activity started an hour before now reads as a past instant
    assert!(line.contains("ago"), "unexpected human duration: {}", line);
}

#[test]
fn config_defaults_deny_overlapping_and_carry_the_palette() {
    let config = RtwConfig::new("/tmp".to_string());
    assert!(config.deny_overlapping);
    assert_eq!(config.timeline_colors.len(), 4);
    assert_eq!(config.timeline_colors[0], (183, 28, 28));
    let relaxed = config.deny_overlapping(false);
    assert!(!relaxed.deny_overlapping);
    assert_eq!(relaxed.storage_dir_path, "/tmp");
}

#[test]
fn storage_descriptions_keep_their_paths() {
    let s = rtw::json_storage::JsonStorage::new("/a/c.json".to_string(), "/a/f.json".to_string());
    assert_eq!(s.current_path, "/a/c.json");
    assert_eq!(s.finished_path, "/a/f.json");
    let c = rtw::json_current::JsonCurrentActivityRepository::new("/a/c.json".to_string());
    assert_eq!(c.repository_path, "/a/c.json");
    let f = rtw::json_finished::JsonFinishedActivityRepository::new("/a/f.json".to_string());
    assert_eq!(f.writer_path, "/a/f.json");
}
