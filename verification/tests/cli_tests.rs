use rtw::chrono_clock::ChronoClock;
use rtw::cli_helper::{split_time_clue_from_tags, split_time_range, split_time_range_from_tags};
use rtw::clock::Time;
use rtw::time_tools::TimeTools;

#[test]
// rtw start
fn test_split_time_clue_from_tags_0_0() {
    let clock = ChronoClock {};
    let values: Vec<String> = vec![];
    let (time, tags) = split_time_clue_from_tags(&values, &clock);
    assert_eq!(Time::Now, time);
    assert!(tags.is_empty());
}

#[test]
// rtw start foo
fn test_split_time_clue_from_tags_0_1() {
    let clock = ChronoClock {};
    let values: Vec<String> = vec![String::from("foo")];
    let (time, tags) = split_time_clue_from_tags(&values, &clock);
    assert_eq!(Time::Now, time);
    assert_eq!(tags, values);
}

#[test]
// rtw start foo bar
fn test_split_time_clue_from_tags_0_2() {
    let clock = ChronoClock {};
    let values: Vec<String> = vec![String::from("foo"), String::from("bar")];
    let (time, tags) = split_time_clue_from_tags(&values, &clock);
    assert_eq!(Time::Now, time);
    assert_eq!(tags, values);
}

#[test]
// rtw start 1 h ago
fn test_split_time_clue_from_tags_3_0() {
    let clock = ChronoClock {};
    let values: Vec<String> = vec![String::from("1"), String::from("h"), String::from("ago")];
    let (time, tags) = split_time_clue_from_tags(&values, &clock);
    assert_ne!(Time::Now, time);
    assert!(tags.is_empty());
}

#[test]
// rtw start 1 h ago foo
fn test_split_time_clue_from_tags_3_1() {
    let clock = ChronoClock {};
    let tokens: Vec<String> = vec![
        String::from("1"),
        String::from("h"),
        String::from("ago"),
        String::from("foo"),
    ];
    let (time, tags) = split_time_clue_from_tags(&tokens, &clock);
    assert_ne!(Time::Now, time);
    assert_eq!(tags, vec![String::from("foo")]);
}

#[test]
// rtw track 09:00 - 10:00 foo
fn test_split_time_range_from_tags_1_1_1() {
    let clock = ChronoClock {};
    let tokens: Vec<String> = vec![
        String::from("09:00"),
        String::from("-"),
        String::from("10:00"),
        String::from("foo"),
    ];
    let time_range_and_tags = split_time_range_from_tags(&tokens, &clock);
    assert!(time_range_and_tags.is_ok());
}

#[test]
// rtw summary 09:00 - 10:00
fn test_split_range_1_1() {
    let clock = ChronoClock {};
    let tokens: Vec<String> = vec![
        String::from("09:00"),
        String::from("-"),
        String::from("10:00"),
    ];
    let time_range = split_time_range(&tokens, &clock);
    assert!(time_range.is_ok());
    let time_range = time_range.unwrap();
    assert_eq!(time_range.0, TimeTools::time_from_str("09:00", &clock).unwrap());
    assert_eq!(time_range.1, TimeTools::time_from_str("10:00", &clock).unwrap());
}

#[test]
// rtw summary 09:00 -
fn test_split_range_1_0() {
    let clock = ChronoClock {};
    let tokens: Vec<String> = vec![String::from("09:00"), String::from("-")];
    let time_range = split_time_range(&tokens, &clock);
    assert!(time_range.is_ok());
    assert_eq!(time_range.unwrap().1, Time::Now)
}

#[test]
fn is_time_recognizes_clock_times() {
    assert!(TimeTools::is_time("09:00"));
    assert!(!TimeTools::is_time("certainly not a time"));
}

#[test]
fn time_from_str_parses_a_wall_clock_time() {
    let clock = ChronoClock {};
    match TimeTools::time_from_str("09:30", &clock) {
        Ok(Time::DateTime(dt)) => {
            assert_eq!(dt.hour, 9);
            assert_eq!(dt.minute, 30);
        }
        other => panic!("expected an absolute instant, got {:?}", other),
    }
}

#[test]
fn long_digit_runs_are_rejected_as_time_clues() {
    let clock = ChronoClock {};
    assert!(!TimeTools::is_time("100000000000000000 min ago"));
    assert!(TimeTools::time_from_str("100000000000000000 min ago", &clock).is_err());
    assert!(TimeTools::is_time("999999 min ago"));
}
