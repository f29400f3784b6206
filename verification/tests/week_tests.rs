use hours::date::Date;
use hours::week::{all_weeks, current_week, is_tuesday, week_containing};

fn date(y: u32, m: u32, d: u32) -> Date {
    Date::from_ymd(y, m, d).unwrap()
}

#[test]
fn test_week_containing_tuesday() {
    let (start, end) = week_containing(date(2025, 1, 28));
    assert_eq!(start, date(2025, 1, 28));
    assert_eq!(end, date(2025, 2, 3));
    assert!(is_tuesday(start));
    // the end is a Monday: day index 0 of the week cycle
    assert_eq!(end.day_index() % 7, 0);
}

#[test]
fn test_week_containing_thursday() {
    let (start, end) = week_containing(date(2025, 1, 30));
    assert_eq!(start, date(2025, 1, 28));
    assert_eq!(end, date(2025, 2, 3));
}

#[test]
fn test_week_containing_monday() {
    let (start, end) = week_containing(date(2025, 2, 3));
    assert_eq!(start, date(2025, 1, 28));
    assert_eq!(end, date(2025, 2, 3));
}

#[test]
fn test_week_containing_next_tuesday() {
    let (start, end) = week_containing(date(2025, 2, 4));
    assert_eq!(start, date(2025, 2, 4));
    assert_eq!(end, date(2025, 2, 10));
}

#[test]
fn test_week_containing_wednesday() {
    let (start, end) = week_containing(date(2025, 1, 29));
    assert_eq!(start, date(2025, 1, 28));
    assert_eq!(end, date(2025, 2, 3));
}

#[test]
fn test_week_containing_sunday() {
    let (start, end) = week_containing(date(2025, 2, 2));
    assert_eq!(start, date(2025, 1, 28));
    assert_eq!(end, date(2025, 2, 3));
}

#[test]
fn test_week_containing_saturday() {
    let (start, end) = week_containing(date(2025, 2, 1));
    assert_eq!(start, date(2025, 1, 28));
    assert_eq!(end, date(2025, 2, 3));
}

#[test]
fn test_week_containing_friday() {
    let (start, end) = week_containing(date(2025, 1, 31));
    assert_eq!(start, date(2025, 1, 28));
    assert_eq!(end, date(2025, 2, 3));
}

#[test]
fn test_current_week_is_same_as_week_containing() {
    let today = date(2025, 1, 30);
    assert_eq!(current_week(today), week_containing(today));
}

#[test]
fn test_all_weeks_single_week() {
    let start = date(2025, 1, 28);
    let today = date(2025, 1, 30);
    let weeks = all_weeks(start, today);
    assert_eq!(weeks.len(), 1);
    assert_eq!(weeks[0].0, date(2025, 1, 28));
    assert_eq!(weeks[0].1, date(2025, 2, 3));
}

#[test]
fn test_all_weeks_multiple_weeks() {
    let start = date(2025, 1, 28);
    let today = date(2025, 2, 12); // Wed of 3rd week
    let weeks = all_weeks(start, today);
    assert_eq!(weeks.len(), 3);
    assert_eq!(weeks[0].0, date(2025, 1, 28));
    assert_eq!(weeks[1].0, date(2025, 2, 4));
    assert_eq!(weeks[2].0, date(2025, 2, 11));
}

#[test]
fn test_all_weeks_today_is_start() {
    let start = date(2025, 1, 28);
    let today = date(2025, 1, 28);
    let weeks = all_weeks(start, today);
    assert_eq!(weeks.len(), 1);
}

#[test]
fn test_all_weeks_today_is_monday_end_of_week() {
    let start = date(2025, 1, 28);
    let today = date(2025, 2, 3); // Monday, end of first week
    let weeks = all_weeks(start, today);
    assert_eq!(weeks.len(), 1);
}

#[test]
fn test_all_weeks_today_is_next_tuesday() {
    let start = date(2025, 1, 28);
    let today = date(2025, 2, 4); // Tuesday, start of second week
    let weeks = all_weeks(start, today);
    assert_eq!(weeks.len(), 2);
}

#[test]
fn test_all_weeks_start_always_tuesday() {
    let start = date(2025, 1, 28);
    let today = date(2025, 3, 15);
    let weeks = all_weeks(start, today);
    for (s, e) in &weeks {
        assert!(is_tuesday(*s));
        assert_eq!(e.day_index() % 7, 0);
        assert_eq!(e.day_index() - s.day_index(), 6);
    }
}

#[test]
fn test_all_weeks_consecutive() {
    let start = date(2025, 1, 28);
    let today = date(2025, 3, 15);
    let weeks = all_weeks(start, today);
    for i in 1..weeks.len() {
        assert_eq!(weeks[i].0.day_index() - weeks[i - 1].0.day_index(), 7);
    }
}

#[test]
fn test_is_tuesday() {
    assert!(is_tuesday(date(2025, 1, 28)));
    assert!(!is_tuesday(date(2025, 1, 29)));
    assert!(!is_tuesday(date(2025, 1, 27)));
    assert!(is_tuesday(date(2025, 2, 4)));
}

#[test]
fn test_week_containing_all_days_of_week() {
    // Every day from Tue Jan 28 through Mon Feb 3 should map to the same week
    let expected_start = date(2025, 1, 28);
    let expected_end = date(2025, 2, 3);
    for d in 28..=31 {
        let (s, e) = week_containing(date(2025, 1, d));
        assert_eq!(s, expected_start, "Failed for Jan {}", d);
        assert_eq!(e, expected_end, "Failed for Jan {}", d);
    }
    for d in 1..=3 {
        let (s, e) = week_containing(date(2025, 2, d));
        assert_eq!(s, expected_start, "Failed for Feb {}", d);
        assert_eq!(e, expected_end, "Failed for Feb {}", d);
    }
}

#[test]
fn date_arithmetic_wraps_months_and_years() {
    assert_eq!(date(2025, 1, 31).next_day(), date(2025, 2, 1));
    assert_eq!(date(2024, 2, 28).next_day(), date(2024, 2, 29));
    assert_eq!(date(2023, 2, 28).next_day(), date(2023, 3, 1));
    assert_eq!(date(2024, 12, 31).next_day(), date(2025, 1, 1));
    assert_eq!(date(2025, 1, 1).prev_day(), date(2024, 12, 31));
    assert_eq!(date(2025, 3, 1).prev_day(), date(2025, 2, 28));
}

#[test]
fn date_from_ymd_rejects_invalid() {
    assert!(Date::from_ymd(2025, 2, 29).is_none());
    assert!(Date::from_ymd(2024, 2, 29).is_some());
    assert!(Date::from_ymd(2025, 13, 1).is_none());
    assert!(Date::from_ymd(2025, 0, 1).is_none());
    assert!(Date::from_ymd(0, 1, 1).is_none());
    assert!(Date::from_ymd(2025, 4, 31).is_none());
}
