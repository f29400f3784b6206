use hours::date::Date;
use hours::model::{Category, HoursData, WeekEntry};
use hours::progress::{
    category_hours, compute_progress, months_between, percentage_tenths, round_div, total_hours,
    weeks_logged, LicensureConfig,
};

fn date(y: u32, m: u32, d: u32) -> Date {
    Date::from_ymd(y, m, d).unwrap()
}

fn sample_config() -> LicensureConfig {
    LicensureConfig {
        start_date: date(2025, 1, 28),
        total_hours_target: 3000,
        direct_hours_target: 1200,
        min_months: 24,
        min_weekly_average: 15_000,
    }
}

#[test]
fn test_months_between_same_date() {
    assert_eq!(months_between(date(2025, 1, 28), date(2025, 1, 28)), 0);
}

#[test]
fn test_months_between_one_month() {
    assert_eq!(months_between(date(2025, 1, 28), date(2025, 2, 28)), 1);
}

#[test]
fn test_months_between_partial_month() {
    assert_eq!(months_between(date(2025, 1, 28), date(2025, 2, 27)), 0);
}

#[test]
fn test_months_between_several_months() {
    assert_eq!(months_between(date(2025, 1, 28), date(2025, 6, 28)), 5);
}

#[test]
fn test_months_between_across_years() {
    assert_eq!(months_between(date(2025, 1, 28), date(2027, 1, 28)), 24);
}

#[test]
fn test_months_between_end_before_start() {
    assert_eq!(months_between(date(2025, 6, 1), date(2025, 1, 1)), 0);
}

#[test]
fn months_between_same_date() {
    assert_eq!(months_between(date(2025, 1, 28), date(2025, 1, 28)), 0);
}

#[test]
fn months_between_one_month() {
    assert_eq!(months_between(date(2025, 1, 28), date(2025, 2, 28)), 1);
}

#[test]
fn months_between_partial_month() {
    assert_eq!(months_between(date(2025, 1, 28), date(2025, 2, 27)), 0);
}

#[test]
fn months_between_across_years() {
    assert_eq!(months_between(date(2025, 1, 28), date(2027, 1, 28)), 24);
}

#[test]
fn months_between_end_before_start() {
    assert_eq!(months_between(date(2025, 6, 1), date(2025, 1, 1)), 0);
}

#[test]
fn round_half_away_at_tenths() {
    // same figures the display rounding is held to: 8.233 -> 8.2,
    // 102.75 -> 102.8, 0 -> 0 (values in thousandths, results in tenths)
    assert_eq!(round_div(8_233, 100), 82);
    assert_eq!(round_div(102_750, 100), 1_028);
    assert_eq!(round_div(0, 100), 0);
    assert_eq!(round_div(-8_233, 100), -82);
    assert_eq!(round_div(-102_750, 100), -1_028);
    assert_eq!(round_div(50, 100), 1);
    assert_eq!(round_div(-50, 100), -1);
    assert_eq!(round_div(49, 100), 0);
}

#[test]
fn percentage_zero_when_target_not_positive() {
    assert_eq!(percentage_tenths(123_456, 0), 0);
    assert_eq!(percentage_tenths(123_456, -5), 0);
    assert_eq!(percentage_tenths(0, 0), 0);
    assert_eq!(percentage_tenths(-99, 0), 0);
}

#[test]
fn percentage_exact_values() {
    // 1500 of 3000 hours -> 50.0%, in tenths of a percent
    assert_eq!(percentage_tenths(1_500_000, 3_000 * 1_000), 500);
    // 23 of 3000 hours -> 0.766..% -> 0.8%
    assert_eq!(percentage_tenths(23_000, 3_000 * 1_000), 8);
}

#[test]
fn scenario_two_weeks_of_hours() {
    // start date 2025-01-28; direct 10.0 and indirect 5.0 in the first
    // week, direct 8.0 in the second: 23.0 total, 18.0 direct
    let mut first = WeekEntry::new(date(2025, 1, 28), date(2025, 2, 3));
    first.add(Category::Direct, 10_000);
    first.add(Category::Indirect, 5_000);
    let mut second = WeekEntry::new(date(2025, 2, 4), date(2025, 2, 10));
    second.add(Category::Direct, 8_000);
    let data = HoursData { weeks: vec![first, second] };

    assert_eq!(total_hours(&data), 23_000);
    assert_eq!(category_hours(&data, Category::Direct), 18_000);
}

#[test]
fn scenario_empty_ledger() {
    let data = HoursData::new();
    let p = compute_progress(&data, &sample_config(), date(2025, 2, 12));
    assert_eq!(p.total_hours, 0);
    assert_eq!(p.direct_hours, 0);
    assert_eq!(p.total_pct_tenths, 0);
    assert_eq!(p.direct_pct_tenths, 0);
    assert_eq!(p.avg_pct_tenths, 0);
    assert_eq!(p.weekly_average_tenths, 0);
    assert_eq!(p.weeks_logged, 0);
}

#[test]
fn scenario_progress_figures() {
    let mut first = WeekEntry::new(date(2025, 1, 28), date(2025, 2, 3));
    first.add(Category::Direct, 10_000);
    first.add(Category::Indirect, 5_000);
    let mut second = WeekEntry::new(date(2025, 2, 4), date(2025, 2, 10));
    second.add(Category::Direct, 8_000);
    let data = HoursData { weeks: vec![first, second] };

    // a Wednesday in the third tracking week
    let p = compute_progress(&data, &sample_config(), date(2025, 2, 12));
    assert_eq!(p.total_hours, 23_000);
    assert_eq!(p.direct_hours, 18_000);
    assert_eq!(p.months_elapsed, 0);
    assert_eq!(p.weeks_elapsed, 3);
    // 23/3 = 7.666.. hours/week -> 7.7
    assert_eq!(p.weekly_average_tenths, 77);
    // 23/3000 -> 0.766..% -> 0.8
    assert_eq!(p.total_pct_tenths, 8);
    // 18/1200 -> 1.5%
    assert_eq!(p.direct_pct_tenths, 15);
    assert_eq!(p.months_pct_tenths, 0);
    // (23/3)/15 -> 51.1%
    assert_eq!(p.avg_pct_tenths, 511);
    assert_eq!(p.weeks_logged, 2);
}

#[test]
fn weeks_elapsed_guards_future_start() {
    let mut config = sample_config();
    config.start_date = date(2026, 1, 6); // far in the future
    let data = HoursData::new();
    let p = compute_progress(&data, &config, date(2025, 2, 12));
    assert_eq!(p.weeks_elapsed, 1);
}

#[test]
fn weeks_logged_counts_only_nonzero() {
    let zero = WeekEntry::new(date(2025, 1, 28), date(2025, 2, 3));
    let mut busy = WeekEntry::new(date(2025, 2, 4), date(2025, 2, 10));
    busy.add(Category::IndividualSupervision, 500);
    let data = HoursData { weeks: vec![zero, busy] };
    assert_eq!(weeks_logged(&data), 1);
}
