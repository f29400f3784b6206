use hours::cli::{
    apply_add, apply_set, last_weeks, resolve_week, run, AddArgs, Cli, Command, ListArgs,
};
use hours::date::Date;
use hours::error::HoursError;
use hours::model::{Category, HoursData, WeekEntry};
use hours::ui::select_category;

fn date(y: u32, m: u32, d: u32) -> Date {
    Date::from_ymd(y, m, d).unwrap()
}

#[test]
fn run_dispatches_command_and_flag() {
    let cli = Cli {
        command: Command::List(ListArgs { json: true, last: Some(3) }),
        no_git: true,
    };
    let (command, no_git) = run(cli);
    assert!(no_git);
    match command {
        Command::List(args) => {
            assert!(args.json);
            assert_eq!(args.last, Some(3));
        }
        _ => panic!("wrong command"),
    }
    let cli = Cli {
        command: Command::Add(AddArgs {
            week: None,
            category: Some(Category::Direct),
            hours: Some(2_500),
            non_interactive: true,
        }),
        no_git: false,
    };
    assert!(!run(cli).1);
}

#[test]
fn resolve_week_takes_given_tuesday() {
    let today = date(2025, 2, 12);
    assert_eq!(
        resolve_week(Some(date(2025, 1, 28)), today).unwrap(),
        date(2025, 1, 28)
    );
}

#[test]
fn resolve_week_rejects_non_tuesday() {
    let today = date(2025, 2, 12);
    assert_eq!(
        resolve_week(Some(date(2025, 1, 29)), today),
        Err(HoursError::InvalidDate)
    );
}

#[test]
fn resolve_week_defaults_to_current_week() {
    let today = date(2025, 2, 12); // a Wednesday
    assert_eq!(resolve_week(None, today).unwrap(), date(2025, 2, 11));
}

#[test]
fn apply_add_creates_and_accumulates() {
    let mut data = HoursData::new();
    let ws = date(2025, 1, 28);
    let we = date(2025, 2, 3);
    apply_add(&mut data, ws, we, Category::Direct, 10_000);
    assert_eq!(data.weeks.len(), 1);
    assert_eq!(data.weeks[0].start, ws);
    assert_eq!(data.weeks[0].end, we);
    assert_eq!(data.weeks[0].direct, 10_000);

    apply_add(&mut data, ws, we, Category::Direct, 2_500);
    assert_eq!(data.weeks.len(), 1);
    assert_eq!(data.weeks[0].direct, 12_500);

    apply_add(&mut data, date(2025, 2, 4), date(2025, 2, 10), Category::Indirect, 1_000);
    assert_eq!(data.weeks.len(), 2);
    assert_eq!(data.weeks[1].indirect, 1_000);
}

#[test]
fn apply_set_overwrites_only_the_category() {
    let mut data = HoursData::new();
    let ws = date(2025, 1, 28);
    let we = date(2025, 2, 3);
    apply_add(&mut data, ws, we, Category::Direct, 10_000);
    apply_set(&mut data, ws, we, Category::Direct, 4_000);
    apply_set(&mut data, ws, we, Category::GroupSupervision, 1_500);
    assert_eq!(data.weeks.len(), 1);
    assert_eq!(data.weeks[0].direct, 4_000);
    assert_eq!(data.weeks[0].group_supervision, 1_500);
    assert_eq!(data.weeks[0].individual_supervision, 0);
}

#[test]
fn last_weeks_takes_the_tail() {
    let mut data = HoursData::new();
    let starts = [date(2025, 1, 28), date(2025, 2, 4), date(2025, 2, 11)];
    for s in starts {
        data.weeks.push(WeekEntry::new(s, s.plus_days(6)));
    }
    let two = last_weeks(&data, 2);
    assert_eq!(two.len(), 2);
    assert_eq!(two[0].start, date(2025, 2, 4));
    assert_eq!(two[1].start, date(2025, 2, 11));

    let all = last_weeks(&data, 10);
    assert_eq!(all.len(), 3);

    let none = last_weeks(&data, 0);
    assert_eq!(none.len(), 0);
}

#[test]
fn select_category_maps_indices_in_fixed_order() {
    assert_eq!(select_category(Some(0)), Some(Category::IndividualSupervision));
    assert_eq!(select_category(Some(1)), Some(Category::GroupSupervision));
    assert_eq!(select_category(Some(2)), Some(Category::Direct));
    assert_eq!(select_category(Some(3)), Some(Category::Indirect));
    assert_eq!(select_category(Some(4)), None);
    assert_eq!(select_category(None), None);
}

#[test]
fn error_kinds_name_their_variant() {
    assert_eq!(HoursError::InvalidDate.kind(), "invalid_date");
    assert_eq!(HoursError::InvalidCategory.kind(), "invalid_category");
    assert_eq!(
        HoursError::DuplicateWeek(date(2025, 1, 28)).kind(),
        "duplicate_week"
    );
    assert_eq!(HoursError::ParseError(0).kind(), "parse");
}
