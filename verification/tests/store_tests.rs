use hours::date::Date;
use hours::error::HoursError;
use hours::model::{HoursData, WeekEntry};
use hours::store::{load, save};

fn date(y: u32, m: u32, d: u32) -> Date {
    Date::from_ymd(y, m, d).unwrap()
}

fn entry(y: u32, m: u32, d: u32, ind: i64, grp: i64, dir: i64, indir: i64) -> WeekEntry {
    let start = date(y, m, d);
    WeekEntry {
        start,
        end: start.plus_days(6),
        individual_supervision: ind,
        group_supervision: grp,
        direct: dir,
        indirect: indir,
    }
}

fn sample_data() -> HoursData {
    HoursData {
        weeks: vec![
            entry(2025, 2, 4, 1_000, 0, 10_000, 3_000),
            entry(2025, 1, 28, 1_000, 2_000, 14_500, 6_000),
        ],
    }
}

#[test]
fn test_save_and_load_roundtrip() {
    let data = sample_data();
    let bytes = save(&data).unwrap();

    let loaded = load(&bytes).unwrap();
    assert_eq!(loaded.weeks.len(), 2);
    // Verify sorted by start date
    assert!(loaded.weeks[0].start.day_index() < loaded.weeks[1].start.day_index());
    assert_eq!(loaded.weeks[0].start, date(2025, 1, 28));
    assert_eq!(loaded.weeks[1].start, date(2025, 2, 4));
}

#[test]
fn test_save_sorts_weeks() {
    let data = sample_data();
    // weeks are out of order in sample_data
    assert!(data.weeks[0].start.day_index() > data.weeks[1].start.day_index());

    let bytes = save(&data).unwrap();
    let loaded = load(&bytes).unwrap();
    assert!(loaded.weeks[0].start.day_index() < loaded.weeks[1].start.day_index());
}

#[test]
fn test_save_validates_tuesday_start() {
    let data = HoursData {
        weeks: vec![WeekEntry {
            start: date(2025, 1, 29), // Wednesday
            end: date(2025, 2, 4),
            individual_supervision: 0,
            group_supervision: 0,
            direct: 0,
            indirect: 0,
        }],
    };
    assert!(save(&data).is_err());
    assert!(matches!(
        save(&data),
        Err(HoursError::InvalidWeekStart(_))
    ));
}

#[test]
fn test_save_validates_end_date() {
    let data = HoursData {
        weeks: vec![WeekEntry {
            start: date(2025, 1, 28),
            end: date(2025, 2, 4), // Wrong: should be Feb 3
            individual_supervision: 0,
            group_supervision: 0,
            direct: 0,
            indirect: 0,
        }],
    };
    assert!(save(&data).is_err());
    assert!(matches!(save(&data), Err(HoursError::InvalidWeekEnd(_))));
}

#[test]
fn test_save_validates_negative_hours() {
    let data = HoursData {
        weeks: vec![WeekEntry {
            start: date(2025, 1, 28),
            end: date(2025, 2, 3),
            individual_supervision: -1_000,
            group_supervision: 0,
            direct: 0,
            indirect: 0,
        }],
    };
    assert!(save(&data).is_err());
    assert!(matches!(save(&data), Err(HoursError::NegativeHours(_))));
}

#[test]
fn test_save_validates_duplicate_weeks() {
    let data = HoursData {
        weeks: vec![
            WeekEntry::new(date(2025, 1, 28), date(2025, 2, 3)),
            WeekEntry::new(date(2025, 1, 28), date(2025, 2, 3)),
        ],
    };
    // the duplicate-week error comes and nothing is produced
    assert!(matches!(save(&data), Err(HoursError::DuplicateWeek(_))));
}

#[test]
fn test_save_empty_data() {
    let data = HoursData::new();
    let bytes = save(&data).unwrap();

    let content = String::from_utf8(bytes.clone()).unwrap();
    assert!(content.contains("\"weeks\": []"));

    let loaded = load(&bytes).unwrap();
    assert!(loaded.weeks.is_empty());
}

#[test]
fn test_load_invalid_json() {
    assert!(load(b"not valid json").is_err());
    assert!(matches!(
        load(b"not valid json"),
        Err(HoursError::ParseError(_))
    ));
}

#[test]
fn test_save_preserves_values() {
    let data = HoursData {
        weeks: vec![entry(2025, 1, 28, 1_500, 2_250, 14_750, 6_000)],
    };
    let bytes = save(&data).unwrap();
    let loaded = load(&bytes).unwrap();

    let w = &loaded.weeks[0];
    assert_eq!(w.individual_supervision, 1_500);
    assert_eq!(w.group_supervision, 2_250);
    assert_eq!(w.direct, 14_750);
    assert_eq!(w.indirect, 6_000);
}

#[test]
fn saved_text_has_expected_shape() {
    let data = HoursData {
        weeks: vec![entry(2025, 1, 28, 1_000, 2_000, 14_500, 6_000)],
    };
    let text = String::from_utf8(save(&data).unwrap()).unwrap();
    assert!(text.contains("\"start\": \"2025-01-28\""));
    assert!(text.contains("\"end\": \"2025-02-03\""));
    assert!(text.contains("\"individual_supervision\": 1.0"));
    assert!(text.contains("\"group_supervision\": 2.0"));
    assert!(text.contains("\"direct\": 14.5"));
    assert!(text.contains("\"indirect\": 6.0"));
}

#[test]
fn load_accepts_compact_and_integer_values() {
    let text = b"{\"weeks\":[{\"start\":\"2025-01-28\",\"end\":\"2025-02-03\",\
\"individual_supervision\":1,\"group_supervision\":2.25,\"direct\":14.5,\"indirect\":0.125}]}";
    let loaded = load(text).unwrap();
    assert_eq!(loaded.weeks.len(), 1);
    assert_eq!(loaded.weeks[0].individual_supervision, 1_000);
    assert_eq!(loaded.weeks[0].group_supervision, 2_250);
    assert_eq!(loaded.weeks[0].direct, 14_500);
    assert_eq!(loaded.weeks[0].indirect, 125);
}

#[test]
fn load_is_permissive_about_invariants() {
    // a Wednesday start and a negative value load fine; only save checks
    let text = b"{\"weeks\":[{\"start\":\"2025-01-29\",\"end\":\"2025-02-04\",\
\"individual_supervision\":-1.5,\"group_supervision\":0,\"direct\":0,\"indirect\":0}]}";
    let loaded = load(text).unwrap();
    assert_eq!(loaded.weeks[0].start, date(2025, 1, 29));
    assert_eq!(loaded.weeks[0].individual_supervision, -1_500);
}

#[test]
fn load_tolerates_free_whitespace() {
    let text = b" {\n\t\"weeks\" :\n[ {\"start\" : \"2025-01-28\" ,\"end\": \"2025-02-03\",\n\
  \"individual_supervision\": 1.0 , \"group_supervision\":2.0,\"direct\": 14.5,\
\"indirect\": 6.0 } ]\n } \n";
    let loaded = load(text).unwrap();
    assert_eq!(loaded.weeks.len(), 1);
    assert_eq!(loaded.weeks[0].direct, 14_500);
}

#[test]
fn load_rejects_malformed_structures() {
    assert!(load(b"{}").is_err());
    assert!(load(b"{\"weeks\":}").is_err());
    assert!(load(b"{\"weeks\":[").is_err());
    assert!(load(b"{\"weeks\":[]} trailing").is_err());
    assert!(load(b"{\"weeks\":[{\"start\":\"2025-02-30\",\"end\":\"2025-03-08\",\
\"individual_supervision\":0,\"group_supervision\":0,\"direct\":0,\"indirect\":0}]}")
        .is_err());
    assert!(load(b"{\"weeks\":[{\"start\":\"2025-01-28\",\"end\":\"2025-02-03\",\
\"individual_supervision\":01,\"group_supervision\":0,\"direct\":0,\"indirect\":0}]}")
        .is_err());
}
