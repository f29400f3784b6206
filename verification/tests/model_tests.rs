use hours::date::Date;
use hours::model::{Category, HoursData, WeekEntry};
use hours::store;

fn date(y: u32, m: u32, d: u32) -> Date {
    Date::from_ymd(y, m, d).unwrap()
}

// hour values are held in thousandths of an hour
fn entry(y: u32, m: u32, d: u32, ind: i64, grp: i64, dir: i64, indir: i64) -> WeekEntry {
    let start = date(y, m, d);
    let end = start.plus_days(6);
    WeekEntry {
        start,
        end,
        individual_supervision: ind,
        group_supervision: grp,
        direct: dir,
        indirect: indir,
    }
}

#[test]
fn test_week_entry_total() {
    let e = entry(2025, 1, 28, 1_000, 2_000, 14_500, 6_000);
    assert_eq!(e.end, date(2025, 2, 3));
    assert_eq!(e.total(), 23_500);
}

#[test]
fn test_week_entry_new_zeros() {
    let start = date(2025, 1, 28);
    let end = date(2025, 2, 3);
    let e = WeekEntry::new(start, end);
    assert_eq!(e.total(), 0);
    assert_eq!(e.start, start);
    assert_eq!(e.end, end);
}

#[test]
fn test_week_entry_get_set() {
    let start = date(2025, 1, 28);
    let end = date(2025, 2, 3);
    let mut e = WeekEntry::new(start, end);

    for cat in Category::ALL {
        assert_eq!(e.get(cat), 0);
    }

    e.set(Category::Direct, 5_000);
    assert_eq!(e.get(Category::Direct), 5_000);

    e.add(Category::Direct, 2_500);
    assert_eq!(e.get(Category::Direct), 7_500);
}

#[test]
fn add_equals_set_of_get_plus_delta() {
    let mut a = entry(2025, 1, 28, 1_000, 2_000, 3_000, 4_000);
    let mut b = a;
    for cat in Category::ALL {
        a.add(cat, 1_250);
        let cur = b.get(cat);
        b.set(cat, cur + 1_250);
        assert_eq!(a, b);
    }
}

#[test]
fn test_category_from_str() {
    assert_eq!(
        "individual_supervision".parse::<Category>().unwrap(),
        Category::IndividualSupervision
    );
    assert_eq!(
        "group_supervision".parse::<Category>().unwrap(),
        Category::GroupSupervision
    );
    assert_eq!("direct".parse::<Category>().unwrap(), Category::Direct);
    assert_eq!("indirect".parse::<Category>().unwrap(), Category::Indirect);
    assert!("invalid".parse::<Category>().is_err());
}

#[test]
fn test_category_display_roundtrip() {
    for cat in Category::ALL {
        let s = cat.token();
        let parsed: Category = s.parse().unwrap();
        assert_eq!(parsed, cat);
    }
}

#[test]
fn test_category_items_match_all_categories() {
    let items: Vec<String> = Category::ALL
        .iter()
        .map(|c| c.long_name().to_string())
        .collect();
    assert_eq!(items.len(), 4);
    assert_eq!(items[0], "Individual Supervision");
    assert_eq!(items[1], "Group Supervision");
    assert_eq!(items[2], "Direct (client contact)");
    assert_eq!(items[3], "Indirect");
}

#[test]
fn category_display_names() {
    assert_eq!(Category::IndividualSupervision.display_name(), "Ind Sv");
    assert_eq!(Category::GroupSupervision.display_name(), "Grp Sv");
    assert_eq!(Category::Direct.display_name(), "Direct");
    assert_eq!(Category::Indirect.display_name(), "Indirect");
}

#[test]
fn test_hours_data_new_empty() {
    let data = HoursData::new();
    assert!(data.weeks.is_empty());
}

#[test]
fn test_hours_data_serde_roundtrip() {
    let data = HoursData {
        weeks: vec![entry(2025, 1, 28, 1_000, 2_000, 14_500, 6_000)],
    };
    let bytes = store::save(&data).unwrap();
    let deserialized = store::load(&bytes).unwrap();
    assert_eq!(deserialized.weeks.len(), 1);
    assert_eq!(deserialized.weeks[0].total(), 23_500);
}

#[test]
fn test_hours_data_empty_serde() {
    let data = HoursData::new();
    let bytes = store::save(&data).unwrap();
    let text = String::from_utf8(bytes.clone()).unwrap();
    assert!(text.contains("\"weeks\": []"));
    let deserialized = store::load(&bytes).unwrap();
    assert!(deserialized.weeks.is_empty());
}
