use checkpoint::timestamp::{Timestamp, DISPLAY_PATTERN, FILE_NAME_PATTERN};

#[test]
fn calendar_fields_are_checked() {
    assert!(Timestamp::from_parts(2024, 2, 29, 0, 0, 0, 0).is_some());
    assert!(Timestamp::from_parts(2023, 2, 29, 0, 0, 0, 0).is_none());
    assert!(Timestamp::from_parts(1900, 2, 29, 0, 0, 0, 0).is_none());
    assert!(Timestamp::from_parts(2000, 2, 29, 0, 0, 0, 0).is_some());
    assert!(Timestamp::from_parts(2024, 4, 31, 0, 0, 0, 0).is_none());
    assert!(Timestamp::from_parts(2024, 13, 1, 0, 0, 0, 0).is_none());
    assert!(Timestamp::from_parts(10000, 1, 1, 0, 0, 0, 0).is_none());
    assert!(Timestamp::from_parts(-1, 1, 1, 0, 0, 0, 0).is_none());
    assert!(Timestamp::from_parts(2024, 1, 1, 24, 0, 0, 0).is_none());
    assert!(Timestamp::from_parts(2024, 1, 1, 0, 0, 0, 1_000_000_000).is_none());
}

#[test]
fn later_instants_rank_higher() {
    let a = Timestamp::from_parts(2024, 1, 31, 23, 59, 59, 999_999_999).unwrap();
    let b = Timestamp::from_parts(2024, 2, 1, 0, 0, 0, 0).unwrap();
    assert!(b.is_later_than(&a));
    assert!(!a.is_later_than(&b));
    assert!(!a.is_later_than(&a));
}

#[test]
fn formats_with_chrono_patterns() {
    let t = Timestamp::from_parts(2024, 3, 4, 5, 6, 7, 0).unwrap();
    assert_eq!(t.format(FILE_NAME_PATTERN), "2024-03-04_05-06-07");
    assert_eq!(t.format(DISPLAY_PATTERN), "2024-03-04 05:06:07");
}

#[test]
fn clock_reads_a_valid_instant() {
    let t = Timestamp::now().unwrap();
    assert!(t.year >= 2000 && t.month >= 1 && t.month <= 12);
}

#[test]
fn validity_of_hand_built_instants() {
    let good = Timestamp { year: 2024, month: 2, day: 29, hour: 23, minute: 59, second: 59, nanosecond: 0 };
    assert!(good.is_valid());
    assert!(!Timestamp { day: 30, ..good }.is_valid());
    assert!(!Timestamp { year: 10000, ..good }.is_valid());
    assert!(!Timestamp { second: 60, ..good }.is_valid());
}

#[test]
fn early_years_are_padded_to_four_digits() {
    let t = Timestamp::from_parts(5, 1, 2, 3, 4, 5, 0).unwrap();
    assert_eq!(t.format(FILE_NAME_PATTERN), "0005-01-02_03-04-05");
    assert_eq!(t.format(DISPLAY_PATTERN), "0005-01-02 03:04:05");
}
