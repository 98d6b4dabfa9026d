use bus_persistence::index_minute::year_and_minute;
use bus_persistence::index_minute::YearlyIndex;
use bus_persistence::index_minute::MICROS_PER_MINUTE;

/// Minutes from the epoch to the start of 2023: 53 years, 13 of them
/// leap (1972 through 2020).
fn minutes_to_2023() -> i64 {
    (53 * 365 + 13) * 24 * 60
}

#[test]
fn calendar_split() {
    assert_eq!(year_and_minute(0), (1970, 0));
    let t = (minutes_to_2023() + 5) * MICROS_PER_MINUTE;
    assert_eq!(year_and_minute(t), (2023, 5));
    // The last minute of the leap year 1972: 1970 and 1971 are plain.
    let t = ((2 * 365 + 366) * 24 * 60 - 1) * MICROS_PER_MINUTE;
    assert_eq!(year_and_minute(t), (1972, 527_039));
}

#[test]
fn s4_index_lookup() {
    let t = (minutes_to_2023() + 5) * MICROS_PER_MINUTE;
    let (year, minute) = year_and_minute(t);
    assert_eq!((year, minute), (2023, 5));
    let mut idx = YearlyIndex::new(year);
    idx.update(7, minute);
    assert_eq!(idx.lookup(5), Some(7));
    // A scan from two minutes earlier lands on the same entry.
    assert_eq!(idx.get_first_message_id_at_or_after(3, 24 * 60), Some(7));
}

#[test]
fn p5_lookup_monotone_by_minute() {
    let mut idx = YearlyIndex::new(2023);
    idx.update(1, 10);
    idx.update(5, 10);
    idx.update(9, 20);
    idx.update(11, 45);
    // The slot keeps the smallest id of its minute.
    assert_eq!(idx.lookup(10), Some(1));
    assert_eq!(idx.lookup(20), Some(9));
    assert_eq!(idx.lookup(45), Some(11));
    assert_eq!(idx.lookup(15), None);
    // Non-decreasing across occupied slots.
    assert!(idx.lookup(10).unwrap() < idx.lookup(20).unwrap());
    assert!(idx.lookup(20).unwrap() < idx.lookup(45).unwrap());
}

#[test]
fn index_scan_bounded_by_horizon() {
    let mut idx = YearlyIndex::new(2023);
    idx.update(3, 100);
    assert_eq!(idx.get_first_message_id_at_or_after(0, 50), None);
    assert_eq!(idx.get_first_message_id_at_or_after(0, 101), Some(3));
    assert_eq!(idx.get_first_message_id_at_or_after(101, 100), None);
}
