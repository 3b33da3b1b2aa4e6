use duo::partition::{MinuteStamp, PartitionWriter};
use duo::query::{le_minute, parse_partition_path, PartitionQuery, MAX_MICROS, MIN_MICROS};

fn stamp(year: i32, month: u8, day: u8, hour: u8, minute: u8) -> MinuteStamp {
    MinuteStamp { year, month, day, hour, minute }
}

#[test]
fn parse_reads_back_written_paths() {
    for m in [stamp(2024, 3, 5, 7, 9), stamp(0, 1, 1, 0, 0), stamp(-250, 12, 31, 23, 59), stamp(9999, 6, 30, 12, 30)] {
        let w = PartitionWriter::at_minute(m);
        assert_eq!(parse_partition_path(&w.partition_path), Some(m));
    }
}

#[test]
fn parse_refuses_other_text() {
    assert_eq!(parse_partition_path(""), None);
    assert_eq!(parse_partition_path("date=2024-13-05/hour=07/minute=09"), None);
    assert_eq!(parse_partition_path("date=2024-03-00/hour=07/minute=09"), None);
    assert_eq!(parse_partition_path("date=2024-03-05/hour=24/minute=09"), None);
    assert_eq!(parse_partition_path("date=2024-03-05/hour=07/minute=60"), None);
    assert_eq!(parse_partition_path("date=-0000-03-05/hour=07/minute=09"), None);
    assert_eq!(parse_partition_path("date=2024-03-05/hour=07/minute=9"), None);
    assert_eq!(parse_partition_path("date=2024/03/05/hour=07/minute=09"), None);
    assert_eq!(parse_partition_path("date=2a24-03-05/hour=07/minute=09"), None);
    assert_eq!(parse_partition_path("date=2024-03-05/hour=07/second=09"), None);
}

#[test]
fn window_covers_its_bounds() {
    let q = PartitionQuery::new(".".to_string(), stamp(2024, 3, 5, 7, 9), stamp(2024, 3, 5, 8, 0));
    assert!(q.covers(stamp(2024, 3, 5, 7, 9)));
    assert!(q.covers(stamp(2024, 3, 5, 7, 59)));
    assert!(q.covers(stamp(2024, 3, 5, 8, 0)));
    assert!(!q.covers(stamp(2024, 3, 5, 7, 8)));
    assert!(!q.covers(stamp(2024, 3, 5, 8, 1)));
    assert!(!q.covers(stamp(2023, 3, 5, 7, 30)));
    assert!(le_minute(stamp(2024, 1, 31, 0, 0), stamp(2024, 2, 1, 0, 0)));
    assert!(!le_minute(stamp(2024, 2, 1, 0, 0), stamp(2024, 1, 31, 23, 59)));
}

#[test]
fn only_partitions_in_the_window_are_scanned() {
    let q = PartitionQuery::new(".".to_string(), stamp(2024, 3, 5, 7, 9), stamp(2024, 3, 5, 7, 11));
    let candidates = vec![
        "date=2024-03-05/hour=07/minute=08".to_string(),
        "date=2024-03-05/hour=07/minute=10".to_string(),
        "notes".to_string(),
        "date=2024-03-05/hour=07/minute=11".to_string(),
        "date=2024-03-05/hour=07/minute=12".to_string(),
    ];
    assert_eq!(
        q.partitions_to_scan(&candidates),
        vec!["date=2024-03-05/hour=07/minute=10".to_string(), "date=2024-03-05/hour=07/minute=11".to_string()]
    );
    assert!(!q.scans("notes"));
}

#[test]
fn window_from_microseconds() {
    // 2024-03-05T07:09:30Z and 2024-03-05T07:24:59Z
    let q = PartitionQuery::for_window(".".to_string(), 1_709_622_570_000_000, 1_709_623_499_000_000).unwrap();
    assert_eq!(q.start, stamp(2024, 3, 5, 7, 9));
    assert_eq!(q.end, stamp(2024, 3, 5, 7, 24));
    assert!(PartitionQuery::for_window(".".to_string(), i64::MAX, 0).is_none());
}

#[test]
fn window_edges_of_the_calendar() {
    let q = PartitionQuery::for_window(".".to_string(), MIN_MICROS, MAX_MICROS).unwrap();
    assert_eq!(q.start, stamp(-9999, 1, 1, 0, 0));
    assert_eq!(q.end, stamp(9999, 12, 31, 23, 59));
    assert!(PartitionQuery::for_window(".".to_string(), MIN_MICROS - 1, 0).is_none());
    assert!(PartitionQuery::for_window(".".to_string(), 0, MAX_MICROS + 1).is_none());
    assert!(PartitionQuery::for_window(".".to_string(), 0, 0).is_some());
}
