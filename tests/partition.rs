use duo::partition::{MinuteStamp, PartitionWriter};
use duo::text::push_decimal;

fn stamp(year: i32, month: u8, day: u8, hour: u8, minute: u8) -> MinuteStamp {
    MinuteStamp { year, month, day, hour, minute }
}

#[test]
fn partition_path_layout() {
    let w = PartitionWriter::at_minute(stamp(2024, 3, 5, 7, 9));
    assert_eq!(w.partition_path, "date=2024-03-05/hour=07/minute=09");
}

#[test]
fn partition_path_pads_small_years_and_signs_negative_ones() {
    let w = PartitionWriter::at_minute(stamp(42, 12, 31, 23, 59));
    assert_eq!(w.partition_path, "date=0042-12-31/hour=23/minute=59");
    let n = PartitionWriter::at_minute(stamp(-17, 1, 1, 0, 0));
    assert_eq!(n.partition_path, "date=-0017-01-01/hour=00/minute=00");
}

#[test]
fn same_minute_same_path_other_minute_other_path() {
    let a = PartitionWriter::at_minute(stamp(2024, 3, 5, 7, 9));
    let b = PartitionWriter::at_minute(stamp(2024, 3, 5, 7, 9));
    let c = PartitionWriter::at_minute(stamp(2024, 3, 5, 7, 10));
    assert_eq!(a.partition_path, b.partition_path);
    assert_ne!(a.partition_path, c.partition_path);
}

#[test]
fn with_minute_gives_a_partition_path() {
    let w = PartitionWriter::with_minute();
    assert!(w.partition_path.starts_with("date="));
    assert_eq!(w.partition_path.len(), "date=2024-03-05/hour=07/minute=09".len());
}

#[test]
fn empty_flush_has_no_file() {
    let w = PartitionWriter::at_minute(stamp(2024, 3, 5, 7, 9));
    assert!(w.file_for("logs", 0, 123).is_none());
    assert!(w.next_file("logs", 0).is_none());
}

#[test]
fn flush_file_location() {
    let w = PartitionWriter::at_minute(stamp(2024, 3, 5, 7, 9));
    let f = w.file_for("logs", 2, 123).unwrap();
    assert_eq!(f.dir, "logs/date=2024-03-05/hour=07/minute=09");
    assert_eq!(f.file_name, "123.parquet");
    let g = w.file_for("span", 1, 4294967295).unwrap();
    assert_eq!(g.file_name, "4294967295.parquet");
}

#[test]
fn next_file_names_a_parquet_file() {
    let w = PartitionWriter::at_minute(stamp(2024, 3, 5, 7, 9));
    let f = w.next_file("logs", 1).unwrap();
    assert_eq!(f.dir, "logs/date=2024-03-05/hour=07/minute=09");
    let stem = f.file_name.strip_suffix(".parquet").unwrap();
    assert!(stem.parse::<u32>().is_ok());
}

#[test]
fn decimal_rendering() {
    let mut s = String::from("n=");
    push_decimal(&mut s, 0);
    assert_eq!(s, "n=0");
    let mut t = String::new();
    push_decimal(&mut t, 18446744073709551615);
    assert_eq!(t, "18446744073709551615");
}

#[test]
fn flush_directory_joins_like_a_path() {
    let w = PartitionWriter::at_minute(stamp(2024, 3, 5, 7, 9));
    assert_eq!(w.file_for("", 1, 5).unwrap().dir, "date=2024-03-05/hour=07/minute=09");
    assert_eq!(w.file_for("logs/", 1, 5).unwrap().dir, "logs/date=2024-03-05/hour=07/minute=09");
    assert_eq!(w.file_for("data/logs", 1, 5).unwrap().dir, "data/logs/date=2024-03-05/hour=07/minute=09");
}
