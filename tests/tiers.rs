use duo::tiers::{combine_tiers, limit_or_default, needs_cold_tier, scan_window, DEFAULT_WINDOW_MICROS};
use duo::Log;

fn logs(prefix: &str, n: usize) -> Vec<Log> {
    (0..n)
        .map(|i| Log::new(format!("{prefix}:0"), None, i as i64, format!("{prefix}{i}")))
        .collect()
}

fn messages(v: &[Log]) -> Vec<String> {
    v.iter().map(|l| l.message.clone()).collect()
}

#[test]
fn hot_tier_enough_skips_cold() {
    assert!(!needs_cold_tier(false, 5, 3));
    assert!(!needs_cold_tier(false, 3, 3));
    let r = combine_tiers(logs("h", 5), Some(logs("c", 4)), false, 3);
    assert_eq!(messages(&r), vec!["h0", "h1", "h2"]);
}

#[test]
fn cold_tier_backfills_after_hot() {
    assert!(needs_cold_tier(false, 2, 5));
    let r = combine_tiers(logs("h", 2), Some(logs("c", 4)), false, 5);
    assert_eq!(messages(&r), vec!["h0", "h1", "c0", "c1", "c2"]);
    let short = combine_tiers(logs("h", 2), Some(logs("c", 1)), false, 5);
    assert_eq!(short.len(), 3);
}

#[test]
fn failed_cold_scan_is_empty() {
    let r = combine_tiers(logs("h", 2), None, false, 5);
    assert_eq!(messages(&r), vec!["h0", "h1"]);
}

#[test]
fn memory_mode_ignores_cold_tier() {
    assert!(!needs_cold_tier(true, 0, 10));
    let a = combine_tiers(logs("h", 2), Some(logs("c", 4)), true, 5);
    let b = combine_tiers(logs("h", 2), None, true, 5);
    assert_eq!(messages(&a), messages(&b));
    assert_eq!(messages(&a), vec!["h0", "h1"]);
}

#[test]
fn default_limit_is_one_hundred() {
    assert_eq!(limit_or_default(None), 100);
    assert_eq!(limit_or_default(Some(7)), 7);
}

#[test]
fn scan_window_defaults_to_last_fifteen_minutes() {
    let now = 1_700_000_000_000_000i64;
    assert_eq!(scan_window(None, None, now), (now - 900_000_000, now));
    assert_eq!(scan_window(Some(5), Some(9), now), (5, 9));
    assert_eq!(DEFAULT_WINDOW_MICROS, 900_000_000);
    assert_eq!(scan_window(None, None, i64::MIN + 3), (i64::MIN, i64::MIN + 3));
}

#[test]
fn listing_goes_out_in_an_envelope() {
    let env = duo::JaegerData::new(combine_tiers(logs("h", 2), None, false, 1));
    assert_eq!(messages(&env.0), vec!["h0"]);
}
