use hive::preferences::{auto_hide_enabled, cache_limit_mb, enforce_cache_limit, eviction_order, limit_to_store};
use std::cell::RefCell;

#[test]
fn hiding_sensitive_photos_is_off_until_it_is_asked_for() {
    assert!(!auto_hide_enabled(None), "photos must not vanish by default");
    assert!(!auto_hide_enabled(Some("yes")));
    assert!(auto_hide_enabled(Some("true")));
}

#[test]
fn an_unset_limit_reads_as_unlimited() {
    assert_eq!(cache_limit_mb(None), 0);
    assert_eq!(cache_limit_mb(Some("garbage")), 0);
    assert_eq!(cache_limit_mb(Some("500")), 500);
    assert_eq!(limit_to_store(-3), 0);
    assert_eq!(limit_to_store(800), 800);
}

#[test]
fn no_limit_means_nothing_is_deleted() {
    let asked = RefCell::new(0);
    let report = enforce_cache_limit(0, &vec![(5_000_000, 1), (7_000_000, 2)], |_| {
        *asked.borrow_mut() += 1;
        true
    });
    assert_eq!(report.removed, 0);
    assert_eq!(report.freed_bytes, 0);
    assert_eq!(report.used_bytes, 12_000_000);
    assert_eq!(*asked.borrow(), 0);
}

#[test]
fn the_oldest_thumbnails_go_first_until_the_cache_fits() {
    const MB: i64 = 1024 * 1024;
    let files = vec![(MB, 30), (MB, 10), (MB, 20), (MB, 10)];
    assert_eq!(eviction_order(&files.iter().map(|f| f.1).collect()), vec![1, 3, 2, 0]);

    let removed = RefCell::new(Vec::new());
    let report = enforce_cache_limit(2, &files, |k| {
        removed.borrow_mut().push(k);
        true
    });
    assert_eq!(*removed.borrow(), vec![1, 3]);
    assert_eq!(report.removed, 2);
    assert_eq!(report.freed_bytes, 2 * MB);
    assert_eq!(report.used_bytes, 2 * MB);
    assert_eq!(report.limit_bytes, 2 * MB);
}

#[test]
fn a_file_that_cannot_be_removed_is_skipped() {
    const MB: i64 = 1024 * 1024;
    let files = vec![(MB, 1), (MB, 2), (MB, 3)];
    let report = enforce_cache_limit(2, &files, |k| k != 0);
    assert_eq!(report.removed, 1);
    assert_eq!(report.used_bytes, 2 * MB);
}

#[test]
fn limits_are_read_as_std_reads_whole_numbers() {
    let cases = [
        "500", "+500", "-3", "0", "-0", "007", "", "+", "-", "+-1", " 5", "5 ", "12a", "٣",
        "9223372036854775807", "9223372036854775808", "-9223372036854775808", "-9223372036854775809",
        "00000000000000000000000000000042", "99999999999999999999999",
    ];
    for case in cases {
        assert_eq!(cache_limit_mb(Some(case)), case.parse::<i64>().unwrap_or(0), "{case:?}");
    }
}
