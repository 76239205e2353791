use hive::backfill::BackfillRun;
use hive::models::BatchReport;

#[test]
fn one_unreadable_photo_does_not_fail_the_run() {
    let mut run = BackfillRun::new(3);
    run.record(Err("unreadable".to_string()));
    run.record(Ok(()));
    run.record(Ok(()));
    assert_eq!((run.done, run.succeeded), (3, 2));
    assert_eq!(run.first_error.as_deref(), Some("unreadable"));
    assert_eq!(run.failure(), None);
}

#[test]
fn nothing_done_at_all_reports_the_first_failure() {
    let mut run = BackfillRun::new(2);
    run.record(Err("model has no input named pixel_values".to_string()));
    run.record(Err("second".to_string()));
    assert_eq!(run.failure().as_deref(), Some("model has no input named pixel_values"));
}

#[test]
fn an_empty_run_completes() {
    let run = BackfillRun::new(0);
    assert_eq!(run.failure(), None);
}

#[test]
fn batch_reports_count_and_keep_the_first_message() {
    let mut report = BatchReport::started(Some("/out".to_string()));
    report.skip();
    report.succeed(1000, 400);
    report.succeed(500, 300);
    report.fail(None);
    report.fail(Some("disk full".to_string()));
    report.fail(Some("later".to_string()));
    assert_eq!((report.processed, report.skipped, report.failed), (2, 1, 3));
    assert_eq!((report.bytes_before, report.bytes_after), (1500, 700));
    assert_eq!(report.first_error.as_deref(), Some("disk full"));
    assert_eq!(report.destination.as_deref(), Some("/out"));
}

#[test]
fn a_scan_reports_each_file_and_counts_what_it_indexed() {
    let (mut scan, started) = hive::scan::ScanState::start(3);
    assert_eq!((started.status, started.current, started.total), ("running", 0, 3));
    let first = scan.after(hive::scan::FileOutcome::Indexed);
    assert_eq!((first.status, first.current, first.total), ("running", 1, 3));
    scan.after(hive::scan::FileOutcome::Failed);
    let stopped = scan.cancelled();
    assert_eq!((stopped.status, stopped.current), ("cancelled", 2));
    scan.after(hive::scan::FileOutcome::Unchanged);
    assert_eq!((scan.done, scan.indexed), (3, 1));
    let done = scan.finished();
    assert_eq!((done.status, done.current, done.total), ("completed", 3, 3));
    assert!(scan.wants_enrichment(true));
    assert!(!scan.wants_enrichment(false));
    let (idle, _) = hive::scan::ScanState::start(0);
    assert!(!idle.wants_enrichment(true));
}
