use hive::organize::{
    bucket_label, event_id, event_settings, lasts_a_trip, parse_date, split_on_gaps, timeline_format,
};

const HOUR: i128 = 3_600_000_000_000;

fn at(hour: i128) -> i128 {
    hour * HOUR
}

#[test]
fn gaps_split_runs_and_small_runs_are_dropped() {
    let entries = vec![
        (at(0), 'a'),
        (at(1), 'b'),
        (at(2), 'c'),
        // 10-hour gap starts a new run
        (at(12), 'd'),
        (at(13), 'e'),
    ];
    let runs = split_on_gaps(&entries, 6, 3);
    assert_eq!(runs.len(), 1, "the two-photo run is below the minimum");
    assert_eq!(runs[0].len(), 3);
}

#[test]
fn a_gap_exactly_on_the_threshold_does_not_split() {
    let entries = vec![(at(0), 'a'), (at(6), 'b'), (at(7), 'c')];
    let runs = split_on_gaps(&entries, 6, 2);
    assert_eq!(runs.len(), 1, "6h is not *more* than a 6h gap");
}

#[test]
fn everything_in_one_burst_stays_one_run() {
    let entries: Vec<_> = (0..8).map(|i| (at(i), i)).collect();
    let runs = split_on_gaps(&entries, 6, 4);
    assert_eq!(runs.len(), 1);
    assert_eq!(runs[0].len(), 8);
}

#[test]
fn a_gap_is_counted_in_whole_minutes() {
    // Six hours and fifty-nine seconds is still six hours of whole minutes.
    let entries = vec![(0, 'a'), (at(6) + 59_000_000_000, 'b')];
    assert_eq!(split_on_gaps(&entries, 6, 1).len(), 1);
    let entries = vec![(0, 'a'), (at(6) + 60_000_000_000, 'b')];
    let runs = split_on_gaps(&entries, 6, 1);
    assert_eq!(runs, vec![vec![(0, 'a')], vec![(at(6) + 60_000_000_000, 'b')]]);
}

#[test]
fn exif_style_dates_without_a_timezone_parse() {
    assert!(parse_date("2024-06-15 10:30:00").is_some());
    assert!(parse_date("2024-06-15T10:30:00Z").is_some());
    assert!(parse_date("not a date").is_none());
}

#[test]
fn dates_read_as_instants_since_the_epoch() {
    assert_eq!(parse_date("1970-01-01T00:00:01Z"), Some(1_000_000_000));
    assert_eq!(parse_date("1970-01-01T01:00:00+01:00"), Some(0));
    assert_eq!(parse_date("1970-01-01 00:01:00"), Some(60_000_000_000));
    assert_eq!(parse_date("1969-12-31T23:59:59.5Z"), Some(-500_000_000));
}

#[test]
fn event_searches_keep_their_settings_in_range() {
    assert_eq!(event_settings(None, None), (6, 4));
    assert_eq!(event_settings(Some(0), Some(1)), (1, 2));
    assert_eq!(event_settings(Some(1000), Some(9)), (240, 9));
}

#[test]
fn a_trip_lasts_at_least_twenty_hours() {
    assert!(!lasts_a_trip(0, at(20) - 1));
    assert!(lasts_a_trip(0, at(20)));
}

#[test]
fn an_event_is_named_by_its_first_and_last_second() {
    assert_eq!(event_id(1_700_000_000, 1_700_003_600), "1700000000_1700003600");
    assert_eq!(event_id(-5, 0), "-5_0");
}

#[test]
fn timelines_group_by_year_unless_asked_otherwise() {
    assert_eq!(timeline_format(None), ("%Y", 4));
    assert_eq!(timeline_format(Some("month")), ("%Y-%m", 7));
    assert_eq!(timeline_format(Some("day")), ("%Y-%m-%d", 10));
    assert_eq!(timeline_format(Some("week")), ("%Y", 4));
    assert_eq!(bucket_label("2024-06-15", 7), "2024-06");
    assert_eq!(bucket_label("2024", 7), "2024");
}

#[test]
fn a_gap_too_long_to_count_in_nanoseconds_is_still_honoured() {
    let entries = vec![(at(0), 'a'), (at(100_000), 'b'), (at(200_000), 'c')];
    let runs = split_on_gaps(&entries, i64::MAX / 60, 1);
    assert_eq!(runs.len(), 1);
    assert_eq!(runs[0].len(), 3);
}
