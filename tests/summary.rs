use toggl_billing::{build_summary, summarize, ReportDetails, Summary, SummaryError, TimeEntry, TimeField, Timestamp};

fn entry(start: &str, end: &str) -> TimeEntry {
    TimeEntry { start: start.to_string(), end: end.to_string() }
}

fn stamp(seconds: i64, nanos: u32, day: &str) -> Timestamp {
    Timestamp { seconds, nanos, day: day.to_string() }
}

#[test]
fn test_build_summary() {
    let report_details = ReportDetails {
        data: vec![
            TimeEntry {
                start: "2022-01-01T00:00:00+00:00".to_string(),
                end: "2022-01-01T00:10:00+00:00".to_string(),
            },
            TimeEntry {
                start: "2022-01-01T10:00:00+00:00".to_string(),
                end: "2022-01-01T11:10:00+00:00".to_string(),
            },
            TimeEntry {
                start: "2022-02-01T15:00:00+00:00".to_string(),
                end: "2022-02-01T15:52:00+00:00".to_string(),
            },
        ],
    };
    let mut summary = Summary::new();
    summary.insert("2022-01-01".to_string(), 80);
    summary.insert("2022-02-01".to_string(), 52);

    assert_eq!(summary, build_summary(&report_details).unwrap());
}

#[test]
fn test_build_summary_invalid_date() {
    let report_details = ReportDetails {
        data: vec![TimeEntry {
            start: "this string is not a date".to_string(),
            end: "2022-01-01T00:10:00+00:00".to_string(),
        }],
    };

    assert!(build_summary(&report_details).is_err());
    assert_eq!(
        "Failed to parse start date: this string is not a date".to_string(),
        build_summary(&report_details).unwrap_err().message()
    );

    let report_details = ReportDetails {
        data: vec![TimeEntry {
            start: "2022-01-01T00:10:00+00:00".to_string(),
            end: "this string is not a date".to_string(),
        }],
    };

    assert!(build_summary(&report_details).is_err());
    assert_eq!(
        "Failed to parse end date: this string is not a date".to_string(),
        build_summary(&report_details).unwrap_err().message()
    );
}

#[test]
fn first_bad_timestamp_is_named_and_nothing_else_returned() {
    let details = ReportDetails {
        data: vec![
            entry("2022-01-01T00:00:00+00:00", "2022-01-01T01:00:00+00:00"),
            entry("2022-01-02T00:00:00+00:00", "later"),
            entry("nonsense", "2022-01-03T00:00:00+00:00"),
        ],
    };
    match build_summary(&details) {
        Err(SummaryError::Unreadable { field, raw }) => {
            assert_eq!(field, TimeField::End);
            assert_eq!(raw, "later");
        }
        other => panic!("unexpected result {:?}", other),
    }
}

#[test]
fn day_key_follows_the_encoded_offset() {
    let details = ReportDetails {
        data: vec![
            entry("2022-01-01T23:30:00-05:00", "2022-01-02T00:15:00-05:00"),
            entry("2022-01-02T04:40:00+00:00", "2022-01-02T05:00:00+00:00"),
        ],
    };
    let summary = build_summary(&details).unwrap();
    assert_eq!(summary.get(&"2022-01-01".to_string()), Some(45));
    assert_eq!(summary.get(&"2022-01-02".to_string()), Some(20));
    assert_eq!(summary.days().len(), 2);
}

#[test]
fn negative_duration_subtracts_from_the_day() {
    let details = ReportDetails {
        data: vec![
            entry("2022-03-01T10:00:00+00:00", "2022-03-01T11:00:00+00:00"),
            entry("2022-03-01T12:00:00+00:00", "2022-03-01T11:30:00+00:00"),
        ],
    };
    let summary = build_summary(&details).unwrap();
    assert_eq!(summary.get(&"2022-03-01".to_string()), Some(30));
}

#[test]
fn minutes_are_rounded_down() {
    let details = ReportDetails {
        data: vec![
            entry("2022-03-01T10:00:00+00:00", "2022-03-01T10:00:59.999+00:00"),
            entry("2022-03-02T10:00:30+00:00", "2022-03-02T10:00:00+00:00"),
            entry("2022-03-03T10:00:00.5+00:00", "2022-03-03T10:02:00+00:00"),
        ],
    };
    let summary = build_summary(&details).unwrap();
    assert_eq!(summary.get(&"2022-03-01".to_string()), Some(0));
    assert_eq!(summary.get(&"2022-03-02".to_string()), Some(-1));
    assert_eq!(summary.get(&"2022-03-03".to_string()), Some(1));
}

#[test]
fn empty_report_gives_empty_summary() {
    let summary = build_summary(&ReportDetails { data: Vec::new() }).unwrap();
    assert_eq!(summary, Summary::new());
}

#[test]
fn summarize_sums_readings_per_day() {
    let stamps = vec![
        (stamp(0, 0, "1970-01-01"), stamp(600, 0, "1970-01-01")),
        (stamp(1000, 0, "1970-01-01"), stamp(1000 + 3599, 999_999_999, "1970-01-01")),
        (stamp(90_000, 0, "1970-01-02"), stamp(89_000, 0, "1970-01-02")),
    ];
    let summary = summarize(&stamps).unwrap();
    assert_eq!(summary.get(&"1970-01-01".to_string()), Some(69));
    assert_eq!(summary.get(&"1970-01-02".to_string()), Some(-17));
}

#[test]
fn summarize_reports_totals_out_of_range() {
    let far = (stamp(i64::MIN, 0, "d"), stamp(i64::MAX, 999_999_999, "d"));
    let stamps: Vec<(Timestamp, Timestamp)> = (0..40)
        .map(|_| (stamp(far.0.seconds, 0, "d"), stamp(far.1.seconds, far.1.nanos, "d")))
        .collect();
    match summarize(&stamps) {
        Err(SummaryError::TotalOutOfRange) => {}
        other => panic!("unexpected result {:?}", other),
    }
    assert_eq!(SummaryError::TotalOutOfRange.message(), "Daily total out of range");
}

#[test]
fn summary_insert_replaces_and_equality_ignores_order() {
    let mut a = Summary::new();
    a.insert("2022-01-02".to_string(), 5);
    a.insert("2022-01-01".to_string(), 7);
    a.insert("2022-01-02".to_string(), 9);
    let mut b = Summary::new();
    b.insert("2022-01-01".to_string(), 7);
    b.insert("2022-01-02".to_string(), 9);
    assert_eq!(a, b);
    assert_eq!(a.days().len(), 2);
    b.insert("2022-01-03".to_string(), 1);
    assert_ne!(a, b);
    assert_eq!(a.get(&"2022-01-03".to_string()), None);
}
