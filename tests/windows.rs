use chrono::Datelike;
use toggl_billing::{report_windows, ReportYear};

#[test]
fn test_year_iterator() {
    let mut report_year = ReportYear::new(2018, Some(2022));

    assert_eq!(report_year.next(), Some(("2018-01-01".to_string(), "2018-12-31".to_string())));
    assert_eq!(report_year.next(), Some(("2019-01-01".to_string(), "2019-12-31".to_string())));
    assert_eq!(report_year.next(), Some(("2020-01-01".to_string(), "2020-12-31".to_string())));
    assert_eq!(report_year.next(), Some(("2021-01-01".to_string(), "2021-12-31".to_string())));
    assert_eq!(report_year.next(), Some(("2022-01-01".to_string(), "2022-12-31".to_string())));
    assert_eq!(report_year.next(), None);
}

#[test]
fn test_year_iterator_without_end_year() {
    let mut report_year = ReportYear::new(2018, None);

    let current_year = chrono::Local::now().year() as usize;
    for year in 2018..=current_year {
        assert_eq!(report_year.next(), Some((format!("{}-01-01", year), format!("{}-12-31", year))));
    }

    assert_eq!(None, report_year.next());
}

#[test]
fn single_year_sequence_yields_that_year_once() {
    let mut report_year = ReportYear::new(2022, Some(2022));
    assert_eq!(report_year.next(), Some(("2022-01-01".to_string(), "2022-12-31".to_string())));
    assert_eq!(report_year.next(), None);
    assert_eq!(report_year.next(), None);
}

#[test]
fn sequence_past_its_end_is_empty() {
    let mut report_year = ReportYear::new(2023, Some(2022));
    assert_eq!(report_year.next(), None);
    assert!(report_windows(2023, 2022).is_empty());
}

#[test]
fn windows_cover_each_year_in_order() {
    let windows = report_windows(1998, 2001);
    assert_eq!(
        windows,
        vec![
            ("1998-01-01".to_string(), "1998-12-31".to_string()),
            ("1999-01-01".to_string(), "1999-12-31".to_string()),
            ("2000-01-01".to_string(), "2000-12-31".to_string()),
            ("2001-01-01".to_string(), "2001-12-31".to_string()),
        ]
    );
}

#[test]
fn windows_of_short_and_long_years() {
    let windows = report_windows(7, 7);
    assert_eq!(windows, vec![("7-01-01".to_string(), "7-12-31".to_string())]);
    let windows = report_windows(10000, 10000);
    assert_eq!(windows, vec![("10000-01-01".to_string(), "10000-12-31".to_string())]);
}
