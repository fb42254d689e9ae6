use toggl_billing::billing::{bill_day, Config};
use toggl_billing::{
    build_bill_report, calculate_billable_minutes, Amount, BillReport, BillReportDay, Client, Summary,
};

fn in_currency(amount: Amount) -> f64 {
    amount.sixtieth_cents as f64 / 6000.0
}

fn client(rate_cents: u64, last_billed: &str) -> Client {
    Client { id: "123".to_string(), hourly_rate_cents: rate_cents, last_billed_date: last_billed.to_string() }
}

#[test]
fn build_bill_report_test() {
    let mut summary = Summary::new();
    summary.insert("2022-01-01".to_string(), 5);
    summary.insert("2022-01-02".to_string(), 25);
    summary.insert("2022-01-03".to_string(), 80);

    let expected_bill_report = BillReport {
        days: vec![
            BillReportDay {
                date: "2022-01-01".to_string(),
                actual_minutes: 5,
                billed_minutes: 0,
                billed_amount: Amount { sixtieth_cents: 0 },
                billed: true,
            },
            BillReportDay {
                date: "2022-01-02".to_string(),
                actual_minutes: 25,
                billed_minutes: 60,
                billed_amount: Amount { sixtieth_cents: 180_000 },
                billed: false,
            },
            BillReportDay {
                date: "2022-01-03".to_string(),
                actual_minutes: 80,
                billed_minutes: 120,
                billed_amount: Amount { sixtieth_cents: 360_000 },
                billed: false,
            },
        ],
    };

    let client = Client {
        id: "123".to_string(),
        hourly_rate_cents: 3000,
        last_billed_date: "2022-01-01".to_string(),
    };

    let report = build_bill_report(summary, &client);
    assert_eq!(expected_bill_report, report);
    assert_eq!(in_currency(report.days[0].billed_amount), 0.0);
    assert_eq!(in_currency(report.days[1].billed_amount), 30.0);
    assert_eq!(in_currency(report.days[2].billed_amount), 120.0 / 60.0 * 30.0);
}

#[test]
fn rounding_tiers_at_their_boundaries() {
    let cases = [
        (0, 0),
        (10, 0),
        (11, 60),
        (60, 60),
        (61, 61),
        (70, 70),
        (71, 120),
        (120, 120),
        (121, 121),
        (600, 600),
        (-5, -5),
    ];
    for (worked, billed) in cases {
        assert_eq!(calculate_billable_minutes(worked), billed, "worked {}", worked);
    }
}

#[test]
fn day_on_the_cutoff_is_billed_and_after_it_is_not() {
    let c = client(3000, "2022-01-01");
    assert!(bill_day("2022-01-01".to_string(), 30, &c).billed);
    assert!(!bill_day("2022-01-02".to_string(), 30, &c).billed);
    assert!(bill_day("2021-12-31".to_string(), 30, &c).billed);
}

#[test]
fn end_to_end_totals_cover_unbilled_days_only() {
    let mut summary = Summary::new();
    summary.insert("2022-01-03".to_string(), 80);
    summary.insert("2022-01-01".to_string(), 5);
    summary.insert("2022-01-02".to_string(), 25);
    let report = build_bill_report(summary, &client(3000, "2022-01-01"));
    let dates: Vec<&str> = report.days.iter().map(|d| d.date.as_str()).collect();
    assert_eq!(dates, vec!["2022-01-01", "2022-01-02", "2022-01-03"]);
    assert_eq!(report.days[2].billed_minutes, 120);
    assert_eq!(report.total_minutes(), 180);
    assert_eq!(report.total_hours(), 3);
    let amount = report.total_amount().unwrap();
    assert_eq!(amount, Amount { sixtieth_cents: 540_000 });
    assert_eq!(in_currency(amount), 90.0);
}

#[test]
fn totals_of_whole_hours_and_of_an_empty_report() {
    let mut summary = Summary::new();
    summary.insert("2023-05-01".to_string(), 30);
    summary.insert("2023-05-02".to_string(), 130);
    let report = build_bill_report(summary, &client(4550, "2020-01-01"));
    assert_eq!(report.total_minutes(), 190);
    assert_eq!(report.total_hours(), 4);
    assert_eq!(in_currency(report.total_amount().unwrap()), 144.08333333333334);

    let empty = build_bill_report(Summary::new(), &client(4550, "2020-01-01"));
    assert!(empty.days.is_empty());
    assert_eq!(empty.total_minutes(), 0);
    assert_eq!(empty.total_hours(), 0);
    assert_eq!(empty.total_amount(), Some(Amount { sixtieth_cents: 0 }));
}

#[test]
fn total_hours_round_partial_hours_up() {
    let mut summary = Summary::new();
    summary.insert("2023-05-01".to_string(), 61);
    let report = build_bill_report(summary, &client(100, "2000-01-01"));
    assert_eq!(report.total_minutes(), 61);
    assert_eq!(report.total_hours(), 2);

    let mut summary = Summary::new();
    summary.insert("2023-05-01".to_string(), -61);
    let report = build_bill_report(summary, &client(100, "2000-01-01"));
    assert_eq!(report.total_minutes(), -61);
    assert_eq!(report.total_hours(), -1);
}

#[test]
fn total_amount_out_of_range_is_none() {
    let mut summary = Summary::new();
    summary.insert("2023-05-01".to_string(), i64::MAX);
    summary.insert("2023-05-02".to_string(), i64::MAX);
    let report = build_bill_report(summary, &client(u64::MAX, "2000-01-01"));
    assert_eq!(report.total_amount(), None);
    assert_eq!(report.total_minutes(), 2 * (i64::MAX as i128));
}

#[test]
fn report_rows_are_sorted_by_date_string() {
    let mut summary = Summary::new();
    for day in ["2022-03-10", "2021-12-31", "2022-03-02", "2022-10-01"] {
        summary.insert(day.to_string(), 15);
    }
    let report = build_bill_report(summary, &client(1000, "2022-03-02"));
    let dates: Vec<&str> = report.days.iter().map(|d| d.date.as_str()).collect();
    assert_eq!(dates, vec!["2021-12-31", "2022-03-02", "2022-03-10", "2022-10-01"]);
    let billed: Vec<bool> = report.days.iter().map(|d| d.billed).collect();
    assert_eq!(billed, vec![true, true, false, false]);
}

#[test]
fn config_finds_clients_by_name() {
    let config = Config {
        workspace_id: "w".to_string(),
        start_of_time: "2022-01-01".to_string(),
        clients: vec![("acme".to_string(), client(3000, "2022-01-01"))],
    };
    assert_eq!(config.client(&"acme".to_string()).map(|c| c.hourly_rate_cents), Some(3000));
    assert!(config.client(&"other".to_string()).is_none());
}
