use toggl_billing::paging::total_pages;
use toggl_billing::{DetailsResponse, PageFetch, TimeEntry};

fn entries(n: usize, tag: &str) -> Vec<TimeEntry> {
    (0..n)
        .map(|i| TimeEntry { start: format!("{}-{}-start", tag, i), end: format!("{}-{}-end", tag, i) })
        .collect()
}

fn pair(k: &str, v: &str) -> (String, String) {
    (k.to_string(), v.to_string())
}

#[test]
fn pages_round_up() {
    assert_eq!(total_pages(0), 0);
    assert_eq!(total_pages(1), 1);
    assert_eq!(total_pages(50), 1);
    assert_eq!(total_pages(51), 2);
    assert_eq!(total_pages(127), 3);
    assert_eq!(total_pages(150), 3);
    assert_eq!(total_pages(u32::MAX), 85_899_346);
}

#[test]
fn fetch_of_127_entries_asks_for_three_pages() {
    let mut fetch = PageFetch::new("123".to_string(), "2022-01-01".to_string(), "2022-12-31".to_string());
    let mut asked = Vec::new();
    let pages = vec![entries(50, "a"), entries(50, "b"), entries(27, "c")];
    while let Some(page) = fetch.next_page() {
        asked.push(page);
        let data = pages[(page - 1) as usize].clone();
        fetch.receive(DetailsResponse { data, total_count: 127 });
    }
    assert_eq!(asked, vec![1, 2, 3]);
    let all = fetch.into_entries();
    assert_eq!(all.len(), 127);
    assert_eq!(all[0].start, "a-0-start");
    assert_eq!(all[50].start, "b-0-start");
    assert_eq!(all[126].end, "c-26-end");
}

#[test]
fn fetch_of_an_empty_window_asks_once() {
    let mut fetch = PageFetch::new("9".to_string(), "2020-01-01".to_string(), "2020-12-31".to_string());
    assert_eq!(fetch.next_page(), Some(1));
    fetch.receive(DetailsResponse { data: Vec::new(), total_count: 0 });
    assert_eq!(fetch.next_page(), None);
    assert!(fetch.into_entries().is_empty());
}

#[test]
fn total_count_of_later_pages_is_ignored() {
    let mut fetch = PageFetch::new("9".to_string(), "2020-01-01".to_string(), "2020-12-31".to_string());
    fetch.receive(DetailsResponse { data: entries(50, "a"), total_count: 60 });
    assert_eq!(fetch.next_page(), Some(2));
    fetch.receive(DetailsResponse { data: entries(10, "b"), total_count: 500 });
    assert_eq!(fetch.next_page(), None);
    assert_eq!(fetch.into_entries().len(), 60);
}

#[test]
fn first_page_query_has_no_page_number() {
    let fetch = PageFetch::new("123".to_string(), "2022-01-01".to_string(), "2022-12-31".to_string());
    assert_eq!(
        fetch.query(1),
        vec![pair("client_ids", "123"), pair("since", "2022-01-01"), pair("until", "2022-12-31")]
    );
}

#[test]
fn later_page_query_carries_page_number() {
    let fetch = PageFetch::new("123".to_string(), "2022-01-01".to_string(), "2022-12-31".to_string());
    assert_eq!(
        fetch.query(12),
        vec![
            pair("client_ids", "123"),
            pair("since", "2022-01-01"),
            pair("until", "2022-12-31"),
            pair("page", "12"),
        ]
    );
    assert_eq!(fetch.query(3)[3], pair("page", "3"));
}
