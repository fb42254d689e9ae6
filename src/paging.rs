use vstd::prelude::*;
use vstd::string::StringExecFns;

use crate::text::{decimal, push_decimal};

verus! {

/// Entries per page of the report source.
pub const PAGE_SIZE: u32 = 50;

/// One time entry as the report source sends it: raw start and end timestamps.
#[derive(Clone, Debug)]
pub struct TimeEntry {
    pub start: String,
    pub end: String,
}

/// The entries of a report, in the order they were retrieved.
#[derive(Clone, Debug)]
pub struct ReportDetails {
    pub data: Vec<TimeEntry>,
}

/// One page of the report source's answer: its entries and the number of
/// entries over all pages.
#[derive(Clone, Debug)]
pub struct DetailsResponse {
    pub data: Vec<TimeEntry>,
    pub total_count: u32,
}

/// The number of pages that hold `total_count` entries: `ceil(total_count / 50)`.
pub open spec fn pages_for(total_count: int) -> int {
    (total_count + PAGE_SIZE - 1) / (PAGE_SIZE as int)
}

/// The number of pages that hold `total_count` entries.
pub fn total_pages(total_count: u32) -> (r: u32)
    ensures
        r == pages_for(total_count as int),
{
    let mut pages = total_count / PAGE_SIZE;
    if total_count % PAGE_SIZE > 0 {
        pages = pages + 1;
    }
    pages
}

/// The characters of each key and value of a query.
pub open spec fn query_view(q: Seq<(String, String)>) -> Seq<(Seq<char>, Seq<char>)> {
    q.map_values(|p: (String, String)| (p.0@, p.1@))
}

/// The query parameters of page `page` of window `since..until` for client
/// `client_id`: the first page goes without a page number.
pub open spec fn page_query(client_id: Seq<char>, since: Seq<char>, until: Seq<char>, page: nat) -> Seq<
    (Seq<char>, Seq<char>),
> {
    let base = seq![
        (seq!['c', 'l', 'i', 'e', 'n', 't', '_', 'i', 'd', 's'], client_id),
        (seq!['s', 'i', 'n', 'c', 'e'], since),
        (seq!['u', 'n', 't', 'i', 'l'], until),
    ];
    if page <= 1 {
        base
    } else {
        base.push((seq!['p', 'a', 'g', 'e'], decimal(page)))
    }
}

/// The retrieval of every page of one window: which page to ask for next, and
/// the entries received so far.
pub struct PageFetch {
    client_id: String,
    since: String,
    until: String,
    received: u32,
    total_pages: u32,
    entries: Vec<TimeEntry>,
}

impl PageFetch {
    /// The client whose entries are retrieved.
    pub closed spec fn client(&self) -> Seq<char> {
        self.client_id@
    }

    /// The first day of the window.
    pub closed spec fn since_day(&self) -> Seq<char> {
        self.since@
    }

    /// The last day of the window.
    pub closed spec fn until_day(&self) -> Seq<char> {
        self.until@
    }

    /// The number of pages received.
    pub closed spec fn pages_received(&self) -> nat {
        self.received as nat
    }

    /// The number of pages of the window, as the first page gave it.
    pub closed spec fn pages_total(&self) -> nat {
        self.total_pages as nat
    }

    /// The entries received, page after page.
    pub closed spec fn received_entries(&self) -> Seq<TimeEntry> {
        self.entries@
    }

    /// The page to ask for next: page 1 first, then each page up to the
    /// total that page 1 announced.
    pub open spec fn pending_page(&self) -> Option<nat> {
        if self.pages_received() == 0 {
            Some(1)
        } else if self.pages_received() < self.pages_total() {
            Some(self.pages_received() + 1)
        } else {
            None
        }
    }

    /// A retrieval of window `since..until` for `client_id` with nothing received.
    pub fn new(client_id: String, since: String, until: String) -> (r: PageFetch)
        ensures
            r.client() == client_id@,
            r.since_day() == since@,
            r.until_day() == until@,
            r.pages_received() == 0,
            r.pages_total() == 0,
            r.received_entries() == Seq::<TimeEntry>::empty(),
    {
        PageFetch { client_id, since, until, received: 0, total_pages: 0, entries: Vec::new() }
    }

    /// The page to ask for next, or `None` once every page has come.
    pub fn next_page(&self) -> (r: Option<u32>)
        ensures
            r matches Some(p) ==> self.pending_page() == Some(p as nat),
            r is None ==> self.pending_page() is None,
    {
        if self.received == 0 {
            Some(1)
        } else if self.received < self.total_pages {
            Some(self.received + 1)
        } else {
            None
        }
    }

    /// The query parameters of page `page` of this window.
    pub fn query(&self, page: u32) -> (r: Vec<(String, String)>)
        ensures
            query_view(r@) == page_query(self.client(), self.since_day(), self.until_day(), page as nat),
    {
        proof {
            reveal_strlit("client_ids");
            reveal_strlit("since");
            reveal_strlit("until");
            reveal_strlit("page");
            assert("client_ids"@ =~= seq!['c', 'l', 'i', 'e', 'n', 't', '_', 'i', 'd', 's']);
            assert("since"@ =~= seq!['s', 'i', 'n', 'c', 'e']);
            assert("until"@ =~= seq!['u', 'n', 't', 'i', 'l']);
            assert("page"@ =~= seq!['p', 'a', 'g', 'e']);
        }
        let mut r: Vec<(String, String)> = Vec::new();
        r.push((String::from_str("client_ids"), self.client_id.clone()));
        r.push((String::from_str("since"), self.since.clone()));
        r.push((String::from_str("until"), self.until.clone()));
        if page > 1 {
            let mut number = String::new();
            push_decimal(&mut number, page as u64);
            r.push((String::from_str("page"), number));
        }
        assert(query_view(r@) =~= page_query(self.client(), self.since_day(), self.until_day(), page as nat));
        r
    }

    /// Takes in the page that was asked for: its entries follow those received
    /// before, and page 1 fixes the number of pages.
    pub fn receive(&mut self, response: DetailsResponse)
        requires
            old(self).pending_page() is Some,
        ensures
            final(self).client() == old(self).client(),
            final(self).since_day() == old(self).since_day(),
            final(self).until_day() == old(self).until_day(),
            final(self).pages_received() == old(self).pages_received() + 1,
            final(self).pages_total() == if old(self).pages_received() == 0 {
                pages_for(response.total_count as int) as nat
            } else {
                old(self).pages_total()
            },
            final(self).received_entries() == old(self).received_entries() + response.data@,
    {
        let mut data = response.data;
        if self.received == 0 {
            self.total_pages = total_pages(response.total_count);
        }
        self.received = self.received + 1;
        self.entries.append(&mut data);
    }

    /// The entries of every page received, in page order.
    pub fn into_entries(self) -> (r: Vec<TimeEntry>)
        ensures
            r@ == self.received_entries(),
    {
        self.entries
    }
}

} // verus!
