use vstd::prelude::*;
use vstd::string::StringExecFns;

use crate::text::{decimal, push_decimal};

verus! {

/// The characters `-01-01`.
pub open spec fn first_day_suffix() -> Seq<char> {
    seq!['-', '0', '1', '-', '0', '1']
}

/// The characters `-12-31`.
pub open spec fn last_day_suffix() -> Seq<char> {
    seq!['-', '1', '2', '-', '3', '1']
}

/// The window of calendar year `year`: (`<year>-01-01`, `<year>-12-31`).
pub open spec fn year_window(year: nat) -> (Seq<char>, Seq<char>) {
    (decimal(year) + first_day_suffix(), decimal(year) + last_day_suffix())
}

/// The windows of the years `first..=last`, in ascending order (empty when
/// `first > last`).
pub open spec fn year_windows(first: nat, last: nat) -> Seq<(Seq<char>, Seq<char>)> {
    if first > last {
        Seq::empty()
    } else {
        Seq::new((last - first + 1) as nat, |i: int| year_window((first + i) as nat))
    }
}

/// The windows from `first` through `last` are one per year, in ascending
/// order of year: `last - first + 1` of them, the `i`-th that of year
/// `first + i`, and none when `first > last`.
pub proof fn lemma_year_windows(first: nat, last: nat)
    ensures
        first <= last ==> year_windows(first, last).len() == last - first + 1,
        first > last ==> year_windows(first, last).len() == 0,
        forall|i: int|
            0 <= i < year_windows(first, last).len() ==> #[trigger] year_windows(first, last)[i]
                == year_window((first + i) as nat),
{
}

/// The characters of a pair of strings.
pub open spec fn pair_view(p: (String, String)) -> (Seq<char>, Seq<char>) {
    (p.0@, p.1@)
}

/// The characters of each pair of strings in `v`.
pub open spec fn pairs_view(v: Seq<(String, String)>) -> Seq<(Seq<char>, Seq<char>)> {
    v.map_values(|p: (String, String)| pair_view(p))
}

/// Relies on chrono's `Local::now` and `Datelike::year`: the calendar year of
/// the local clock. Nothing is known of it in advance.
#[verifier::external_body]
fn local_year() -> (r: i32) {
    chrono::Datelike::year(&chrono::Local::now())
}

/// The sequence of yearly retrieval windows from a starting year through an
/// ending year, both included.
pub struct ReportYear {
    current: usize,
    until: usize,
    exhausted: bool,
}

impl ReportYear {
    /// The next year the sequence would yield.
    pub closed spec fn first_year(&self) -> nat {
        self.current as nat
    }

    /// The last year of the sequence.
    pub closed spec fn last_year(&self) -> nat {
        self.until as nat
    }

    /// The windows still to come, in order.
    pub closed spec fn remaining(&self) -> Seq<(Seq<char>, Seq<char>)> {
        if self.exhausted {
            Seq::empty()
        } else {
            year_windows(self.current as nat, self.until as nat)
        }
    }

    /// A sequence from `current` through `until`, or through the local
    /// clock's current year where `until` is `None` (a clock before year 0
    /// counts as year 0).
    pub fn new(current: usize, until: Option<usize>) -> (r: ReportYear)
        ensures
            r.remaining() == year_windows(current as nat, r.last_year()),
            until matches Some(u) ==> r.last_year() == u,
    {
        let until = match until {
            Some(u) => u,
            None => {
                let y = local_year();
                if y < 0 {
                    0
                } else {
                    y as usize
                }
            },
        };
        ReportYear { current, until, exhausted: false }
    }

    /// The next window, or `None` once the last year has been yielded.
    pub fn next(&mut self) -> (r: Option<(String, String)>)
        ensures
            old(self).remaining().len() == 0 ==> r is None && final(self).remaining().len() == 0,
            old(self).remaining().len() > 0 ==> {
                &&& r matches Some(p)
                &&& pair_view(p) == old(self).remaining()[0]
                &&& final(self).remaining() == old(self).remaining().drop_first()
            },
    {
        if self.exhausted || self.current > self.until {
            return None;
        }
        let mut since = String::new();
        push_decimal(&mut since, self.current as u64);
        let mut until = since.clone();
        proof {
            reveal_strlit("-01-01");
            reveal_strlit("-12-31");
        }
        since.append("-01-01");
        until.append("-12-31");
        let ghost before = self.remaining();
        if self.current == self.until {
            self.exhausted = true;
        } else {
            self.current = self.current + 1;
        }
        assert(self.remaining() =~= before.drop_first());
        Some((since, until))
    }
}

/// Every window from `start_year` through `end_year`, in ascending order.
pub fn report_windows(start_year: usize, end_year: usize) -> (r: Vec<(String, String)>)
    ensures
        pairs_view(r@) == year_windows(start_year as nat, end_year as nat),
{
    let mut years = ReportYear::new(start_year, Some(end_year));
    let ghost all = years.remaining();
    let mut r: Vec<(String, String)> = Vec::new();
    loop
        invariant
            all == year_windows(start_year as nat, end_year as nat),
            all == pairs_view(r@) + years.remaining(),
        decreases years.remaining().len(),
    {
        let ghost before = years.remaining();
        match years.next() {
            Some(p) => {
                r.push(p);
                assert(pairs_view(r@) + years.remaining() =~= all);
            },
            None => {
                assert(pairs_view(r@) =~= all);
                return r;
            },
        }
    }
}

} // verus!
