use vstd::arithmetic::div_mod::{lemma_fundamental_div_mod, lemma_fundamental_div_mod_converse};
use vstd::prelude::*;

use crate::summary::{entries_map, keys_unique, lemma_entries_map_dom, lemma_entries_map_index, Summary};
use crate::text::{lemma_lex_le_antisym, lemma_lex_le_total, lemma_lex_le_trans, lex_le, lex_lt, str_le};

verus! {

/// Billable minutes for a day on which `minutes` were worked.
///
/// Up to ten minutes are not billed, up to an hour is billed as an hour,
/// 61 to 70 minutes are billed as worked, 71 to 120 minutes as two hours,
/// and anything longer (or negative) as worked.
pub open spec fn billable(minutes: int) -> int {
    if 0 <= minutes <= 10 {
        0
    } else if 11 <= minutes <= 60 {
        60
    } else if 61 <= minutes <= 70 {
        minutes
    } else if 71 <= minutes <= 120 {
        120
    } else {
        minutes
    }
}

/// Applies the rounding tiers to one day's worked minutes.
pub fn calculate_billable_minutes(minutes: i64) -> (r: i64)
    ensures
        r == billable(minutes as int),
{
    if 0 <= minutes && minutes <= 10 {
        0
    } else if 11 <= minutes && minutes <= 60 {
        60
    } else if 61 <= minutes && minutes <= 70 {
        minutes
    } else if 71 <= minutes && minutes <= 120 {
        120
    } else {
        minutes
    }
}

} // verus!

verus! {

/// A client to bill: its identifier at the report source, its hourly rate in
/// cents, and the last day (`YYYY-MM-DD`) already invoiced.
pub struct Client {
    pub id: String,
    pub hourly_rate_cents: u64,
    pub last_billed_date: String,
}

/// A sum of money held exactly, in sixtieths of a cent: minutes times an
/// hourly rate in cents, so that dividing by sixty needs no rounding.
#[derive(Clone, Copy, Debug, PartialEq, Eq, Structural)]
pub struct Amount {
    pub sixtieth_cents: i128,
}

/// One day of a bill report.
#[derive(Debug, PartialEq)]
pub struct BillReportDay {
    pub date: String,
    pub actual_minutes: i64,
    pub billed_minutes: i64,
    pub billed_amount: Amount,
    pub billed: bool,
}

/// The days of a bill report, in ascending order of date.
#[derive(Debug, PartialEq)]
pub struct BillReport {
    pub days: Vec<BillReportDay>,
}

/// `row` is the bill of a day `row.date` on which `minutes` were worked, for `client`.
pub open spec fn bills_day(row: BillReportDay, minutes: int, client: Client) -> bool {
    &&& row.actual_minutes == minutes
    &&& row.billed_minutes == billable(minutes)
    &&& row.billed_amount.sixtieth_cents == billable(minutes) * client.hourly_rate_cents
    &&& row.billed == lex_le(row.date@, client.last_billed_date@)
}

/// The bill of day `date` on which `minutes` were worked: the billable
/// minutes, their price at the client's rate, and whether the day is on or
/// before the client's last billed date.
pub fn bill_day(date: String, minutes: i64, client: &Client) -> (r: BillReportDay)
    ensures
        r.date@ == date@,
        bills_day(r, minutes as int, *client),
{
    let billed_minutes = calculate_billable_minutes(minutes);
    let billed = str_le(date.as_str(), client.last_billed_date.as_str());
    let ghost m = billed_minutes as int;
    let ghost c = client.hourly_rate_cents as int;
    assert(-0x7fff_ffff_ffff_ffff_ffff_ffff_ffff_ffff <= m * c <= 0x7fff_ffff_ffff_ffff_ffff_ffff_ffff_ffff)
        by (nonlinear_arith)
        requires
            -0x8000_0000_0000_0000 <= m <= 0x7fff_ffff_ffff_ffff,
            0 <= c <= 0xffff_ffff_ffff_ffff,
    ;
    let cents = billed_minutes as i128 * client.hourly_rate_cents as i128;
    BillReportDay {
        date,
        actual_minutes: minutes,
        billed_minutes,
        billed_amount: Amount { sixtieth_cents: cents },
        billed,
    }
}

/// Each date of `days` comes strictly before the next.
pub open spec fn dates_ascending(days: Seq<BillReportDay>) -> bool {
    forall|i: int, j: int| 0 <= i < j < days.len() ==> lex_lt(days[i].date@, days[j].date@)
}

/// `days` holds one bill for each day of `summary`, and nothing else.
pub open spec fn bills_summary(days: Seq<BillReportDay>, summary: Map<Seq<char>, int>, client: Client) -> bool {
    &&& forall|i: int| #![trigger days[i]]
        0 <= i < days.len() ==> summary.contains_key(days[i].date@) && bills_day(
            days[i],
            summary[days[i].date@],
            client,
        )
    &&& forall|k: Seq<char>| #[trigger]
        summary.contains_key(k) ==> exists|i: int| 0 <= i < days.len() && days[i].date@ == k
}

proof fn lemma_lex_lt_trans(a: Seq<char>, b: Seq<char>, c: Seq<char>)
    requires
        lex_lt(a, b),
        lex_lt(b, c),
    ensures
        lex_lt(a, c),
{
    lemma_lex_le_trans(a, b, c);
    if a == c {
        lemma_lex_le_antisym(a, b);
    }
}

/// Inserts `row` into `days`, ascending by date, before the first later date.
fn insert_by_date(days: &mut Vec<BillReportDay>, row: BillReportDay) -> (p: usize)
    requires
        dates_ascending(old(days)@),
        forall|a: int| 0 <= a < old(days)@.len() ==> #[trigger] old(days)@[a].date@ != row.date@,
    ensures
        p <= old(days)@.len(),
        final(days)@ == old(days)@.insert(p as int, row),
        dates_ascending(final(days)@),
{
    let ghost new_key = row.date@;
    let mut p: usize = 0;
    while p < days.len() && !str_le(row.date.as_str(), days[p].date.as_str())
        invariant
            p <= days@.len(),
            row.date@ == new_key,
            forall|a: int| 0 <= a < p ==> !lex_le(new_key, #[trigger] days@[a].date@),
        decreases days@.len() - p,
    {
        p = p + 1;
    }
    proof {
        assert forall|a: int| 0 <= a < p implies lex_lt(#[trigger] days@[a].date@, new_key) by {
            lemma_lex_le_total(new_key, days@[a].date@);
        }
        if p < days@.len() {
            assert(lex_le(new_key, days@[p as int].date@));
            assert forall|b: int| p <= b < days@.len() implies lex_lt(
                new_key,
                #[trigger] days@[b].date@,
            ) by {
                if b > p {
                    lemma_lex_lt_trans(new_key, days@[p as int].date@, days@[b].date@);
                }
            }
        }
    }
    let ghost old_days = days@;
    days.insert(p, row);
    assert forall|a: int, b: int| 0 <= a < b < days@.len() implies lex_lt(
        days@[a].date@,
        days@[b].date@,
    ) by {
        if a < p && b < p {
            assert(lex_lt(old_days[a].date@, old_days[b].date@));
        } else if a < p && b == p {
        } else if a < p {
            assert(lex_lt(old_days[a].date@, new_key));
            assert(lex_lt(new_key, old_days[b - 1].date@));
            lemma_lex_lt_trans(old_days[a].date@, new_key, old_days[b - 1].date@);
        } else if a == p {
            assert(lex_lt(new_key, old_days[b - 1].date@));
        } else {
            assert(lex_lt(old_days[a - 1].date@, old_days[b - 1].date@));
        }
    }
    p
}

/// Every row of `days` bills one of the first `n` entries of `es`.
pub open spec fn rows_from(days: Seq<BillReportDay>, es: Seq<(String, i64)>, n: int, client: Client) -> bool {
    forall|a: int| #![trigger days[a]]
        0 <= a < days.len() ==> exists|j: int|
            0 <= j < n && es[j].0@ == days[a].date@ && bills_day(days[a], es[j].1 as int, client)
}

/// Each of the first `n` entries of `es` has a row in `days`.
pub open spec fn rows_cover(days: Seq<BillReportDay>, es: Seq<(String, i64)>, n: int) -> bool {
    forall|j: int| #![trigger es[j]]
        0 <= j < n ==> exists|a: int| 0 <= a < days.len() && days[a].date@ == es[j].0@
}

proof fn lemma_rows_from_after_insert(
    old_days: Seq<BillReportDay>,
    days: Seq<BillReportDay>,
    es: Seq<(String, i64)>,
    i: int,
    p: int,
    client: Client,
)
    requires
        0 <= i < es.len(),
        0 <= p <= old_days.len(),
        days == old_days.insert(p, days[p]),
        days[p].date@ == es[i].0@,
        bills_day(days[p], es[i].1 as int, client),
        rows_from(old_days, es, i, client),
    ensures
        rows_from(days, es, i + 1, client),
{
    assert forall|a: int| #![trigger days[a]] 0 <= a < days.len() implies exists|j: int|
        0 <= j < i + 1 && es[j].0@ == days[a].date@ && bills_day(days[a], es[j].1 as int, client) by {
        if a == p {
            assert(0 <= i < i + 1 && es[i].0@ == days[a].date@ && bills_day(days[a], es[i].1 as int, client));
        } else {
            let b = if a < p { a } else { a - 1 };
            assert(days[a] == old_days[b]);
            let j = choose|j: int|
                0 <= j < i && es[j].0@ == old_days[b].date@ && bills_day(old_days[b], es[j].1 as int, client);
            assert(0 <= j < i + 1 && es[j].0@ == days[a].date@ && bills_day(days[a], es[j].1 as int, client));
        }
    }
}

proof fn lemma_rows_cover_after_insert(
    old_days: Seq<BillReportDay>,
    days: Seq<BillReportDay>,
    es: Seq<(String, i64)>,
    i: int,
    p: int,
)
    requires
        0 <= i < es.len(),
        0 <= p <= old_days.len(),
        days == old_days.insert(p, days[p]),
        days[p].date@ == es[i].0@,
        rows_cover(old_days, es, i),
    ensures
        rows_cover(days, es, i + 1),
{
    assert forall|j: int| #![trigger es[j]] 0 <= j < i + 1 implies exists|a: int|
        0 <= a < days.len() && days[a].date@ == es[j].0@ by {
        if j < i {
            let a = choose|a: int| 0 <= a < old_days.len() && old_days[a].date@ == es[j].0@;
            let c = if a < p { a } else { a + 1 };
            assert(days[c] == old_days[a]);
            assert(0 <= c < days.len() && days[c].date@ == es[j].0@);
        } else {
            assert(0 <= p < days.len() && days[p].date@ == es[j].0@);
        }
    }
}

/// The bill report of `summary` for `client`: one day per day of the
/// summary, in ascending order of date.
pub fn build_bill_report(summary: Summary, client: &Client) -> (r: BillReport)
    ensures
        bills_summary(r.days@, summary@, *client),
        dates_ascending(r.days@),
{
    let entries = summary.days();
    let ghost es = entries@;
    let mut days: Vec<BillReportDay> = Vec::new();
    let mut i: usize = 0;
    while i < entries.len()
        invariant
            i <= es.len(),
            es == entries@,
            keys_unique(es),
            entries_map(es) == summary@,
            dates_ascending(days@),
            rows_from(days@, es, i as int, *client),
            rows_cover(days@, es, i as int),
        decreases es.len() - i,
    {
        let row = bill_day(entries[i].0.clone(), entries[i].1, client);
        proof {
            assert forall|a: int| 0 <= a < days@.len() implies #[trigger] days@[a].date@ != row.date@ by {
                let j = choose|j: int|
                    0 <= j < i && es[j].0@ == days@[a].date@ && bills_day(
                        days@[a],
                        es[j].1 as int,
                        *client,
                    );
                assert(es[j].0@ != es[i as int].0@);
            }
        }
        let ghost old_days = days@;
        let p = insert_by_date(&mut days, row);
        proof {
            lemma_rows_from_after_insert(old_days, days@, es, i as int, p as int, *client);
            lemma_rows_cover_after_insert(old_days, days@, es, i as int, p as int);
        }
        i = i + 1;
    }
    proof {
        assert forall|a: int| #![trigger days@[a]] 0 <= a < days@.len() implies summary@.contains_key(
            days@[a].date@,
        ) && bills_day(days@[a], summary@[days@[a].date@], *client) by {
            let j = choose|j: int|
                0 <= j < i && es[j].0@ == days@[a].date@ && bills_day(days@[a], es[j].1 as int, *client);
            lemma_entries_map_index(es, j);
        }
        assert forall|k: Seq<char>| #[trigger] summary@.contains_key(k) implies exists|a: int|
            0 <= a < days@.len() && days@[a].date@ == k by {
            lemma_entries_map_dom(es, k);
            let j = choose|j: int| 0 <= j < es.len() && es[j].0@ == k;
            assert(es[j] == es[j]);
        }
    }
    BillReport { days }
}

/// The billed minutes of the days of `days` not yet billed, summed.
pub open spec fn unbilled_minutes(days: Seq<BillReportDay>) -> int
    decreases days.len(),
{
    if days.len() == 0 {
        0
    } else {
        unbilled_minutes(days.drop_last()) + if days.last().billed {
            0
        } else {
            days.last().billed_minutes as int
        }
    }
}

/// The billed amounts, in sixtieths of a cent, of the days of `days` not yet
/// billed, summed.
pub open spec fn unbilled_amount(days: Seq<BillReportDay>) -> int
    decreases days.len(),
{
    if days.len() == 0 {
        0
    } else {
        unbilled_amount(days.drop_last()) + if days.last().billed {
            0
        } else {
            days.last().billed_amount.sixtieth_cents as int
        }
    }
}

/// Each running sum of `unbilled_amount`, day after day, fits in an `i128`.
pub open spec fn amount_sums_fit(days: Seq<BillReportDay>) -> bool
    decreases days.len(),
{
    days.len() == 0 || {
        &&& amount_sums_fit(days.drop_last())
        &&& i128::MIN <= unbilled_amount(days) <= i128::MAX
    }
}

proof fn lemma_amount_sums_fit_prefix(days: Seq<BillReportDay>, k: int)
    requires
        amount_sums_fit(days),
        0 <= k <= days.len(),
    ensures
        amount_sums_fit(days.take(k)),
    decreases days.len(),
{
    if k < days.len() {
        lemma_amount_sums_fit_prefix(days.drop_last(), k);
        assert(days.drop_last().take(k) =~= days.take(k));
    } else {
        assert(days.take(k) =~= days);
    }
}

/// Minutes in whole hours, any partial hour counting as a whole one.
pub open spec fn hours_rounded_up(minutes: int) -> int {
    (minutes + 59) / 60
}

/// `n / 60`, rounded down.
fn div_60_floor(n: i128) -> (r: i128)
    ensures
        r == n / 60,
{
    let q: i128;
    let rem: i128;
    if n >= 0 {
        q = n / 60;
        rem = n % 60;
        proof {
            lemma_fundamental_div_mod(n as int, 60);
        }
    } else {
        let x: i128 = -(n + 1);
        let q0: i128 = x / 60;
        let r0: i128 = x % 60;
        proof {
            lemma_fundamental_div_mod(x as int, 60);
        }
        q = -q0 - 1;
        rem = 59 - r0;
    }
    proof {
        lemma_fundamental_div_mod_converse(n as int, 60, q as int, rem as int);
    }
    q
}

impl BillReport {
    /// The billed minutes of the days not yet billed.
    pub fn total_minutes(&self) -> (r: i128)
        ensures
            r == unbilled_minutes(self.days@),
    {
        let mut t: i128 = 0;
        let mut i: usize = 0;
        assert(self.days@.take(0) =~= Seq::<BillReportDay>::empty());
        while i < self.days.len()
            invariant
                i <= self.days@.len(),
                t == unbilled_minutes(self.days@.take(i as int)),
                -(i as int) * 0x8000_0000_0000_0000 <= t <= (i as int) * 0x8000_0000_0000_0000,
            decreases self.days@.len() - i,
        {
            assert(self.days@.take(i + 1).drop_last() =~= self.days@.take(i as int));
            if !self.days[i].billed {
                t = t + self.days[i].billed_minutes as i128;
            }
            i = i + 1;
        }
        assert(self.days@.take(i as int) =~= self.days@);
        t
    }

    /// The billed minutes of the days not yet billed, in whole hours rounded up.
    pub fn total_hours(&self) -> (r: i128)
        ensures
            r == hours_rounded_up(unbilled_minutes(self.days@)),
    {
        let t = self.total_minutes();
        let count = self.days.len();
        proof {
            lemma_unbilled_minutes_bound(self.days@);
            let n = self.days@.len() as int;
            assert(n == count as int);
            assert(n * 0x8000_0000_0000_0000 <= 0xffff_ffff_ffff_ffff * 0x8000_0000_0000_0000)
                by (nonlinear_arith)
                requires
                    0 <= n <= 0xffff_ffff_ffff_ffff,
            ;
        }
        div_60_floor(t + 59)
    }

    /// The billed amount of the days not yet billed, or `None` where a running
    /// sum leaves the range of `i128`.
    pub fn total_amount(&self) -> (r: Option<Amount>)
        ensures
            r is Some <==> amount_sums_fit(self.days@),
            r matches Some(a) ==> a.sixtieth_cents == unbilled_amount(self.days@),
    {
        let mut t: i128 = 0;
        let mut i: usize = 0;
        assert(self.days@.take(0) =~= Seq::<BillReportDay>::empty());
        while i < self.days.len()
            invariant
                i <= self.days@.len(),
                t == unbilled_amount(self.days@.take(i as int)),
                amount_sums_fit(self.days@.take(i as int)),
            decreases self.days@.len() - i,
        {
            assert(self.days@.take(i + 1).drop_last() =~= self.days@.take(i as int));
            if !self.days[i].billed {
                match t.checked_add(self.days[i].billed_amount.sixtieth_cents) {
                    Some(n) => {
                        t = n;
                    },
                    None => {
                        proof {
                            if amount_sums_fit(self.days@) {
                                lemma_amount_sums_fit_prefix(self.days@, i + 1);
                            }
                        }
                        return None;
                    },
                }
            }
            i = i + 1;
        }
        assert(self.days@.take(i as int) =~= self.days@);
        Some(Amount { sixtieth_cents: t })
    }
}

proof fn lemma_unbilled_minutes_bound(days: Seq<BillReportDay>)
    ensures
        -(days.len() as int) * 0x8000_0000_0000_0000 <= unbilled_minutes(days) <= (days.len() as int)
            * 0x8000_0000_0000_0000,
    decreases days.len(),
{
    if days.len() > 0 {
        lemma_unbilled_minutes_bound(days.drop_last());
    }
}

/// The configuration: the workspace, the start of the billing history, and the
/// clients by name.
pub struct Config {
    pub workspace_id: String,
    pub start_of_time: String,
    pub clients: Vec<(String, Client)>,
}

impl Config {
    /// The first client named `name`, if there is one.
    pub fn client(&self, name: &String) -> (r: Option<&Client>)
        ensures
            r matches Some(c) ==> exists|i: int|
                0 <= i < self.clients@.len() && self.clients@[i].0@ == name@ && self.clients@[i].1 == *c,
            r is None ==> forall|i: int|
                0 <= i < self.clients@.len() ==> self.clients@[i].0@ != name@,
    {
        let mut i: usize = 0;
        while i < self.clients.len()
            invariant
                i <= self.clients@.len(),
                forall|j: int| 0 <= j < i ==> self.clients@[j].0@ != name@,
            decreases self.clients@.len() - i,
        {
            if self.clients[i].0 == *name {
                return Some(&self.clients[i].1);
            }
            i = i + 1;
        }
        None
    }
}

} // verus!
