use vstd::arithmetic::div_mod::{lemma_fundamental_div_mod, lemma_fundamental_div_mod_converse};
use vstd::prelude::*;
use vstd::string::StringExecFns;

use crate::paging::{ReportDetails, TimeEntry};
use crate::summary::Summary;

verus! {

/// Nanoseconds in a second.
pub const NANOS_PER_SECOND: i128 = 1_000_000_000;

/// Nanoseconds in a minute.
pub const NANOS_PER_MINUTE: i128 = 60_000_000_000;

/// A point in time as the aggregation reads it: whole seconds since the Unix
/// epoch, the nanoseconds past that second, and the calendar day
/// (`YYYY-MM-DD`) in the timestamp's own offset.
pub struct Timestamp {
    pub seconds: i64,
    pub nanos: u32,
    pub day: String,
}

impl View for Timestamp {
    type V = (int, int, Seq<char>);

    open spec fn view(&self) -> (int, int, Seq<char>) {
        (self.seconds as int, self.nanos as int, self.day@)
    }
}

/// What an RFC 3339 timestamp reads as (seconds since the epoch, nanoseconds,
/// calendar day in its own offset), or `None` where it is not one.
pub uninterp spec fn rfc3339_reading(s: Seq<char>) -> Option<(int, int, Seq<char>)>;

#[verifier::external_type_specification]
#[verifier::external_body]
pub struct ExParseError(chrono::ParseError);

/// Relies on chrono's `DateTime::parse_from_rfc3339`, and on `timestamp`,
/// `timestamp_subsec_nanos` and `format("%Y-%m-%d")` of the value it returns.
#[verifier::external_body]
fn parse_rfc3339(s: &str) -> (r: Result<Timestamp, chrono::ParseError>)
    ensures
        r is Ok <==> rfc3339_reading(s@) is Some,
        r matches Ok(t) ==> rfc3339_reading(s@) == Some(t@),
{
    match chrono::DateTime::parse_from_rfc3339(s) {
        Ok(t) => Ok(
            Timestamp {
                seconds: t.timestamp(),
                nanos: t.timestamp_subsec_nanos(),
                day: t.format("%Y-%m-%d").to_string(),
            },
        ),
        Err(e) => Err(e),
    }
}

/// Whole minutes from `start` to `end`: the duration in nanoseconds divided by
/// a minute, rounded down (a negative duration gives a negative count).
pub open spec fn entry_minutes(start: (int, int, Seq<char>), end: (int, int, Seq<char>)) -> int {
    ((end.0 - start.0) * (NANOS_PER_SECOND as int) + (end.1 - start.1)) / (NANOS_PER_MINUTE as int)
}

/// Whole minutes from `start` to `end`, rounded down.
pub fn minutes_between(start: &Timestamp, end: &Timestamp) -> (r: i64)
    ensures
        r == entry_minutes(start@, end@),
{
    let diff: i128 = (end.seconds as i128 - start.seconds as i128) * NANOS_PER_SECOND + (
    end.nanos as i128 - start.nanos as i128);
    let q: i128;
    let rem: i128;
    if diff >= 0 {
        q = diff / NANOS_PER_MINUTE;
        rem = diff % NANOS_PER_MINUTE;
        proof {
            lemma_fundamental_div_mod(diff as int, NANOS_PER_MINUTE as int);
        }
    } else {
        let x: i128 = -diff;
        let q0: i128 = x / NANOS_PER_MINUTE;
        let r0: i128 = x % NANOS_PER_MINUTE;
        proof {
            lemma_fundamental_div_mod(x as int, NANOS_PER_MINUTE as int);
        }
        if r0 == 0 {
            q = -q0;
            rem = 0;
        } else {
            q = -q0 - 1;
            rem = NANOS_PER_MINUTE - r0;
        }
    }
    proof {
        lemma_fundamental_div_mod_converse(
            diff as int,
            NANOS_PER_MINUTE as int,
            q as int,
            rem as int,
        );
    }
    q as i64
}

/// A pair of readings: the start and the end of one entry.
pub open spec fn stamps_view(s: Seq<(Timestamp, Timestamp)>) -> Seq<
    ((int, int, Seq<char>), (int, int, Seq<char>)),
> {
    s.map_values(|p: (Timestamp, Timestamp)| (p.0@, p.1@))
}

/// The minutes of the entries `st`, summed per day of their start.
pub open spec fn day_totals(st: Seq<((int, int, Seq<char>), (int, int, Seq<char>))>) -> Map<
    Seq<char>,
    int,
>
    decreases st.len(),
{
    if st.len() == 0 {
        Map::empty()
    } else {
        let before = day_totals(st.drop_last());
        let day = st.last().0.2;
        let so_far = if before.contains_key(day) {
            before[day]
        } else {
            0
        };
        before.insert(day, so_far + entry_minutes(st.last().0, st.last().1))
    }
}

/// Each running day total, as the entries `st` are added in order, fits in an `i64`.
pub open spec fn totals_fit(st: Seq<((int, int, Seq<char>), (int, int, Seq<char>))>) -> bool
    decreases st.len(),
{
    st.len() == 0 || {
        &&& totals_fit(st.drop_last())
        &&& i64::MIN <= day_totals(st)[st.last().0.2] <= i64::MAX
    }
}

proof fn lemma_totals_fit_prefix(st: Seq<((int, int, Seq<char>), (int, int, Seq<char>))>, k: int)
    requires
        totals_fit(st),
        0 <= k <= st.len(),
    ensures
        totals_fit(st.take(k)),
    decreases st.len(),
{
    if k < st.len() {
        lemma_totals_fit_prefix(st.drop_last(), k);
        assert(st.drop_last().take(k) =~= st.take(k));
    } else {
        assert(st.take(k) =~= st);
    }
}

/// `st` with its entries `i` and `i + 1` swapped.
pub open spec fn swap_neighbours(st: Seq<((int, int, Seq<char>), (int, int, Seq<char>))>, i: int) -> Seq<
    ((int, int, Seq<char>), (int, int, Seq<char>)),
> {
    st.update(i, st[i + 1]).update(i + 1, st[i])
}

/// Swapping two neighbouring entries leaves every day total as it was: the
/// totals do not depend on the order in which the entries are added.
pub proof fn lemma_day_totals_swap(st: Seq<((int, int, Seq<char>), (int, int, Seq<char>))>, i: int)
    requires
        0 <= i,
        i + 1 < st.len(),
    ensures
        day_totals(swap_neighbours(st, i)) == day_totals(st),
    decreases st.len(),
{
    let sw = swap_neighbours(st, i);
    if i + 2 < st.len() {
        lemma_day_totals_swap(st.drop_last(), i);
        assert(sw.drop_last() =~= swap_neighbours(st.drop_last(), i));
    } else {
        let p = st.drop_last().drop_last();
        assert(sw.drop_last().drop_last() =~= p);
        let m = day_totals(p);
        let (a, b) = (st[i], st[i + 1]);
        assert(st.drop_last().last() == a);
        assert(sw.drop_last().last() == b);
        assert(sw.last() == a);
        let (da, db) = (a.0.2, b.0.2);
        let (ma, mb) = (entry_minutes(a.0, a.1), entry_minutes(b.0, b.1));
        let ga = if m.contains_key(da) { m[da] } else { 0 };
        let gb = if m.contains_key(db) { m[db] } else { 0 };
        assert(day_totals(st.drop_last()) == m.insert(da, ga + ma));
        assert(day_totals(sw.drop_last()) == m.insert(db, gb + mb));
        if da == db {
            assert(day_totals(st) =~= m.insert(da, ga + ma + mb));
            assert(day_totals(sw) =~= m.insert(da, ga + mb + ma));
        } else {
            assert(day_totals(st) =~= m.insert(da, ga + ma).insert(db, gb + mb));
            assert(day_totals(sw) =~= m.insert(db, gb + mb).insert(da, ga + ma));
        }
    }
}

/// Which timestamp of an entry could not be read.
#[derive(Clone, Copy, Debug, PartialEq, Eq, Structural)]
pub enum TimeField {
    Start,
    End,
}

/// Why a summary could not be built.
#[derive(Debug)]
pub enum SummaryError {
    /// The first entry timestamp that is not RFC 3339, and which of the two it is.
    Unreadable { field: TimeField, raw: String },
    /// A day's total of worked minutes leaves the range of `i64`.
    TotalOutOfRange,
}

/// The characters `Failed to parse `.
pub open spec fn failed_prefix() -> Seq<char> {
    seq!['F', 'a', 'i', 'l', 'e', 'd', ' ', 't', 'o', ' ', 'p', 'a', 'r', 's', 'e', ' ']
}

/// The characters ` date: `.
pub open spec fn date_infix() -> Seq<char> {
    seq![' ', 'd', 'a', 't', 'e', ':', ' ']
}

/// The name of a field, as messages give it.
pub open spec fn field_name(f: TimeField) -> Seq<char> {
    match f {
        TimeField::Start => seq!['s', 't', 'a', 'r', 't'],
        TimeField::End => seq!['e', 'n', 'd'],
    }
}

/// The characters `Daily total out of range`.
pub open spec fn out_of_range_text() -> Seq<char> {
    seq![
        'D', 'a', 'i', 'l', 'y', ' ', 't', 'o', 't', 'a', 'l', ' ', 'o', 'u', 't', ' ', 'o', 'f',
        ' ', 'r', 'a', 'n', 'g', 'e',
    ]
}

impl SummaryError {
    /// The message of the error: `Failed to parse start date: <raw>` (or
    /// `end`) for an unreadable timestamp.
    pub open spec fn message_of(&self) -> Seq<char> {
        match self {
            SummaryError::Unreadable { field, raw } => failed_prefix() + field_name(*field)
                + date_infix() + raw@,
            SummaryError::TotalOutOfRange => out_of_range_text(),
        }
    }

    /// The message of the error.
    pub fn message(&self) -> (r: String)
        ensures
            r@ == self.message_of(),
    {
        proof {
            reveal_strlit("Failed to parse ");
            reveal_strlit("start");
            reveal_strlit("end");
            reveal_strlit(" date: ");
            reveal_strlit("Daily total out of range");
        }
        match self {
            SummaryError::Unreadable { field, raw } => {
                let mut r = String::from_str("Failed to parse ");
                match field {
                    TimeField::Start => r.append("start"),
                    TimeField::End => r.append("end"),
                }
                r.append(" date: ");
                r.append(raw.as_str());
                assert(r@ =~= self.message_of());
                r
            },
            SummaryError::TotalOutOfRange => {
                let r = String::from_str("Daily total out of range");
                assert(r@ =~= self.message_of());
                r
            },
        }
    }
}

/// Sums the minutes of each entry, given as its start and end readings, into
/// the day of its start. Fails when a running day total leaves the `i64` range.
pub fn summarize(stamps: &Vec<(Timestamp, Timestamp)>) -> (r: Result<Summary, SummaryError>)
    ensures
        r is Ok <==> totals_fit(stamps_view(stamps@)),
        r matches Ok(s) ==> s@ == day_totals(stamps_view(stamps@)),
        r is Err ==> r matches Err(SummaryError::TotalOutOfRange),
{
    let ghost all = stamps_view(stamps@);
    let mut summary = Summary::new();
    let mut i: usize = 0;
    assert(all.take(0) =~= Seq::<((int, int, Seq<char>), (int, int, Seq<char>))>::empty());
    while i < stamps.len()
        invariant
            i <= stamps@.len(),
            all == stamps_view(stamps@),
            summary@ == day_totals(all.take(i as int)),
            totals_fit(all.take(i as int)),
        decreases stamps@.len() - i,
    {
        let start = &stamps[i].0;
        let end = &stamps[i].1;
        let m = minutes_between(start, end);
        let day = start.day.clone();
        let ghost next = all.take(i + 1);
        assert(next.drop_last() =~= all.take(i as int));
        assert(next.last() == (start@, end@));
        let total = match summary.get(&day) {
            Some(c) => c.checked_add(m),
            None => Some(m),
        };
        match total {
            Some(t) => {
                summary.insert(day, t);
            },
            None => {
                proof {
                    if totals_fit(all) {
                        lemma_totals_fit_prefix(all, i + 1);
                    }
                }
                return Err(SummaryError::TotalOutOfRange);
            },
        }
        i = i + 1;
    }
    assert(all.take(i as int) =~= all);
    Ok(summary)
}

/// Both timestamps of `e` read as RFC 3339.
pub open spec fn readable(e: TimeEntry) -> bool {
    rfc3339_reading(e.start@) is Some && rfc3339_reading(e.end@) is Some
}

/// Every entry of `es` is readable.
pub open spec fn all_readable(es: Seq<TimeEntry>) -> bool {
    forall|i: int| 0 <= i < es.len() ==> readable(#[trigger] es[i])
}

/// The start and end readings of each entry of `es`.
pub open spec fn readings(es: Seq<TimeEntry>) -> Seq<((int, int, Seq<char>), (int, int, Seq<char>))> {
    es.map_values(|e: TimeEntry| (rfc3339_reading(e.start@)->0, rfc3339_reading(e.end@)->0))
}

/// Entry `i` is the first unreadable one of `es`, and `field` with its text
/// `raw` is its first unreadable timestamp.
pub open spec fn first_unreadable(es: Seq<TimeEntry>, i: int, field: TimeField, raw: Seq<char>) -> bool {
    &&& 0 <= i < es.len()
    &&& all_readable(es.take(i))
    &&& !readable(es[i])
    &&& if rfc3339_reading(es[i].start@) is None {
        field == TimeField::Start && raw == es[i].start@
    } else {
        field == TimeField::End && raw == es[i].end@
    }
}

/// `e` names the first unreadable timestamp of `es`.
pub open spec fn names_first_unreadable(es: Seq<TimeEntry>, e: SummaryError) -> bool {
    match e {
        SummaryError::Unreadable { field, raw } => exists|i: int|
            first_unreadable(es, i, field, raw@),
        SummaryError::TotalOutOfRange => false,
    }
}

/// The worked minutes per day of the entries of `details`. Fails on the first
/// timestamp that is not RFC 3339, naming it; else as `summarize` on the
/// readings.
pub fn build_summary(details: &ReportDetails) -> (r: Result<Summary, SummaryError>)
    ensures
        !all_readable(details.data@) ==> (r matches Err(e) && names_first_unreadable(
            details.data@,
            e,
        )),
        all_readable(details.data@) ==> {
            &&& r is Ok <==> totals_fit(readings(details.data@))
            &&& r matches Ok(s) ==> s@ == day_totals(readings(details.data@))
            &&& r is Err ==> r matches Err(SummaryError::TotalOutOfRange)
        },
{
    let ghost es = details.data@;
    let mut stamps: Vec<(Timestamp, Timestamp)> = Vec::new();
    let mut i: usize = 0;
    while i < details.data.len()
        invariant
            i <= es.len(),
            es == details.data@,
            all_readable(es.take(i as int)),
            stamps_view(stamps@) == readings(es.take(i as int)),
        decreases es.len() - i,
    {
        let entry = &details.data[i];
        let start = match parse_rfc3339(entry.start.as_str()) {
            Ok(t) => t,
            Err(_) => {
                let raw = entry.start.clone();
                assert(!readable(es[i as int]));
                assert(first_unreadable(es, i as int, TimeField::Start, raw@));
                let e = SummaryError::Unreadable { field: TimeField::Start, raw };
                assert(first_unreadable(es, i as int, e->field, e->raw@));
                assert(names_first_unreadable(es, e));
                return Err(e);
            },
        };
        let end = match parse_rfc3339(entry.end.as_str()) {
            Ok(t) => t,
            Err(_) => {
                let raw = entry.end.clone();
                assert(!readable(es[i as int]));
                assert(first_unreadable(es, i as int, TimeField::End, raw@));
                let e = SummaryError::Unreadable { field: TimeField::End, raw };
                assert(first_unreadable(es, i as int, e->field, e->raw@));
                assert(names_first_unreadable(es, e));
                return Err(e);
            },
        };
        let ghost pair = (start@, end@);
        let ghost before = stamps@;
        stamps.push((start, end));
        proof {
            assert(stamps_view(stamps@) =~= stamps_view(before).push(pair));
            assert(readings(es.take(i + 1)) =~= readings(es.take(i as int)).push(pair));
            assert(rfc3339_reading(es[i as int].start@)->0 == pair.0);
            assert(rfc3339_reading(es[i as int].end@)->0 == pair.1);
            assert(es.take(i + 1) =~= es.take(i as int).push(es[i as int]));
            assert(stamps_view(stamps@) =~= readings(es.take(i + 1)));
            assert forall|j: int| 0 <= j < i + 1 implies readable(#[trigger] es.take(i + 1)[j]) by {
                if j < i {
                    assert(es.take(i + 1)[j] == es.take(i as int)[j]);
                }
            }
        }
        i = i + 1;
    }
    assert(es.take(i as int) =~= es);
    summarize(&stamps)
}

} // verus!
