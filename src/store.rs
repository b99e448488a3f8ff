//! The grouping of log entries by date, one partition for each date.

use crate::date::Date;
use crate::entry::Entry;
use vstd::prelude::*;

verus! {

/// The entries of the log that share one date, in the order they were read.
#[derive(Clone, Debug, PartialEq, Eq)]
pub struct Partition {
    pub date: Date,
    pub entries: Vec<Entry>,
}

/// The distinct dates of `entries`, in the order of their first entry.
pub open spec fn dates_in_order(entries: Seq<Entry>) -> Seq<Date>
    decreases entries.len(),
{
    if entries.len() == 0 {
        Seq::empty()
    } else {
        let before = dates_in_order(entries.drop_last());
        if before.contains(entries.last().date) {
            before
        } else {
            before.push(entries.last().date)
        }
    }
}

/// The entries of `entries` dated `date`, in their order.
pub open spec fn entries_on(entries: Seq<Entry>, date: Date) -> Seq<Entry>
    decreases entries.len(),
{
    if entries.len() == 0 {
        Seq::empty()
    } else {
        let before = entries_on(entries.drop_last(), date);
        if entries.last().date == date {
            before.push(entries.last())
        } else {
            before
        }
    }
}

/// `parts` holds one partition for each date of `entries`, in the order of
/// the dates' first entries, each with the entries of its date in their
/// order.
pub open spec fn partitions_of(parts: Seq<Partition>, entries: Seq<Entry>) -> bool {
    &&& parts.len() == dates_in_order(entries).len()
    &&& forall|k: int|
        0 <= k < parts.len() ==> {
            &&& (#[trigger] parts[k]).date == dates_in_order(entries)[k]
            &&& parts[k].entries@ == entries_on(entries, parts[k].date)
        }
}

/// Whether some entry of `entries` is dated `date`.
pub open spec fn has_date(entries: Seq<Entry>, date: Date) -> bool {
    exists|i: int| 0 <= i < entries.len() && (#[trigger] entries[i]).date == date
}

proof fn lemma_has_date_last(entries: Seq<Entry>, date: Date)
    requires
        entries.len() > 0,
    ensures
        has_date(entries, date) <==> (has_date(entries.drop_last(), date) || entries.last().date
            == date),
{
    let before = entries.drop_last();
    if has_date(entries, date) {
        let i = choose|i: int| 0 <= i < entries.len() && (#[trigger] entries[i]).date == date;
        if i < before.len() {
            assert(before[i] == entries[i]);
        }
    }
    if has_date(before, date) {
        let i = choose|i: int| 0 <= i < before.len() && (#[trigger] before[i]).date == date;
        assert(entries[i] == before[i]);
    }
    if entries.last().date == date {
        assert(entries[entries.len() - 1].date == date);
    }
}

/// The dates in order are distinct, and are the dates of the entries.
proof fn lemma_dates_in_order(entries: Seq<Entry>)
    ensures
        dates_in_order(entries).no_duplicates(),
        forall|d: Date| dates_in_order(entries).contains(d) <==> has_date(entries, d),
    decreases entries.len(),
{
    if entries.len() > 0 {
        lemma_dates_in_order(entries.drop_last());
        assert forall|d: Date| dates_in_order(entries).contains(d) <==> has_date(entries, d) by {
            lemma_has_date_last(entries, d);
            let before = dates_in_order(entries.drop_last());
            if !before.contains(entries.last().date) && d == entries.last().date {
                assert(before.push(d)[before.len() as int] == d);
            }
            if !before.contains(entries.last().date) && before.push(entries.last().date).contains(
                d,
            ) {
                let k = choose|k: int|
                    0 <= k < before.len() + 1 && before.push(entries.last().date)[k] == d;
                if k < before.len() {
                    assert(before[k] == d);
                }
            }
            if !before.contains(entries.last().date) && before.contains(d) {
                let k = choose|k: int| 0 <= k < before.len() && before[k] == d;
                assert(before.push(entries.last().date)[k] == d);
            }
        }
    }
}

/// A date of the entries has at least one entry on it.
proof fn lemma_entries_on_nonempty(entries: Seq<Entry>, date: Date)
    requires
        has_date(entries, date),
    ensures
        entries_on(entries, date).len() > 0,
    decreases entries.len(),
{
    lemma_has_date_last(entries, date);
    if entries.last().date != date {
        lemma_entries_on_nonempty(entries.drop_last(), date);
    }
}

/// The entries on a date are entries of the log, and have that date.
proof fn lemma_entries_on_are_entries(entries: Seq<Entry>, date: Date)
    ensures
        forall|j: int|
            0 <= j < entries_on(entries, date).len() ==> entries.contains(
                #[trigger] entries_on(entries, date)[j],
            ) && entries_on(entries, date)[j].date == date,
    decreases entries.len(),
{
    if entries.len() > 0 {
        let before = entries.drop_last();
        lemma_entries_on_are_entries(before, date);
        assert forall|j: int| 0 <= j < entries_on(entries, date).len() implies entries.contains(
            #[trigger] entries_on(entries, date)[j],
        ) && entries_on(entries, date)[j].date == date by {
            let on = entries_on(before, date);
            if j < on.len() {
                let i = choose|i: int| 0 <= i < before.len() && before[i] == on[j];
                assert(entries[i] == before[i]);
            } else {
                assert(entries[entries.len() - 1] == entries.last());
            }
        }
    }
}

/// Each partition holds entries of the log, all of the partition's date.
pub proof fn lemma_partitions_hold_their_dates(parts: Seq<Partition>, entries: Seq<Entry>)
    requires
        partitions_of(parts, entries),
    ensures
        forall|k: int, j: int|
            0 <= k < parts.len() && 0 <= j < parts[k].entries@.len() ==> entries.contains(
                #[trigger] parts[k].entries@[j],
            ) && parts[k].entries@[j].date == parts[k].date,
{
    assert forall|k: int, j: int|
        0 <= k < parts.len() && 0 <= j < parts[k].entries@.len() implies entries.contains(
        #[trigger] parts[k].entries@[j],
    ) && parts[k].entries@[j].date == parts[k].date by {
        lemma_entries_on_are_entries(entries, parts[k].date);
    }
}

/// A grouping by date holds one partition per date of the entries: no two
/// partitions share a date, every entry's date has a partition, and no
/// partition is empty.
pub proof fn lemma_partitions_cover(parts: Seq<Partition>, entries: Seq<Entry>)
    requires
        partitions_of(parts, entries),
    ensures
        forall|k: int, m: int|
            0 <= k < parts.len() && 0 <= m < parts.len() && k != m ==> (#[trigger] parts[k]).date
                != (#[trigger] parts[m]).date,
        forall|i: int|
            0 <= i < entries.len() ==> exists|k: int|
                0 <= k < parts.len() && (#[trigger] parts[k]).date == (#[trigger] entries[i]).date,
        forall|k: int| 0 <= k < parts.len() ==> (#[trigger] parts[k]).entries@.len() > 0,
{
    let dates = dates_in_order(entries);
    lemma_dates_in_order(entries);
    assert forall|k: int| 0 <= k < parts.len() implies (#[trigger] parts[k]).entries@.len() > 0 by {
        assert(dates.contains(dates[k]));
        lemma_entries_on_nonempty(entries, parts[k].date);
    }
    assert forall|i: int| 0 <= i < entries.len() implies exists|k: int|
        0 <= k < parts.len() && (#[trigger] parts[k]).date == (#[trigger] entries[i]).date by {
        assert(has_date(entries, entries[i].date));
        let k = choose|k: int| 0 <= k < dates.len() && dates[k] == entries[i].date;
        assert(parts[k].date == entries[i].date);
    }
}

/// The dates of `entries`, each once, in the order of their first entry.
fn distinct_dates(entries: &[Entry]) -> (r: Vec<Date>)
    ensures
        r@ == dates_in_order(entries@),
{
    let mut dates: Vec<Date> = Vec::new();
    let mut i: usize = 0;
    while i < entries.len()
        invariant
            i <= entries@.len(),
            dates@ == dates_in_order(entries@.subrange(0, i as int)),
        decreases entries.len() - i,
    {
        assert(entries@.subrange(0, i + 1).drop_last() =~= entries@.subrange(0, i as int));
        let date = entries[i].date;
        let mut seen = false;
        let mut j: usize = 0;
        while j < dates.len()
            invariant
                j <= dates@.len(),
                seen <==> exists|k: int| 0 <= k < j && dates@[k] == date,
            decreases dates.len() - j,
        {
            if dates[j] == date {
                seen = true;
            }
            j += 1;
        }
        assert(seen <==> dates@.contains(date));
        if !seen {
            dates.push(date);
        }
        i += 1;
    }
    assert(entries@.subrange(0, i as int) =~= entries@);
    dates
}

/// The entries of `entries` dated `date`, in their order.
fn entries_dated(entries: &[Entry], date: Date) -> (r: Vec<Entry>)
    ensures
        r@ == entries_on(entries@, date),
{
    let mut found: Vec<Entry> = Vec::new();
    let mut i: usize = 0;
    while i < entries.len()
        invariant
            i <= entries@.len(),
            found@ == entries_on(entries@.subrange(0, i as int), date),
        decreases entries.len() - i,
    {
        assert(entries@.subrange(0, i + 1).drop_last() =~= entries@.subrange(0, i as int));
        if entries[i].date == date {
            found.push(entries[i]);
        }
        i += 1;
    }
    assert(entries@.subrange(0, i as int) =~= entries@);
    found
}

/// Groups `entries` by date: one partition for each date present, none for
/// any other date, each keeping its entries in the order they came.
pub fn sort_entries_by_date(entries: &[Entry]) -> (r: Vec<Partition>)
    ensures
        partitions_of(r@, entries@),
{
    let dates = distinct_dates(entries);
    let mut parts: Vec<Partition> = Vec::new();
    let mut k: usize = 0;
    while k < dates.len()
        invariant
            k <= dates@.len(),
            dates@ == dates_in_order(entries@),
            parts@.len() == k,
            forall|m: int|
                0 <= m < k ==> {
                    &&& (#[trigger] parts@[m]).date == dates@[m]
                    &&& parts@[m].entries@ == entries_on(entries@, parts@[m].date)
                },
        decreases dates.len() - k,
    {
        let date = dates[k];
        parts.push(Partition { date, entries: entries_dated(entries, date) });
        k += 1;
    }
    parts
}

} // verus!
