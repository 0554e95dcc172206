//! Code churn: lines inserted and deleted per day.

use vstd::prelude::*;
use crate::analysis::grouping::{
    daily_deleted_total, daily_inserted_total, daily_sum, daily_sums_fit, deleted_total, entry_days,
    inserted_total, is_daily_sum, lemma_occurrences_positive, sum_by_day,
};
use crate::analysis::trends::lemma_valid_timestamp_day;
use crate::calendar::{day_in_range, epoch_day, epoch_day_of, valid_timestamp};
use crate::model::ChangeRecord;

verus! {

/// Every change time is one that a `DateTime<Utc>` can hold.
pub open spec fn change_times_valid(changes: Seq<ChangeRecord>) -> bool {
    forall|i: int| 0 <= i < changes.len() ==> valid_timestamp(#[trigger] changes[i].datetime as int)
}

/// Each change as its UTC day with its insertions and deletions.
pub open spec fn change_entries(changes: Seq<ChangeRecord>) -> Seq<(i32, u32, u32)> {
    changes.map_values(
        |c: ChangeRecord| (epoch_day(c.datetime as int) as i32, c.insertions, c.deletions),
    )
}

/// Group code churn by day: `(day, insertions, deletions)` for each day with
/// changes, sorted by day, the counts summed over that day's changes.
pub fn code_churn_over_time(changes: &[ChangeRecord]) -> (r: Vec<(i32, i32, i32)>)
    requires
        change_times_valid(changes@),
        daily_sums_fit(change_entries(changes@)),
    ensures
        is_daily_sum(change_entries(changes@), r@),
        r@ == daily_sum(change_entries(changes@)),
        daily_inserted_total(r@) == inserted_total(change_entries(changes@)),
        daily_deleted_total(r@) == deleted_total(change_entries(changes@)),
        forall|i: int| 0 <= i < r@.len() ==> day_in_range((#[trigger] r@[i]).0 as int),
{
    let mut entries: Vec<(i32, u32, u32)> = Vec::new();
    let mut i: usize = 0;
    while i < changes.len()
        invariant
            i <= changes@.len(),
            change_times_valid(changes@),
            entries@ == change_entries(changes@).take(i as int),
            forall|t: int| 0 <= t < i ==> day_in_range((#[trigger] entries@[t]).0 as int),
        decreases changes.len() - i,
    {
        let c = &changes[i];
        proof {
            lemma_valid_timestamp_day(c.datetime as int);
        }
        let d = epoch_day_of(c.datetime) as i32;
        entries.push((d, c.insertions, c.deletions));
        i += 1;
        assert(entries@ =~= change_entries(changes@).take(i as int));
    }
    assert(entries@ =~= change_entries(changes@));
    let r = sum_by_day(&entries);
    proof {
        assert forall|i: int| 0 <= i < r@.len() implies day_in_range((#[trigger] r@[i]).0 as int) by {
            lemma_occurrences_positive(entry_days(entries@), r@[i].0);
            let t = choose|t: int| 0 <= t < entry_days(entries@).len() && entry_days(entries@)[t] == r@[i].0;
            assert(entry_days(entries@)[t] == entries@[t].0);
        }
    }
    r
}

} // verus!
