//! Commit counts per day, per week (weeks start on Monday) and per month.
//! Dates are day numbers (see `calendar`).

use vstd::prelude::*;
use crate::analysis::grouping::{
    count_by_key, histogram, is_histogram, lemma_occurrences_positive, lemma_total_count_same_counts,
    total_count,
};
use crate::calendar::{
    calendar_of_epoch_day, ce_day_of_date, date_of_day, epoch_day, epoch_day_of, index_month,
    index_year, lemma_civil_in_month, lemma_date_of_day, lemma_month_start_increasing, lemma_valid_date_in_range,
    month_index, month_start, valid_date, MAX_YEAR, MIN_YEAR,
    day_in_range, days_from_monday, valid_timestamp, week_start, week_start_of, CE_DAY_OF_EPOCH, MAX_EPOCH_DAY, MAX_TIMESTAMP,
    MIN_EPOCH_DAY, MIN_TIMESTAMP,
};
use crate::error::CoreError;
use crate::model::CommitRecord;

verus! {

/// Every commit time is one that a `DateTime<Utc>` can hold.
pub open spec fn commit_times_valid(commits: Seq<CommitRecord>) -> bool {
    forall|i: int| 0 <= i < commits.len() ==> valid_timestamp(#[trigger] commits[i].datetime as int)
}

/// The UTC day of each commit.
pub open spec fn commit_days(commits: Seq<CommitRecord>) -> Seq<i32> {
    commits.map_values(|c: CommitRecord| epoch_day(c.datetime as int) as i32)
}

/// The Monday starting the week of each commit.
pub open spec fn commit_weeks(commits: Seq<CommitRecord>) -> Seq<i32> {
    commits.map_values(|c: CommitRecord| week_start(epoch_day(c.datetime as int)) as i32)
}

/// No commit falls in a week whose Monday precedes chrono's earliest date
/// (chrono cannot step back to it).
pub open spec fn commit_weeks_in_range(commits: Seq<CommitRecord>) -> bool {
    forall|i: int|
        0 <= i < commits.len() ==> MIN_EPOCH_DAY <= week_start(
            epoch_day(#[trigger] commits[i].datetime as int),
        )
}

/// The calendar month of a commit, as a month index.
pub open spec fn commit_month_key(c: CommitRecord) -> i32 {
    let ymd = date_of_day(epoch_day(c.datetime as int));
    month_index(ymd.0, ymd.1) as i32
}

/// The calendar month of each commit, as a month index.
pub open spec fn commit_months(commits: Seq<CommitRecord>) -> Seq<i32> {
    commits.map_values(|c: CommitRecord| commit_month_key(c))
}

/// The monthly commit counts, keyed by the day number of each month's first day.
pub open spec fn month_days(commits: Seq<CommitRecord>) -> Seq<(i32, usize)> {
    histogram(commit_months(commits)).map_values(|e: (i32, usize)| (month_start(e.0 as int) as i32, e.1))
}

/// The day number of a valid timestamp lies in chrono's date range.
pub proof fn lemma_valid_timestamp_day(t: int)
    requires
        valid_timestamp(t),
    ensures
        MIN_EPOCH_DAY <= epoch_day(t) <= MAX_EPOCH_DAY,
{
    vstd::arithmetic::div_mod::lemma_fundamental_div_mod(t, 86400);
    let q = t / 86400;
    let r = t % 86400;
    assert(t == 86400 * q + r);
    assert(0 <= r < 86400);
    assert(MIN_TIMESTAMP == (MIN_EPOCH_DAY as int) * 86400);
    assert(MAX_TIMESTAMP == (MAX_EPOCH_DAY as int) * 86400 + 86399);
}

fn commit_day(c: &CommitRecord) -> (d: i32)
    requires
        valid_timestamp(c.datetime as int),
    ensures
        d == epoch_day(c.datetime as int),
        MIN_EPOCH_DAY <= d <= MAX_EPOCH_DAY,
{
    proof {
        lemma_valid_timestamp_day(c.datetime as int);
    }
    epoch_day_of(c.datetime) as i32
}

/// Group commits by day, returning `(day, count)` pairs sorted by day.
pub fn commit_trend_by_day(commits: &[CommitRecord]) -> (r: Vec<(i32, usize)>)
    requires
        commit_times_valid(commits@),
    ensures
        is_histogram(commit_days(commits@), r@),
        r@ == histogram(commit_days(commits@)),
        total_count(r@) == commits@.len(),
        forall|i: int| 0 <= i < r@.len() ==> day_in_range((#[trigger] r@[i]).0 as int),
{
    let mut keys: Vec<i32> = Vec::new();
    let mut i: usize = 0;
    while i < commits.len()
        invariant
            i <= commits@.len(),
            commit_times_valid(commits@),
            keys@ == commit_days(commits@).take(i as int),
            forall|t: int| 0 <= t < i ==> day_in_range(#[trigger] keys@[t] as int),
        decreases commits.len() - i,
    {
        let d = commit_day(&commits[i]);
        keys.push(d);
        i += 1;
        assert(keys@ =~= commit_days(commits@).take(i as int));
    }
    assert(keys@ =~= commit_days(commits@));
    let r = count_by_key(&keys);
    proof {
        lemma_histogram_keys_in_range(keys@, r@);
    }
    r
}

/// Group commits by week (Monday to Sunday), returning `(monday, count)`
/// pairs sorted by date.
pub fn commit_trend_by_week(commits: &[CommitRecord]) -> (r: Vec<(i32, usize)>)
    requires
        commit_times_valid(commits@),
        commit_weeks_in_range(commits@),
    ensures
        is_histogram(commit_weeks(commits@), r@),
        r@ == histogram(commit_weeks(commits@)),
        total_count(r@) == commits@.len(),
        forall|i: int| 0 <= i < r@.len() ==> days_from_monday((#[trigger] r@[i]).0 as int) == 0,
        forall|i: int| 0 <= i < r@.len() ==> day_in_range((#[trigger] r@[i]).0 as int),
{
    let mut keys: Vec<i32> = Vec::new();
    let mut i: usize = 0;
    while i < commits.len()
        invariant
            i <= commits@.len(),
            commit_times_valid(commits@),
            commit_weeks_in_range(commits@),
            keys@ == commit_weeks(commits@).take(i as int),
            forall|t: int| 0 <= t < i ==> day_in_range(#[trigger] keys@[t] as int),
        decreases commits.len() - i,
    {
        let d = commit_day(&commits[i]);
        let w = week_start_of(d as i64);
        assert(MIN_EPOCH_DAY <= w <= d);
        keys.push(w as i32);
        i += 1;
        assert(keys@ =~= commit_weeks(commits@).take(i as int));
    }
    assert(keys@ =~= commit_weeks(commits@));
    let r = count_by_key(&keys);
    proof {
        lemma_histogram_keys_in_range(keys@, r@);
        assert forall|i: int| 0 <= i < r@.len() implies days_from_monday((#[trigger] r@[i]).0 as int) == 0 by {
            assert(r@[i].1 > 0);
            lemma_occurrences_positive(keys@, r@[i].0);
            let t = choose|t: int| 0 <= t < keys@.len() && keys@[t] == r@[i].0;
            lemma_week_start_is_monday(epoch_day(commits@[t].datetime as int));
        }
    }
    r
}

/// Every key of a histogram occurs among its keys, so it is a date chrono
/// holds when they all are.
proof fn lemma_histogram_keys_in_range(keys: Seq<i32>, r: Seq<(i32, usize)>)
    requires
        is_histogram(keys, r),
        forall|t: int| 0 <= t < keys.len() ==> day_in_range(#[trigger] keys[t] as int),
    ensures
        forall|i: int| 0 <= i < r.len() ==> day_in_range((#[trigger] r[i]).0 as int),
{
    assert forall|i: int| 0 <= i < r.len() implies day_in_range((#[trigger] r[i]).0 as int) by {
        assert(r[i].1 > 0);
        lemma_occurrences_positive(keys, r[i].0);
        let t = choose|t: int| 0 <= t < keys.len() && keys[t] == r[i].0;
        assert(day_in_range(keys[t] as int));
    }
}

/// The start of a week is a Monday.
pub proof fn lemma_week_start_is_monday(day: int)
    ensures
        days_from_monday(week_start(day)) == 0,
{
    let m = (day + 3) % 7;
    vstd::arithmetic::div_mod::lemma_fundamental_div_mod(day + 3, 7);
    let q = (day + 3) / 7;
    assert(week_start(day) + 3 == q * 7 + 0);
    vstd::arithmetic::div_mod::lemma_fundamental_div_mod_converse(week_start(day) + 3, 7, q, 0);
}

/// Month indices of the years chrono holds.
pub open spec fn month_index_in_range(k: int) -> bool {
    MIN_YEAR <= index_year(k) <= MAX_YEAR
}

/// The year and month of a month index.
fn split_month_index(k: i32) -> (r: (i32, u32))
    requires
        month_index_in_range(k as int),
    ensures
        r.0 == index_year(k as int),
        r.1 == index_month(k as int),
        1 <= r.1 <= 12,
{
    let shifted: i64 = k as i64 + 3600000;
    let q = shifted / 12;
    let m = shifted % 12;
    proof {
        let y = index_year(k as int);
        let mm = k as int % 12;
        vstd::arithmetic::div_mod::lemma_fundamental_div_mod(k as int, 12);
        vstd::arithmetic::div_mod::lemma_fundamental_div_mod_converse(
            shifted as int,
            12,
            y + 300000,
            mm,
        );
    }
    ((q - 300000) as i32, (m + 1) as u32)
}

/// The month index of a commit.
fn commit_month(c: &CommitRecord) -> (r: i32)
    requires
        valid_timestamp(c.datetime as int),
    ensures
        r == commit_month_key(*c),
        month_index_in_range(r as int),
{
    let d = commit_day(c);
    let ymd = calendar_of_epoch_day(d);
    match ymd {
        Some((y, m, day)) => {
            proof {
                lemma_date_of_day(y as int, m as int, day as int);
                lemma_civil_in_month(y as int, m as int, day as int);
            }
            y * 12 + (m as i32 - 1)
        },
        None => {
            proof {
                assert(false);
            }
            0
        },
    }
}

/// Group commits by month, returning `(first day of the month, count)` pairs
/// sorted by month. (The first day of every month a commit falls in is a
/// date chrono holds, so `Err(InvalidDate(..))` does not come.)
pub fn commit_trend_by_month(commits: &[CommitRecord]) -> (r: Result<Vec<(i32, usize)>, CoreError>)
    requires
        commit_times_valid(commits@),
    ensures
        is_histogram(commit_months(commits@), histogram(commit_months(commits@))),
        r matches Ok(v) && {
            &&& v@ == month_days(commits@)
            &&& forall|i: int, j: int| 0 <= i < j < v@.len() ==> v@[i].0 < v@[j].0
            &&& total_count(v@) == commits@.len()
            &&& forall|i: int| 0 <= i < v@.len() ==> day_in_range((#[trigger] v@[i]).0 as int)
            &&& forall|i: int| 0 <= i < v@.len() ==> (#[trigger] date_of_day(v@[i].0 as int)).2 == 1
        },
{
    let mut keys: Vec<i32> = Vec::new();
    let mut i: usize = 0;
    while i < commits.len()
        invariant
            i <= commits@.len(),
            commit_times_valid(commits@),
            keys@ == commit_months(commits@).take(i as int),
            forall|t: int| 0 <= t < i ==> month_index_in_range(#[trigger] keys@[t] as int),
        decreases commits.len() - i,
    {
        let k = commit_month(&commits[i]);
        keys.push(k);
        i += 1;
        assert(keys@ =~= commit_months(commits@).take(i as int));
    }
    assert(keys@ =~= commit_months(commits@));
    let ghost all_keys = keys@;
    let counts = count_by_key(&keys);
    assert(keys@.len() == commits@.len());
    let ghost h = histogram(commit_months(commits@));
    let mut out: Vec<(i32, usize)> = Vec::new();
    let mut j: usize = 0;
    while j < counts.len()
        invariant
            counts@ == h,
            h == histogram(commit_months(commits@)),
            all_keys == commit_months(commits@),
            is_histogram(all_keys, h),
            forall|t: int| 0 <= t < all_keys.len() ==> month_index_in_range(#[trigger] all_keys[t] as int),
            j <= counts@.len(),
            out@.len() == j,
            total_count(h) == commits@.len(),
            forall|t: int|
                0 <= t < j ==> (#[trigger] out@[t]).0 as int == month_start(h[t].0 as int) && out@[t].1 == h[t].1,
            forall|t: int| 0 <= t < j ==> day_in_range((#[trigger] out@[t]).0 as int),
            forall|t: int| 0 <= t < j ==> (#[trigger] date_of_day(out@[t].0 as int)).2 == 1,
        decreases counts.len() - j,
    {
        let (k, c) = counts[j];
        proof {
            assert(h[j as int].1 > 0);
            lemma_occurrences_positive(all_keys, k);
        }
        let (y, m) = split_month_index(k);
        proof {
            assert(valid_date(y as int, m as int, 1));
            lemma_civil_in_month(y as int, m as int, 1);
            lemma_valid_date_in_range(y as int, m as int, 1);
            lemma_date_of_day(y as int, m as int, 1);
            assert(k as int == month_index(y as int, m as int)) by {
                vstd::arithmetic::div_mod::lemma_fundamental_div_mod(k as int, 12);
            }
        }
        match ce_day_of_date(y, m, 1) {
            Some(n) => {
                out.push((n - CE_DAY_OF_EPOCH, c));
            },
            None => {
                let e = CoreError::InvalidDate(y, m);
                return Err(e);
            },
        }
        j += 1;
    }
    proof {
        lemma_total_count_same_counts(out@, h);
        assert(out@ =~= month_days(commits@));
        assert forall|a: int, b: int| 0 <= a < b < out@.len() implies out@[a].0 < out@[b].0 by {
            assert(h[a].0 < h[b].0);
            lemma_month_start_increasing(h[a].0 as int, h[b].0 as int);
            assert(day_in_range(out@[a].0 as int) && day_in_range(out@[b].0 as int));
        }
    }
    Ok(out)
}

} // verus!
