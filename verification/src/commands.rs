//! What the dashboard answers about the scanned repositories, and how a
//! finished scan is recorded.

use vstd::prelude::*;
use crate::analysis::code_churn::{change_entries, change_times_valid, code_churn_over_time};
use crate::analysis::contributors::{author_names, contributor_commits};
use crate::analysis::grouping::{daily_sum, daily_sums_fit, histogram, total_count};
use crate::analysis::ranking::{ranking, ranking_view};
use crate::analysis::trends::{
    commit_days, commit_times_valid, commit_trend_by_day, commit_trend_by_month, commit_trend_by_week,
    commit_weeks, commit_weeks_in_range, month_days,
};
use crate::calendar::day_in_range;
use crate::error::{error_text, CoreResult};
use crate::format::{day_string, day_text};
use crate::model::{RepoRawData, RepoStats};
use crate::state::scan_result::{state_of, ScanResultStore, ScanState};

verus! {

/// Day-numbered counts with each day written as `YYYY-MM-DD`.
pub open spec fn dated_counts(v: Seq<(i32, usize)>) -> Seq<(Seq<char>, usize)> {
    v.map_values(|e: (i32, usize)| (day_text(e.0), e.1))
}

/// Labelled counts with each label taken as text.
pub open spec fn labelled_counts(r: Seq<(String, usize)>) -> Seq<(Seq<char>, usize)> {
    r.map_values(|e: (String, usize)| (e.0@, e.1))
}

/// Day-numbered churn with each day written as `YYYY-MM-DD`.
pub open spec fn dated_churn(v: Seq<(i32, i32, i32)>) -> Seq<(Seq<char>, i32, i32)> {
    v.map_values(|e: (i32, i32, i32)| (day_text(e.0), e.1, e.2))
}

/// Labelled churn with each label taken as text.
pub open spec fn labelled_churn(r: Seq<(String, i32, i32)>) -> Seq<(Seq<char>, i32, i32)> {
    r.map_values(|e: (String, i32, i32)| (e.0@, e.1, e.2))
}

/// What the trend analyses need of a scan result: times a `DateTime<Utc>`
/// holds, weeks whose Monday chrono holds, and daily churn sums that fit an
/// `i32`.
pub open spec fn trend_inputs_valid(stats: RepoStats) -> bool {
    &&& commit_times_valid(stats.commits@)
    &&& commit_weeks_in_range(stats.commits@)
    &&& change_times_valid(stats.changes@)
    &&& daily_sums_fit(change_entries(stats.changes@))
}

/// `state` is what a scan of `path` that ended in `result` leaves: the
/// records (without snapshots) when it succeeded, the error's text when not.
pub open spec fn scan_outcome_of(path: Seq<char>, result: CoreResult<RepoRawData>, state: ScanState) -> bool {
    match result {
        Ok(data) => state matches ScanState::Completed(stats) && {
            &&& stats.repo_path@ == path
            &&& stats.repo_name == data.repo_name
            &&& stats.commits@ == data.commits@
            &&& stats.changes@ == data.changes@
            &&& stats.snapshots@.len() == 0
        },
        Err(e) => state matches ScanState::Failed(msg) && msg@ == error_text(e),
    }
}

fn label_days(v: &Vec<(i32, usize)>) -> (r: Vec<(String, usize)>)
    requires
        forall|i: int| 0 <= i < v@.len() ==> day_in_range((#[trigger] v@[i]).0 as int),
    ensures
        labelled_counts(r@) == dated_counts(v@),
{
    let mut r: Vec<(String, usize)> = Vec::new();
    let mut i: usize = 0;
    while i < v.len()
        invariant
            i <= v@.len(),
            forall|t: int| 0 <= t < v@.len() ==> day_in_range((#[trigger] v@[t]).0 as int),
            r@.len() == i,
            forall|t: int| 0 <= t < i ==> (#[trigger] r@[t]).0@ == day_text(v@[t].0) && r@[t].1 == v@[t].1,
        decreases v.len() - i,
    {
        let (d, c) = v[i];
        let label = day_string(d);
        r.push((label, c));
        i += 1;
    }
    assert(labelled_counts(r@) =~= dated_counts(v@));
    r
}

fn label_churn_days(v: &Vec<(i32, i32, i32)>) -> (r: Vec<(String, i32, i32)>)
    requires
        forall|i: int| 0 <= i < v@.len() ==> day_in_range((#[trigger] v@[i]).0 as int),
    ensures
        labelled_churn(r@) == dated_churn(v@),
{
    let mut r: Vec<(String, i32, i32)> = Vec::new();
    let mut i: usize = 0;
    while i < v.len()
        invariant
            i <= v@.len(),
            forall|t: int| 0 <= t < v@.len() ==> day_in_range((#[trigger] v@[t]).0 as int),
            r@.len() == i,
            forall|t: int|
                0 <= t < i ==> (#[trigger] r@[t]).0@ == day_text(v@[t].0) && r@[t].1 == v@[t].1 && r@[t].2
                    == v@[t].2,
        decreases v.len() - i,
    {
        let (d, ins, del) = v[i];
        let label = day_string(d);
        r.push((label, ins, del));
        i += 1;
    }
    assert(labelled_churn(r@) =~= dated_churn(v@));
    r
}

/// Contributor commit counts of the repository at `path` when its scan
/// completed; nothing otherwise.
pub fn contributors_of(store: &ScanResultStore, path: &str) -> (r: Vec<(String, usize)>)
    ensures
        match state_of(store@, path@) {
            ScanState::Completed(stats) => {
                &&& ranking_view(r@) == ranking(author_names(stats.commits@))
                &&& total_count(r@) == stats.commits@.len()
            },
            _ => r@.len() == 0,
        },
{
    match store.get(path) {
        ScanState::Completed(stats) => contributor_commits(stats.commits.as_slice()),
        _ => Vec::new(),
    }
}

/// Commits per day, per week and per month, and code churn per day, of the
/// repository at `path` when its scan completed, each date written
/// `YYYY-MM-DD`. All four are empty when the scan has not completed.
pub fn trends_of(store: &ScanResultStore, path: &str) -> (r: (
    Vec<(String, usize)>,
    Vec<(String, usize)>,
    Vec<(String, usize)>,
    Vec<(String, i32, i32)>,
))
    requires
        state_of(store@, path@) matches ScanState::Completed(stats) ==> trend_inputs_valid(stats),
    ensures
        match state_of(store@, path@) {
            ScanState::Completed(stats) => {
                &&& labelled_counts(r.0@) == dated_counts(histogram(commit_days(stats.commits@)))
                &&& labelled_counts(r.1@) == dated_counts(histogram(commit_weeks(stats.commits@)))
                &&& labelled_counts(r.2@) == dated_counts(month_days(stats.commits@))
                &&& labelled_churn(r.3@) == dated_churn(daily_sum(change_entries(stats.changes@)))
            },
            _ => r.0@.len() == 0 && r.1@.len() == 0 && r.2@.len() == 0 && r.3@.len() == 0,
        },
{
    match store.get(path) {
        ScanState::Completed(stats) => {
            let commits = stats.commits.as_slice();
            let days = commit_trend_by_day(commits);
            let by_day = label_days(&days);
            let weeks = commit_trend_by_week(commits);
            let by_week = label_days(&weeks);
            let by_month = match commit_trend_by_month(commits) {
                Ok(months) => label_days(&months),
                Err(_) => Vec::new(),
            };
            let churn = code_churn_over_time(stats.changes.as_slice());
            let by_churn = label_churn_days(&churn);
            (by_day, by_week, by_month, by_churn)
        },
        _ => (Vec::new(), Vec::new(), Vec::new(), Vec::new()),
    }
}

/// The state a scan of `path` ends in (see `scan_outcome_of`).
pub fn scan_outcome(path: &str, result: CoreResult<RepoRawData>) -> (r: ScanState)
    ensures
        scan_outcome_of(path@, result, r),
{
    match result {
        Ok(data) => ScanState::Completed(
            RepoStats {
                repo_path: String::from_str(path),
                repo_name: data.repo_name,
                commits: data.commits,
                changes: data.changes,
                snapshots: Vec::new(),
            },
        ),
        Err(e) => ScanState::Failed(e.message()),
    }
}

/// Record in `store` how the scan of `path` ended; what the store reports
/// for other paths does not change.
pub fn finish_scan(store: &mut ScanResultStore, path: &str, result: CoreResult<RepoRawData>)
    ensures
        scan_outcome_of(path@, result, state_of(final(store)@, path@)),
        forall|q: Seq<char>| q != path@ ==> state_of(final(store)@, q) == state_of(old(store)@, q),
        final(store)@.dom() == old(store)@.dom().insert(path@),
{
    let state = scan_outcome(path, result);
    store.set_state(path, state);
}

} // verus!
