use chrono::{Datelike, NaiveDate};
use giter::analysis::code_churn::code_churn_over_time;
use giter::analysis::contributors::{contributor_commits, contributor_commits_by_email_domain};
use giter::analysis::file_types::file_type_distribution;
use giter::analysis::trends::{commit_trend_by_day, commit_trend_by_month, commit_trend_by_week};
use giter::model::{ChangeRecord, CommitRecord, SnapshotRecord};

fn now_secs() -> i64 {
    chrono::Utc::now().timestamp()
}

fn make_change(days_ago: i64, insertions: u32, deletions: u32) -> ChangeRecord {
    let secs = now_secs() - days_ago * 86400;
    ChangeRecord {
        commit_hash: "abc".into(),
        file_path: "test.rs".into(),
        ext: "rs".into(),
        insertions,
        deletions,
        datetime: secs,
    }
}

fn make_commit(name: &str, email: &str) -> CommitRecord {
    CommitRecord {
        repo_name: "test".into(),
        hash: "abc".into(),
        author_name: name.into(),
        author_email: email.into(),
        datetime: now_secs(),
        message: "commit".into(),
    }
}

fn make_dated_commit(days_ago: i64, author: &str) -> CommitRecord {
    CommitRecord {
        repo_name: "test".into(),
        hash: "abc".into(),
        author_name: author.into(),
        author_email: "a@b.com".into(),
        datetime: now_secs() - days_ago * 86400,
        message: "commit".into(),
    }
}

fn make_snapshot(path: &str) -> SnapshotRecord {
    SnapshotRecord {
        commit_hash: "abc".into(),
        file_path: path.into(),
        code_lines: 10,
        comment_lines: 2,
        blank_lines: 1,
    }
}

// ---- code churn ----

#[test]
fn test_churn_empty() {
    let result = code_churn_over_time(&[]);
    assert!(result.is_empty());
}

#[test]
fn test_churn_single() {
    let changes = vec![make_change(0, 10, 2)];
    let result = code_churn_over_time(&changes);
    assert_eq!(result.len(), 1);
    assert_eq!(result[0].1, 10);
    assert_eq!(result[0].2, 2);
}

#[test]
fn test_churn_aggregates_same_day() {
    let changes = vec![make_change(0, 10, 2), make_change(0, 5, 1), make_change(1, 20, 3)];
    let result = code_churn_over_time(&changes);
    assert_eq!(result.len(), 2);
    assert_eq!(result[0].1, 20);
    assert_eq!(result[0].2, 3);
    assert_eq!(result[1].1, 15);
    assert_eq!(result[1].2, 3);
}

#[test]
fn test_churn_sorted_by_date() {
    let changes = vec![make_change(5, 1, 0), make_change(1, 2, 0), make_change(10, 3, 0)];
    let result = code_churn_over_time(&changes);
    for w in result.windows(2) {
        assert!(w[0].0 <= w[1].0, "dates should be sorted ascending");
    }
}

// ---- contributors ----

#[test]
fn test_contributor_commits_empty() {
    let result = contributor_commits(&[]);
    assert!(result.is_empty());
}

#[test]
fn test_contributor_commits_single() {
    let commits = vec![make_commit("alice", "a@b.com")];
    let result = contributor_commits(&commits);
    assert_eq!(result.len(), 1);
    assert_eq!(result[0], ("alice".to_string(), 1));
}

#[test]
fn test_contributor_commits_multi() {
    let commits = vec![
        make_commit("alice", "a@b.com"),
        make_commit("bob", "b@c.com"),
        make_commit("alice", "a@b.com"),
    ];
    let result = contributor_commits(&commits);
    assert_eq!(result.len(), 2);
    assert_eq!(result[0], ("alice".to_string(), 2));
    assert_eq!(result[1], ("bob".to_string(), 1));
}

#[test]
fn test_email_domain_empty() {
    let result = contributor_commits_by_email_domain(&[]);
    assert!(result.is_empty());
}

#[test]
fn test_email_domain_groups() {
    let commits = vec![
        make_commit("alice", "a@gmail.com"),
        make_commit("bob", "b@gmail.com"),
        make_commit("carol", "carol@company.com"),
    ];
    let result = contributor_commits_by_email_domain(&commits);
    assert_eq!(result.len(), 2);
    for (domain, count) in &result {
        match domain.as_str() {
            "gmail.com" => assert_eq!(*count, 2),
            "company.com" => assert_eq!(*count, 1),
            _ => panic!("unexpected domain: {}", domain),
        }
    }
}

// ---- file types ----

#[test]
fn test_file_types_empty() {
    let result = file_type_distribution(&[]);
    assert!(result.is_empty());
}

#[test]
fn test_file_types_single() {
    let snapshots = vec![make_snapshot("main.rs")];
    let result = file_type_distribution(&snapshots);
    assert_eq!(result.len(), 1);
    assert_eq!(result[0], ("rs".to_string(), 1));
}

#[test]
fn test_file_types_multiple() {
    let snapshots = vec![
        make_snapshot("main.rs"),
        make_snapshot("lib.rs"),
        make_snapshot("index.html"),
        make_snapshot("style.css"),
        make_snapshot("main.rs"),
    ];
    let result = file_type_distribution(&snapshots);
    assert_eq!(result[0], ("rs".to_string(), 3));
    assert_eq!(result[1], ("css".to_string(), 1));
    assert_eq!(result[2], ("html".to_string(), 1));
}

#[test]
fn test_file_types_no_extension() {
    let snapshots = vec![make_snapshot("Makefile"), make_snapshot("Dockerfile")];
    let result = file_type_distribution(&snapshots);
    for (ext, _) in &result {
        assert_eq!(ext, "", "files without extension should use empty string key");
    }
    assert_eq!(result.iter().map(|(_, c)| c).sum::<u64>(), 2);
}

#[test]
fn test_file_types_case_insensitive() {
    let snapshots = vec![make_snapshot("file.Rs"), make_snapshot("file2.rs")];
    let result = file_type_distribution(&snapshots);
    assert_eq!(result.len(), 1);
    assert_eq!(result[0], ("rs".to_string(), 2));
}

// ---- trends ----

#[test]
fn test_trend_by_day_empty() {
    let result = commit_trend_by_day(&[]);
    assert!(result.is_empty());
}

#[test]
fn test_trend_by_day_single() {
    let commits = vec![make_dated_commit(0, "alice")];
    let result = commit_trend_by_day(&commits);
    assert_eq!(result.len(), 1);
    assert_eq!(result[0].1, 1);
}

#[test]
fn test_trend_by_day_multiple_same_day() {
    let commits = vec![
        make_dated_commit(0, "alice"),
        make_dated_commit(0, "bob"),
        make_dated_commit(0, "alice"),
    ];
    let result = commit_trend_by_day(&commits);
    assert_eq!(result.len(), 1);
    assert_eq!(result[0].1, 3);
}

#[test]
fn test_trend_by_day_different_days() {
    let commits = vec![make_dated_commit(0, "alice"), make_dated_commit(1, "bob"), make_dated_commit(2, "alice")];
    let result = commit_trend_by_day(&commits);
    assert_eq!(result.len(), 3);
    for w in result.windows(2) {
        assert!(w[0].0 <= w[1].0, "days should be sorted");
    }
}

#[test]
fn test_trend_by_week_groups_correctly() {
    let commits = vec![make_dated_commit(0, "a"), make_dated_commit(8, "b"), make_dated_commit(20, "c")];
    let result = commit_trend_by_week(&commits);
    assert!(result.len() >= 2, "should span at least 2 weeks, got {}", result.len());
}

#[test]
fn test_trend_by_month_empty() {
    let result = commit_trend_by_month(&[]).expect("empty trend");
    assert!(result.is_empty());
}

#[test]
fn test_trend_by_month_groups() {
    let commits = vec![make_dated_commit(0, "a"), make_dated_commit(32, "b")];
    let result = commit_trend_by_month(&commits).expect("month trend");
    assert!(result.len() >= 1);
    for (date, _) in &result {
        let date = NaiveDate::from_epoch_days(*date).expect("date in range");
        assert_eq!(date.day(), 1, "month trend key should be first of month");
    }
}
